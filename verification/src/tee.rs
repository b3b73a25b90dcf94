//! Duplication of a byte stream to two sinks in lockstep: the input is read
//! in bounded chunks, each chunk is written identically to both sinks before
//! the next is read, and end of stream is signalled by one final zero-length
//! write to both.

use vstd::prelude::*;
use vstd::slice::{slice_subrange, slice_to_vec};

verus! {

/// A sink that records every write it receives, as the sequence of chunks in
/// the order written.
pub struct ChunkSink {
    pub chunks: Vec<Vec<u8>>,
}

impl View for ChunkSink {
    type V = Seq<Seq<u8>>;

    open spec fn view(&self) -> Seq<Seq<u8>> {
        Seq::new(self.chunks@.len(), |i: int| self.chunks@[i]@)
    }
}

impl ChunkSink {
    pub fn new() -> (r: ChunkSink)
        ensures
            r@ == Seq::<Seq<u8>>::empty(),
    {
        let r = ChunkSink { chunks: Vec::new() };
        proof {
            assert(r@ =~= Seq::<Seq<u8>>::empty());
        }
        r
    }

    pub fn write(&mut self, data: &[u8])
        ensures
            final(self)@ == old(self)@.push(data@),
    {
        self.chunks.push(slice_to_vec(data));
        proof {
            assert(final(self)@ =~= old(self)@.push(data@));
        }
    }
}

/// The chunks a tee of `input` writes to each sink: pieces of at most `chunk`
/// bytes taken from the front, and one final zero-length piece.
pub open spec fn chunks_of(input: Seq<u8>, chunk: nat) -> Seq<Seq<u8>>
    decreases input.len(),
{
    if chunk == 0 {
        Seq::empty()
    } else if input.len() == 0 {
        seq![Seq::<u8>::empty()]
    } else {
        let n: int = if input.len() <= chunk {
            input.len() as int
        } else {
            chunk as int
        };
        seq![input.take(n)] + chunks_of(input.skip(n), chunk)
    }
}

/// A sequence of chunks, concatenated front to back.
pub open spec fn concat_chunks(cs: Seq<Seq<u8>>) -> Seq<u8>
    decreases cs.len(),
{
    if cs.len() == 0 {
        Seq::empty()
    } else {
        cs[0] + concat_chunks(cs.drop_first())
    }
}

/// Duplicate `input` to both sinks: each chunk of at most `chunk` bytes is
/// written identically to `a` and to `b` before the next is read, and the
/// final write to each sink is the zero-length end-of-stream signal.
pub fn tee(input: &Vec<u8>, chunk: usize, a: &mut ChunkSink, b: &mut ChunkSink)
    requires
        chunk >= 1,
    ensures
        final(a)@ == old(a)@ + chunks_of(input@, chunk as nat),
        final(b)@ == old(b)@ + chunks_of(input@, chunk as nat),
    {
    let ghost a0 = old(a)@;
    let ghost b0 = old(b)@;
    let ghost mut w: Seq<Seq<u8>> = Seq::empty();
    let mut pos: usize = 0;
    proof {
        assert(a0 + w =~= a0);
        assert(b0 + w =~= b0);
        assert(input@.skip(0) =~= input@);
        assert(w + chunks_of(input@, chunk as nat) =~= chunks_of(input@, chunk as nat));
    }
    loop
        invariant_except_break
            chunk >= 1,
            pos <= input.len(),
            a@ == a0 + w,
            b@ == b0 + w,
            chunks_of(input@, chunk as nat) == w + chunks_of(input@.skip(pos as int), chunk as nat),
        ensures
            a@ == a0 + chunks_of(input@, chunk as nat),
            b@ == b0 + chunks_of(input@, chunk as nat),
        decreases input.len() - pos,
    {
        let remaining = input.len() - pos;
        let n = if remaining < chunk {
            remaining
        } else {
            chunk
        };
        let piece = slice_subrange(input.as_slice(), pos, pos + n);
        a.write(piece);
        b.write(piece);
        proof {
            let tail = input@.skip(pos as int);
            if remaining == 0 {
                assert(tail =~= Seq::<u8>::empty());
                assert(piece@ =~= Seq::<u8>::empty());
                assert(chunks_of(tail, chunk as nat) =~= seq![Seq::<u8>::empty()]);
                assert((w + seq![piece@]) =~= w.push(piece@));
                assert(chunks_of(input@, chunk as nat) =~= w.push(piece@));
                assert(a@ =~= a0 + w.push(piece@));
                assert(b@ =~= b0 + w.push(piece@));
            } else {
                assert(tail.take(n as int) =~= piece@);
                assert(tail.skip(n as int) =~= input@.skip(pos + n));
                assert(chunks_of(tail, chunk as nat) == seq![piece@] + chunks_of(
                    input@.skip(pos + n),
                    chunk as nat,
                ));
                assert(a@ =~= a0 + w.push(piece@));
                assert(b@ =~= b0 + w.push(piece@));
                assert(w.push(piece@) + chunks_of(input@.skip(pos + n), chunk as nat) =~= w + (
                seq![piece@] + chunks_of(input@.skip(pos + n), chunk as nat)));
                w = w.push(piece@);
            }
        }
        if n == 0 {
            break;
        }
        pos = pos + n;
    }
}

/// Law: a tee is faithful. The chunk sequence each sink receives concatenates
/// back to exactly the input bytes (the two sinks being identical chunk for
/// chunk by the tee's own contract), and it ends with the one zero-length
/// end-of-stream write.
pub proof fn lemma_tee_faithful(input: Seq<u8>, chunk: nat)
    requires
        chunk >= 1,
    ensures
        concat_chunks(chunks_of(input, chunk)) == input,
        chunks_of(input, chunk).len() >= 1,
        chunks_of(input, chunk).last() == Seq::<u8>::empty(),
    decreases input.len(),
{
    if input.len() == 0 {
        let cs = chunks_of(input, chunk);
        assert(cs =~= seq![Seq::<u8>::empty()]);
        assert(cs.drop_first() =~= Seq::<Seq<u8>>::empty());
        assert(concat_chunks(cs.drop_first()) == Seq::<u8>::empty());
        assert(concat_chunks(cs) =~= input);
    } else {
        let n: int = if input.len() <= chunk {
            input.len() as int
        } else {
            chunk as int
        };
        lemma_tee_faithful(input.skip(n), chunk);
        let cs = chunks_of(input, chunk);
        assert(cs.drop_first() =~= chunks_of(input.skip(n), chunk));
        assert(cs[0] == input.take(n));
        assert(concat_chunks(cs) == input.take(n) + concat_chunks(chunks_of(input.skip(n), chunk)));
        assert(input.take(n) + input.skip(n) =~= input);
        assert(cs.last() == chunks_of(input.skip(n), chunk).last());
    }
}

} // verus!
