//! Fixed-capacity rolling store of recent text lines.

use vstd::prelude::*;

verus! {

/// Once the buffer is full, each new push overwrites the logically oldest
/// entry; `contents` always yields the entries oldest first.
pub struct RingBuf {
    vec: Vec<String>,
    capacity: usize,
    offset: usize,
}

/// One push, at the level of the buffer's model: append while below capacity,
/// otherwise drop the oldest line and append.
pub open spec fn push_model(m: Seq<Seq<char>>, cap: nat, s: Seq<char>) -> Seq<Seq<char>> {
    if m.len() < cap {
        m.push(s)
    } else {
        m.subrange(1, m.len() as int).push(s)
    }
}

/// The lines joined oldest first, each followed by a newline.
pub open spec fn joined(m: Seq<Seq<char>>) -> Seq<char>
    decreases m.len(),
{
    if m.len() == 0 {
        Seq::empty()
    } else {
        joined(m.drop_last()) + m.last() + "\n"@
    }
}

impl RingBuf {
    /// The capacity the buffer was created with.
    pub closed spec fn cap(self) -> nat {
        self.capacity as nat
    }

    /// The stored lines, oldest first.
    pub closed spec fn model(self) -> Seq<Seq<char>> {
        Seq::new(
            self.vec.len() as nat,
            |i: int|
                if i + self.offset < self.vec.len() {
                    self.vec[i + self.offset]@
                } else {
                    self.vec[i + self.offset - self.vec.len()]@
                },
        )
    }

    pub closed spec fn wf(self) -> bool {
        &&& self.capacity >= 1
        &&& self.vec.len() <= self.capacity
        &&& (self.vec.len() < self.capacity ==> self.offset == 0)
        &&& (self.offset < self.vec.len() || self.offset == 0)
    }

    pub fn new(capacity: usize) -> (r: RingBuf)
        requires
            capacity >= 1,
        ensures
            r.wf(),
            r.cap() == capacity,
            r.model() == Seq::<Seq<char>>::empty(),
    {
        let r = RingBuf { vec: Vec::new(), capacity, offset: 0 };
        proof {
            assert(r.model() =~= Seq::<Seq<char>>::empty());
        }
        r
    }

    pub fn push(&mut self, s: &str)
        requires
            old(self).wf(),
        ensures
            final(self).wf(),
            final(self).cap() == old(self).cap(),
            final(self).model() == push_model(old(self).model(), old(self).cap(), s@),
    {
        if self.vec.len() < self.capacity {
            self.vec.push(s.to_owned());
            proof {
                assert(final(self).model() =~= old(self).model().push(s@));
            }
        } else {
            let ghost pre = *self;
            let len = self.vec.len();
            self.vec[self.offset] = s.to_owned();
            self.offset = self.offset + 1;
            if self.offset == len {
                self.offset = 0;
            }
            proof {
                let m0 = pre.model();
                let m1 = final(self).model();
                let off = pre.offset as int;
                let l = len as int;
                assert forall|i: int| 0 <= i < l implies m1[i] == push_model(
                    m0,
                    pre.cap(),
                    s@,
                )[i] by {
                    if i < l - 1 {
                        assert(m0.subrange(1, l)[i] == m0[i + 1]);
                    }
                }
                assert(m1 =~= push_model(m0, pre.cap(), s@));
            }
        }
    }

    pub fn contents(&self) -> (r: String)
        requires
            self.wf(),
        ensures
            r@ == joined(self.model()),
    {
        let mut s = String::new();
        let len = self.vec.len();
        let mut i: usize = 0;
        while i < len
            invariant
                self.wf(),
                len == self.vec.len(),
                i <= len,
                s@ == joined(self.model().take(i as int)),
            decreases len - i,
        {
            let j = if i >= len - self.offset {
                i - (len - self.offset)
            } else {
                i + self.offset
            };
            s.append(self.vec[j].as_str());
            s.append("\n");
            proof {
                let m = self.model();
                assert(m.take(i + 1).drop_last() =~= m.take(i as int));
                assert(m.take(i + 1).last() == m[i as int]);
                assert(m[i as int] == self.vec[j as int]@);
            }
            i = i + 1;
        }
        proof {
            assert(self.model().take(len as int) =~= self.model());
        }
        s
    }

    pub fn clear(&mut self)
        requires
            old(self).wf(),
        ensures
            final(self).wf(),
            final(self).cap() == old(self).cap(),
            final(self).model() == Seq::<Seq<char>>::empty(),
    {
        self.offset = 0;
        self.vec.truncate(0);
        proof {
            assert(final(self).model() =~= Seq::<Seq<char>>::empty());
        }
    }
}

/// The buffer's model after a whole sequence of pushes into an initially
/// empty buffer of capacity `cap`.
pub open spec fn pushes(cap: nat, lines: Seq<Seq<char>>) -> Seq<Seq<char>>
    decreases lines.len(),
{
    if lines.len() == 0 {
        Seq::empty()
    } else {
        push_model(pushes(cap, lines.drop_last()), cap, lines.last())
    }
}

/// Law: after any sequence of N pushes into an initially empty buffer of
/// capacity C >= 1, the buffer holds exactly the last min(N, C) pushed lines,
/// in the order they were pushed (oldest first).
pub proof fn lemma_pushes_keep_last(cap: nat, lines: Seq<Seq<char>>)
    requires
        cap >= 1,
    ensures
        pushes(cap, lines) == lines.subrange(
            if lines.len() <= cap {
                0
            } else {
                lines.len() - cap
            },
            lines.len() as int,
        ),
    decreases lines.len(),
{
    let n = lines.len() as int;
    let k: int = if lines.len() <= cap {
        0
    } else {
        lines.len() - cap
    };
    if lines.len() == 0 {
        assert(pushes(cap, lines) =~= lines.subrange(0, 0));
    } else {
        let dl = lines.drop_last();
        lemma_pushes_keep_last(cap, dl);
        let kd: int = if dl.len() <= cap {
            0
        } else {
            dl.len() - cap
        };
        let m = pushes(cap, dl);
        assert(m.len() == dl.len() - kd);
        assert forall|i: int| 0 <= i < n - k implies push_model(m, cap, lines.last())[i]
            == lines.subrange(k, n)[i] by {
            if i < n - k - 1 {
                if m.len() < cap {
                    assert(m[i] == dl[kd + i]);
                } else {
                    assert(m.subrange(1, m.len() as int)[i] == m[i + 1]);
                    assert(m[i + 1] == dl[kd + i + 1]);
                }
                assert(dl[k + i] == lines[k + i]);
            }
        }
        assert(pushes(cap, lines) =~= lines.subrange(k, n));
    }
}

/// Law: a cleared buffer behaves exactly as a freshly constructed one: the
/// next k <= C pushes yield exactly those k lines, oldest first.
pub proof fn lemma_fresh_fill(cap: nat, lines: Seq<Seq<char>>)
    requires
        cap >= 1,
        lines.len() <= cap,
    ensures
        pushes(cap, lines) == lines,
{
    lemma_pushes_keep_last(cap, lines);
    assert(lines.subrange(0, lines.len() as int) =~= lines);
}

} // verus!

