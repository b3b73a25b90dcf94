//! Text handling of the dispatch worker: every accepted notification is
//! prefixed with a run-identifying tag before delivery, and delivery order
//! equals acceptance order because a single worker drains the queue.

use vstd::prelude::*;

verus! {

/// A delivered text: the run tag in backquotes, a colon, then the accepted
/// text unchanged.
pub open spec fn tagged(tag: Seq<char>, text: Seq<char>) -> Seq<char> {
    "`"@ + tag + "`: "@ + text
}

/// Prefix one accepted text with the run-identifying tag.
pub fn tag_message(tag: &str, text: &str) -> (r: String)
    ensures
        r@ == tagged(tag@, text@),
{
    let mut s = String::new();
    s.append("`");
    s.append(tag);
    s.append("`: ");
    s.append(text);
    proof {
        assert(s@ =~= tagged(tag@, text@));
    }
    s
}

/// The decimal digit `d` as a one-character string view.
pub open spec fn dec_digit(d: nat) -> Seq<char> {
    if d == 0 {
        "0"@
    } else if d == 1 {
        "1"@
    } else if d == 2 {
        "2"@
    } else if d == 3 {
        "3"@
    } else if d == 4 {
        "4"@
    } else if d == 5 {
        "5"@
    } else if d == 6 {
        "6"@
    } else if d == 7 {
        "7"@
    } else if d == 8 {
        "8"@
    } else {
        "9"@
    }
}

/// The decimal rendering of `n`, most significant digit first, with no
/// leading zero except for zero itself.
pub open spec fn dec_rep(n: nat) -> Seq<char>
    decreases n,
{
    if n < 10 {
        dec_digit(n)
    } else {
        dec_rep(n / 10) + dec_digit(n % 10)
    }
}

/// Render a run identifier, such as a process id, in decimal.
pub fn u32_dec(n: u32) -> (r: String)
    ensures
        r@ == dec_rep(n as nat),
    decreases n,
{
    let d = n % 10;
    let c: &str = if d == 0 {
        "0"
    } else if d == 1 {
        "1"
    } else if d == 2 {
        "2"
    } else if d == 3 {
        "3"
    } else if d == 4 {
        "4"
    } else if d == 5 {
        "5"
    } else if d == 6 {
        "6"
    } else if d == 7 {
        "7"
    } else if d == 8 {
        "8"
    } else {
        "9"
    };
    if n < 10 {
        let mut s = String::new();
        s.append(c);
        proof {
            assert(s@ =~= dec_rep(n as nat));
        }
        s
    } else {
        proof {
            assert(n / 10 < n) by (nonlinear_arith)
                requires
                    n >= 10,
            ;
        }
        let mut s = u32_dec(n / 10);
        s.append(c);
        s
    }
}

/// The dispatch worker's whole run over the texts it accepted, in acceptance
/// order: each is delivered tagged, and the delivery order equals the
/// submission order, element for element.
pub fn tag_all(tag: &str, texts: &Vec<String>) -> (r: Vec<String>)
    ensures
        r@.len() == texts@.len(),
        forall|i: int| 0 <= i < texts@.len() ==> r@[i]@ == tagged(tag@, texts@[i]@),
{
    let mut r: Vec<String> = Vec::new();
    let mut i: usize = 0;
    while i < texts.len()
        invariant
            i <= texts@.len(),
            r@.len() == i,
            forall|j: int| 0 <= j < i ==> r@[j]@ == tagged(tag@, texts@[j]@),
        decreases texts@.len() - i,
    {
        r.push(tag_message(tag, texts[i].as_str()));
        i = i + 1;
    }
    r
}

} // verus!
