//! The result a session reports at its end, and the text helpers that build it.

use vstd::prelude::*;

verus! {

#[derive(Clone, Debug)]
pub struct Outcome {
    pub success: bool,
    pub headline: String,
    pub details: Vec<String>,
    pub rescued: usize,
    pub total: usize,
}

/// The character sequences of a list of strings.
pub open spec fn texts(v: Seq<String>) -> Seq<Seq<char>> {
    v.map_values(|s: String| s@)
}

/// `parts` joined with `sep` between neighbours.
pub open spec fn joined(parts: Seq<Seq<char>>, sep: Seq<char>) -> Seq<char>
    decreases parts.len(),
{
    if parts.len() == 0 {
        Seq::empty()
    } else if parts.len() == 1 {
        parts[0]
    } else {
        joined(parts.drop_last(), sep) + sep + parts.last()
    }
}

/// `parts` joined with `sep`, as `parts.join(sep)` writes it.
pub fn join(parts: &Vec<String>, sep: &str) -> (r: String)
    ensures
        r@ == joined(texts(parts@), sep@),
{
    let mut out = String::new();
    let mut k: usize = 0;
    while k < parts.len()
        invariant
            k <= parts@.len(),
            out@ == joined(texts(parts@.subrange(0, k as int)), sep@),
        decreases parts@.len() - k,
    {
        let ghost prev = texts(parts@.subrange(0, k as int));
        let ghost next = texts(parts@.subrange(0, k + 1));
        proof {
            assert(next.drop_last() =~= prev);
            assert(next.last() == parts@[k as int]@);
        }
        if k > 0 {
            out.append(sep);
        }
        out.append(parts[k].as_str());
        proof {
            if k == 0 {
                assert(next.len() == 1);
                assert(out@ =~= next[0]);
            } else {
                assert(out@ =~= joined(prev, sep@) + sep@ + next.last());
            }
        }
        k += 1;
    }
    proof {
        assert(parts@.subrange(0, k as int) =~= parts@);
    }
    out
}

} // verus!
