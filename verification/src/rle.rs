//! The compression scheme of the capability: byte-oriented run-length coding.
//!
//! An encoding is a sequence of (count, value) byte pairs, each standing for
//! `count` repetitions of `value`, with counts in `1..=255`. These spec
//! functions define the scheme; the proofs below establish that decoding
//! inverts encoding and that an encoding is at most twice as long as its input.

use vstd::prelude::*;

verus! {

/// Length of the longest prefix of `s` whose bytes all equal `s[0]`.
pub open spec fn run_len(s: Seq<u8>) -> nat
    decreases s.len(),
{
    if s.len() == 0 {
        0
    } else if s.len() == 1 || s[1] != s[0] {
        1
    } else {
        1 + run_len(s.skip(1))
    }
}

/// The leading run, capped at 255 so that its length fits in a count byte.
pub open spec fn capped_run(s: Seq<u8>) -> nat {
    if run_len(s) > 255 {
        255
    } else {
        run_len(s)
    }
}

/// On a non-empty sequence the leading run is non-empty, no longer than the
/// sequence, filled with copies of the first byte, and maximal.
pub proof fn lemma_run_len_bounds(s: Seq<u8>)
    requires
        s.len() > 0,
    ensures
        1 <= run_len(s) <= s.len(),
        forall|k: int| 0 <= k < run_len(s) ==> #[trigger] s[k] == s[0],
        run_len(s) < s.len() ==> s[run_len(s) as int] != s[0],
    decreases s.len(),
{
    if s.len() == 1 || s[1] != s[0] {
    } else {
        lemma_run_len_bounds(s.skip(1));
        assert forall|k: int| 0 <= k < run_len(s) implies #[trigger] s[k] == s[0] by {
            if k >= 1 {
                assert(s.skip(1)[k - 1] == s[k]);
            }
        }
        if run_len(s) < s.len() {
            assert(s.skip(1)[run_len(s) as int - 1] == s[run_len(s) as int]);
        }
    }
}

/// The run-length encoding of `s`: one (count, value) pair per capped run.
pub open spec fn rle_encode(s: Seq<u8>) -> Seq<u8>
    decreases s.len(),
{
    if s.len() == 0 {
        Seq::empty()
    } else {
        proof {
            lemma_run_len_bounds(s);
        }
        seq![capped_run(s) as u8, s[0]] + rle_encode(s.skip(capped_run(s) as int))
    }
}

/// The bytes an encoding stands for, or `None` where `s` is not a well-formed
/// encoding (odd length, or a zero count byte).
pub open spec fn rle_decode(s: Seq<u8>) -> Option<Seq<u8>>
    decreases s.len(),
{
    if s.len() == 0 {
        Some(Seq::empty())
    } else if s.len() == 1 || s[0] == 0 {
        None
    } else {
        match rle_decode(s.skip(2)) {
            Some(rest) => Some(Seq::new(s[0] as nat, |i: int| s[1]) + rest),
            None => None,
        }
    }
}

/// Decoding inverts encoding: every byte sequence comes back unchanged from a
/// round trip through the scheme.
pub proof fn lemma_rle_round_trip(d: Seq<u8>)
    ensures
        rle_decode(rle_encode(d)) == Some(d),
    decreases d.len(),
{
    if d.len() == 0 {
        assert(rle_encode(d) =~= Seq::<u8>::empty());
        assert(Seq::<u8>::empty() =~= d);
    } else {
        lemma_run_len_bounds(d);
        let c = capped_run(d) as int;
        let e = rle_encode(d);
        lemma_rle_round_trip(d.skip(c));
        assert(e.skip(2) =~= rle_encode(d.skip(c)));
        assert(e[0] == c as u8 && e[1] == d[0]);
        assert(Seq::new((c as u8) as nat, |i: int| e[1]) =~= d.take(c));
        assert(d.take(c) + d.skip(c) =~= d);
    }
}

/// An encoding spends at most one (count, value) pair per input byte.
pub proof fn lemma_rle_encode_len(d: Seq<u8>)
    ensures
        rle_encode(d).len() <= 2 * d.len(),
    decreases d.len(),
{
    if d.len() == 0 {
    } else {
        lemma_run_len_bounds(d);
        lemma_rle_encode_len(d.skip(capped_run(d) as int));
    }
}

} // verus!
