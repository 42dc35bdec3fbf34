//! The compression capability: the pack/unpack/release entry points that the
//! codec boundary drives, together with their allocation bookkeeping.
//!
//! `pack` hands out a buffer the capability allocates; the holder owns it and
//! must hand it back to `release` exactly once. The counters on [`Capability`]
//! record every allocation, release and unpack invocation, so a caller can
//! audit that no buffer leaks and none is released twice.

use crate::rle::{capped_run, lemma_run_len_bounds, rle_decode, rle_encode, run_len};
use vstd::prelude::*;
use vstd::slice::slice_index_get;

verus! {

/// A buffer allocated by the capability for `pack`. It cannot be copied or
/// cloned; whoever holds it must hand it back to [`Capability::release`]
/// exactly once, after copying out whatever it needs.
pub struct CapBuffer {
    bytes: Vec<u8>,
}

impl View for CapBuffer {
    type V = Seq<u8>;

    closed spec fn view(&self) -> Seq<u8> {
        self.bytes@
    }
}

impl CapBuffer {
    /// The length the capability reported for this buffer.
    pub fn len(&self) -> (n: usize)
        ensures
            n == self@.len(),
    {
        self.bytes.len()
    }

    /// Copies the buffer's contents, byte for byte, into an owned buffer of
    /// the caller's. The capability's buffer itself is left untouched.
    pub fn copy_out(&self) -> (v: Vec<u8>)
        ensures
            v@ == self@,
    {
        let mut v: Vec<u8> = Vec::new();
        let mut i: usize = 0;
        while i < self.bytes.len()
            invariant
                i <= self.bytes@.len(),
                v@ == self.bytes@.take(i as int),
            decreases self.bytes@.len() - i,
        {
            v.push(self.bytes[i]);
            assert(v@ =~= self.bytes@.take(i + 1));
            i = i + 1;
        }
        assert(v@ =~= self.bytes@);
        v
    }
}

/// The compression capability, with its allocation bookkeeping: `allocs`
/// counts the buffers `pack` has allocated, `releases` the buffers handed back
/// to `release`, and `unpack_calls` the `unpack` invocations.
pub struct Capability {
    pub allocs: u64,
    pub releases: u64,
    pub unpack_calls: u64,
}

impl Capability {
    /// The bookkeeping is well formed: no more buffers have been released
    /// than were ever allocated.
    pub open spec fn wf(self) -> bool {
        self.releases <= self.allocs
    }

    /// A fresh capability with empty bookkeeping.
    pub fn new() -> (cap: Capability)
        ensures
            cap.allocs == 0,
            cap.releases == 0,
            cap.unpack_calls == 0,
            cap.wf(),
    {
        Capability { allocs: 0, releases: 0, unpack_calls: 0 }
    }

    /// Compresses `src` into a buffer the capability allocates. The result is
    /// owned by the caller, who must hand it back to `release` exactly once.
    /// There is no failure signal.
    pub fn pack(&mut self, src: &[u8]) -> (buf: CapBuffer)
        requires
            src@.len() < 0x1_0000_0000,
            old(self).wf(),
            old(self).allocs < u64::MAX,
        ensures
            final(self).allocs == old(self).allocs + 1,
            final(self).releases == old(self).releases,
            final(self).unpack_calls == old(self).unpack_calls,
            final(self).wf(),
            buf@ == rle_encode(src@),
    {
        let n = src.len();
        let mut out: Vec<u8> = Vec::new();
        let mut i: usize = 0;
        proof {
            assert(src@.skip(0) =~= src@);
            assert(out@ + rle_encode(src@) =~= rle_encode(src@));
        }
        while i < n
            invariant
                i <= n,
                n == src@.len(),
                rle_encode(src@) == out@ + rle_encode(src@.skip(i as int)),
            decreases n - i,
        {
            let b = *slice_index_get(src, i);
            let mut j: usize = i + 1;
            while j < n && j - i < 255 && *slice_index_get(src, j) == b
                invariant
                    n == src@.len(),
                    i < j <= n,
                    j - i <= 255,
                    b == src@[i as int],
                    forall|k: int| i <= k < j ==> src@[k] == b,
                decreases n - j,
            {
                j = j + 1;
            }
            proof {
                let ii = i as int;
                let jj = j as int;
                let sub = src@.skip(ii);
                lemma_run_len_bounds(sub);
                let rl = run_len(sub) as int;
                assert forall|m: int| 0 <= m < jj - ii implies sub[m] == b by {
                    assert(src@[ii + m] == b);
                }
                assert(sub[0] == b);
                if rl < jj - ii {
                    assert(sub[rl] == b);
                    assert(false);
                }
                if j < n && j - i < 255 {
                    // the inner loop stopped on a byte that breaks the run
                    assert(src@[jj] != b);
                    if rl > jj - ii {
                        assert(sub[jj - ii] == sub[0]);
                        assert(sub[jj - ii] == src@[jj]);
                        assert(false);
                    }
                }
                assert(capped_run(sub) == jj - ii);
                assert(sub.skip(jj - ii) =~= src@.skip(jj));
                assert(rle_encode(sub) == seq![(jj - ii) as u8, b] + rle_encode(src@.skip(jj)));
            }
            out.push((j - i) as u8);
            out.push(b);
            proof {
                assert(out@ + rle_encode(src@.skip(j as int)) =~= rle_encode(src@));
            }
            i = j;
        }
        proof {
            assert(src@.skip(n as int) =~= Seq::<u8>::empty());
            assert(rle_encode(src@) =~= out@);
        }
        self.allocs = self.allocs + 1;
        CapBuffer { bytes: out }
    }

    /// Releases a buffer that `pack` allocated. Consumes the buffer: it can
    /// be released only once, and only a buffer of this capability's making
    /// can be handed in (there can be no more releases than allocations).
    pub fn release(&mut self, buf: CapBuffer)
        requires
            old(self).wf(),
            old(self).releases < old(self).allocs,
        ensures
            final(self).allocs == old(self).allocs,
            final(self).releases == old(self).releases + 1,
            final(self).unpack_calls == old(self).unpack_calls,
            final(self).wf(),
    {
        let CapBuffer { bytes: _ } = buf;
        self.releases = self.releases + 1;
    }

    /// Decompresses `src` into the prefix of `dest`, whose length the caller
    /// has set to the capacity it can accept. Returns a status code and the
    /// number of bytes produced: status 0 means success, and then the first
    /// `r.1` bytes of `dest` hold the decompressed data and the rest of
    /// `dest` is untouched. A non-zero status reports a malformed input (1)
    /// or output that does not fit `dest` (2); the contents of `dest` are
    /// then not meaningful, though its length is unchanged. The capability
    /// allocates and releases nothing here.
    pub fn unpack(&mut self, src: &[u8], dest: &mut Vec<u8>) -> (r: (i32, usize))
        requires
            src@.len() < 0x1_0000_0000,
            old(dest)@.len() < 0x1_0000_0000,
            old(self).wf(),
            old(self).unpack_calls < u64::MAX,
        ensures
            final(self).allocs == old(self).allocs,
            final(self).releases == old(self).releases,
            final(self).unpack_calls == old(self).unpack_calls + 1,
            final(self).wf(),
            final(dest)@.len() == old(dest)@.len(),
            (r.0 == 0) <==> (rle_decode(src@) matches Some(d) && d.len() <= old(dest)@.len()),
            r.0 == 0 ==> (rle_decode(src@) matches Some(d) && r.1 == d.len() && final(dest)@ == d
                + old(dest)@.skip(d.len() as int)),
            r.0 != 0 ==> (r.0 == 1 || r.0 == 2) && r.1 == 0,
            (rle_decode(src@) matches Some(d) && d.len() > old(dest)@.len()) ==> r.0 == 2,
    {
        self.unpack_calls = self.unpack_calls + 1;
        let ghost dest0 = dest@;
        let n = src.len();
        let cap = dest.len();
        let mut j: usize = 0;
        let mut w: usize = 0;
        proof {
            assert(src@.skip(0) =~= src@);
            if rle_decode(src@) is Some {
                assert(dest@.take(0) + rle_decode(src@).unwrap() =~= rle_decode(src@).unwrap());
            }
        }
        while j < n
            invariant
                self.allocs == old(self).allocs,
                self.releases == old(self).releases,
                self.unpack_calls == old(self).unpack_calls + 1,
                self.wf(),
                dest0 == old(dest)@,
                n == src@.len(),
                n < 0x1_0000_0000,
                cap == dest0.len(),
                cap < 0x1_0000_0000,
                dest@.len() == cap,
                j <= n,
                w <= cap,
                forall|m: int| w <= m < cap ==> dest@[m] == dest0[m],
                (match rle_decode(src@.skip(j as int)) {
                    Some(rest) => rle_decode(src@) == Some(dest@.take(w as int) + rest),
                    None => rle_decode(src@) is None,
                }),
            decreases n - j,
        {
            let ghost jj = j as int;
            let ghost tail = src@.skip(jj);
            if j + 1 == n {
                proof {
                    assert(tail.len() == 1);
                    assert(rle_decode(tail) is None);
                }
                return (1, 0);
            }
            let cnt = *slice_index_get(src, j);
            if cnt == 0 {
                proof {
                    assert(tail[0] == 0);
                    assert(rle_decode(tail) is None);
                }
                return (1, 0);
            }
            let b = *slice_index_get(src, j + 1);
            proof {
                assert(tail.len() >= 2);
                assert(tail[0] == cnt && tail[1] == b);
                assert(tail.skip(2) =~= src@.skip(jj + 2));
            }
            if cnt as usize > cap - w {
                proof {
                    if rle_decode(src@) is Some {
                        let full = rle_decode(src@).unwrap();
                        let rest = rle_decode(tail).unwrap();
                        assert(rest.len() >= cnt);
                        assert(full.len() > cap);
                    }
                }
                return (2, 0);
            }
            let ghost pre = dest@;
            let mut t: usize = 0;
            while t < cnt as usize
                invariant
                    t <= cnt as usize,
                    w + cnt as usize <= cap,
                    pre.len() == cap,
                    dest@.len() == cap,
                    dest@.take(w as int) == pre.take(w as int),
                    forall|m: int| w <= m < w + t ==> dest@[m] == b,
                    forall|m: int| w + t <= m < cap ==> dest@[m] == pre[m],
                decreases cnt as usize - t,
            {
                dest[w + t] = b;
                proof {
                    assert(dest@.take(w as int) =~= pre.take(w as int));
                }
                t = t + 1;
            }
            proof {
                let rest = rle_decode(tail);
                if rest is Some {
                    assert(rle_decode(tail).unwrap() == Seq::new(cnt as nat, |q: int| b)
                        + rle_decode(src@.skip(jj + 2)).unwrap());
                    assert(dest@.take(w + cnt as int) =~= pre.take(w as int)
                        + Seq::new(cnt as nat, |q: int| b));
                    assert(dest@.take(w as int) + rle_decode(tail).unwrap() =~= dest@.take(
                        w + cnt as int,
                    ) + rle_decode(src@.skip(jj + 2)).unwrap());
                } else {
                    assert(rle_decode(src@.skip(jj + 2)) is None);
                }
                assert forall|m: int| w + cnt <= m < cap implies dest@[m] == dest0[m] by {
                    assert(dest@[m] == pre[m]);
                }
            }
            w = w + cnt as usize;
            j = j + 2;
        }
        proof {
            assert(src@.skip(n as int) =~= Seq::<u8>::empty());
            assert(rle_decode(src@) == Some(dest@.take(w as int)));
            assert(dest@.take(w as int) + dest0.skip(w as int) =~= dest@);
        }
        (0, w)
    }
}

} // verus!
