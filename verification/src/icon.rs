//! Turning a drawn 32-bit icon bitmap into the RGBA pixels the windows use.
//! Drawing the icon is done by the application.

use vstd::prelude::*;

verus! {

/// The pixel `p` of `b`, four bytes each, has no colour at all.
pub open spec fn black(b: Seq<u8>, p: int) -> bool {
    b[4 * p] == 0 && b[4 * p + 1] == 0 && b[4 * p + 2] == 0
}

/// Every pixel of `b` is fully transparent.
pub open spec fn all_transparent(b: Seq<u8>) -> bool {
    forall|p: int| 0 <= p < b.len() / 4 ==> #[trigger] b[4 * p + 3] == 0
}

/// `r` is the RGBA form of the BGRA pixels `b`: red and blue change places.
/// Icons in the old format carry no alpha: when every pixel is transparent,
/// every pixel with some colour is made opaque.
pub open spec fn rgba_of(b: Seq<u8>, r: Seq<u8>) -> bool {
    &&& r.len() == b.len()
    &&& forall|p: int|
        0 <= p < b.len() / 4 ==> {
            &&& #[trigger] r[4 * p] == b[4 * p + 2]
            &&& r[4 * p + 1] == b[4 * p + 1]
            &&& r[4 * p + 2] == b[4 * p]
            &&& r[4 * p + 3] == if all_transparent(b) && !black(b, p) {
                255u8
            } else {
                b[4 * p + 3]
            }
        }
}

/// The first `q` of the `n` pixels of `out` are the RGBA form of `b`, with
/// colored pixels among the first `done` made opaque.
pub open spec fn converted(out: Seq<u8>, b: Seq<u8>, n: int, done: int) -> bool {
    forall|k: int| 0 <= k < n ==> #[trigger] pixel_ok(out, b, k, done)
}

/// Pixel `k` of `out` is the RGBA form of pixel `k` of `b`, made opaque
/// when it has some colour and `k < done`.
pub open spec fn pixel_ok(out: Seq<u8>, b: Seq<u8>, k: int, done: int) -> bool {
    &&& out[4 * k] == b[4 * k + 2]
    &&& out[4 * k + 1] == b[4 * k + 1]
    &&& out[4 * k + 2] == b[4 * k]
    &&& out[4 * k + 3] == alpha_after(b, k, done)
}

/// The alpha of pixel `k` once the first `done` pixels were fixed.
pub open spec fn alpha_after(b: Seq<u8>, k: int, done: int) -> u8 {
    if k < done && !black(b, k) {
        255u8
    } else {
        b[4 * k + 3]
    }
}

/// Converts BGRA pixels to RGBA.
pub fn bgra_to_rgba(bgra: &Vec<u8>) -> (rgba: Vec<u8>)
    requires
        bgra.len() % 4 == 0,
    ensures
        rgba_of(bgra@, rgba@),
{
    let n = bgra.len() / 4;
    let mut out: Vec<u8> = Vec::new();
    let mut transparent = true;
    let mut p: usize = 0;
    while p < n
        invariant
            n == bgra.len() / 4,
            bgra.len() % 4 == 0,
            p <= n,
            out.len() == 4 * p,
            transparent == forall|q: int| 0 <= q < p ==> #[trigger] bgra@[4 * q + 3] == 0,
            forall|q: int|
                0 <= q < p ==> {
                    &&& #[trigger] out@[4 * q] == bgra@[4 * q + 2]
                    &&& out@[4 * q + 1] == bgra@[4 * q + 1]
                    &&& out@[4 * q + 2] == bgra@[4 * q]
                    &&& out@[4 * q + 3] == bgra@[4 * q + 3]
                },
        decreases n - p,
    {
        let i = 4 * p;
        let ghost before = out@;
        out.push(bgra[i + 2]);
        out.push(bgra[i + 1]);
        out.push(bgra[i]);
        out.push(bgra[i + 3]);
        if bgra[i + 3] != 0 {
            transparent = false;
        }
        proof {
            assert(out@ == before.push(bgra@[i + 2]).push(bgra@[i + 1]).push(bgra@[i as int]).push(bgra@[i + 3]));
            assert forall|q: int| 0 <= q < p + 1 implies {
                &&& #[trigger] out@[4 * q] == bgra@[4 * q + 2]
                &&& out@[4 * q + 1] == bgra@[4 * q + 1]
                &&& out@[4 * q + 2] == bgra@[4 * q]
                &&& out@[4 * q + 3] == bgra@[4 * q + 3]
            } by {
                if q < p {
                    assert(out@[4 * q] == before[4 * q]);
                    assert(out@[4 * q + 1] == before[4 * q + 1]);
                    assert(out@[4 * q + 2] == before[4 * q + 2]);
                    assert(out@[4 * q + 3] == before[4 * q + 3]);
                }
            }
            assert(transparent == forall|k: int| 0 <= k < p + 1 ==> #[trigger] bgra@[4 * k + 3] == 0) by {
                if !transparent {
                    if bgra@[i + 3] != 0 {
                        assert(bgra@[4 * p + 3] != 0);
                    }
                }
            }
        }
        p += 1;
    }
    if !transparent {
        proof {
            assert(!all_transparent(bgra@));
            assert forall|k: int| 0 <= k < bgra@.len() / 4 implies {
                &&& #[trigger] out@[4 * k] == bgra@[4 * k + 2]
                &&& out@[4 * k + 1] == bgra@[4 * k + 1]
                &&& out@[4 * k + 2] == bgra@[4 * k]
                &&& out@[4 * k + 3] == if all_transparent(bgra@) && !black(bgra@, k) {
                    255u8
                } else {
                    bgra@[4 * k + 3]
                }
            } by {
                assert(out@[4 * k] == bgra@[4 * k + 2]);
            }
        }
        return out;
    }
    let mut q: usize = 0;
    proof {
        assert(all_transparent(bgra@));
        assert forall|k: int| 0 <= k < n implies #[trigger] pixel_ok(out@, bgra@, k, 0) by {
            assert(out@[4 * k] == bgra@[4 * k + 2]);
        }
        assert(converted(out@, bgra@, n as int, 0));
    }
    while q < n
        invariant
            n == bgra.len() / 4,
            bgra.len() % 4 == 0,
            q <= n,
            out.len() == 4 * n,
            all_transparent(bgra@),
            converted(out@, bgra@, n as int, q as int),
        decreases n - q,
    {
        let i = 4 * q;
        let ghost before = out@;
        proof {
            assert(pixel_ok(out@, bgra@, q as int, q as int));
        }
        let colored = out[i] != 0 || out[i + 1] != 0 || out[i + 2] != 0;
        assert(colored == !black(bgra@, q as int));
        if colored {
            out.set(i + 3, 255u8);
        }
        proof {
            assert forall|k: int| 0 <= k < n implies #[trigger] pixel_ok(out@, bgra@, k, q + 1) by {
                assert(pixel_ok(before, bgra@, k, q as int));
                if k == q {
                    assert(out@[4 * k + 3] == if colored { 255u8 } else { bgra@[4 * k + 3] });
                } else {
                    assert(out@[4 * k] == before[4 * k]);
                    assert(out@[4 * k + 1] == before[4 * k + 1]);
                    assert(out@[4 * k + 2] == before[4 * k + 2]);
                    assert(out@[4 * k + 3] == before[4 * k + 3]);
                }
            }
        }
        proof {
            assert(converted(out@, bgra@, n as int, q + 1));
        }
        q += 1;
    }
    proof {
        assert forall|k: int| 0 <= k < bgra@.len() / 4 implies {
            &&& #[trigger] out@[4 * k] == bgra@[4 * k + 2]
            &&& out@[4 * k + 1] == bgra@[4 * k + 1]
            &&& out@[4 * k + 2] == bgra@[4 * k]
            &&& out@[4 * k + 3] == if all_transparent(bgra@) && !black(bgra@, k) {
                255u8
            } else {
                bgra@[4 * k + 3]
            }
        } by {
            assert(pixel_ok(out@, bgra@, k, n as int));
        }
    }
    out
}

} // verus!
