//! The concise-binary-object-representation primitives the payload codec
//! is built from: canonical headers with minimal-length arguments, read
//! and written big-endian.
//!
//! Every piece has a specification-level encoder, a specification-level
//! decoder, an executable pair proved against them, and a lemma that the
//! decoder inverts the encoder.

use vstd::prelude::*;

verus! {

/// Powers of 256: the count of values a big-endian field of `w` bytes holds.
pub open spec fn pow256(w: nat) -> nat
    decreases w,
{
    if w == 0 {
        1
    } else {
        256 * pow256((w - 1) as nat)
    }
}

/// The powers of 256 the headers use.
pub proof fn lemma_pow256_vals()
    ensures
        pow256(0) == 1,
        pow256(1) == 256,
        pow256(2) == 65536,
        pow256(3) == 0x100_0000,
        pow256(4) == 0x1_0000_0000,
        pow256(5) == 0x100_0000_0000,
        pow256(6) == 0x1_0000_0000_0000,
        pow256(7) == 0x100_0000_0000_0000,
        pow256(8) == 0x1_0000_0000_0000_0000,
{
    reveal_with_fuel(pow256, 9);
}

/// Byte `i` of a big-endian encoding holds digit `w - 1 - i` of the number.
pub proof fn lemma_be_bytes_index(n: nat, w: nat)
    ensures
        spec_be_bytes(n, w).len() == w,
        forall|i: int|
            0 <= i < w ==> spec_be_bytes(n, w)[i] == ((n / pow256((w - 1 - i) as nat)) % 256) as u8,
    decreases w,
{
    lemma_be_bytes_len(n, w);
    if w > 0 {
        lemma_be_bytes_index(n / 256, (w - 1) as nat);
        assert forall|i: int| 0 <= i < w implies spec_be_bytes(n, w)[i] == ((n / pow256(
            (w - 1 - i) as nat,
        )) % 256) as u8 by {
            if i < w - 1 {
                assert(spec_be_bytes(n, w)[i] == spec_be_bytes(n / 256, (w - 1) as nat)[i]);
                let k = (w - 2 - i) as nat;
                lemma_pow256_pos(k);
                vstd::arithmetic::div_mod::lemma_div_denominator(n as int, 256, pow256(k) as int);
                assert(pow256((w - 1 - i) as nat) == 256 * pow256(k));
            } else {
                assert(spec_be_bytes(n, w)[i] == (n % 256) as u8);
                assert(pow256((w - 1 - i) as nat) == 1);
                assert(n / 1 == n) by (nonlinear_arith);
            }
        }
    }
}

/// `n` written big-endian over `width` bytes; `n` must fit.
pub open spec fn spec_be_bytes(n: nat, width: nat) -> Seq<u8>
    decreases width,
{
    if width == 0 {
        Seq::empty()
    } else {
        spec_be_bytes(n / 256, (width - 1) as nat).push((n % 256) as u8)
    }
}

/// The number a big-endian byte sequence denotes.
pub open spec fn spec_be_val(s: Seq<u8>) -> nat
    decreases s.len(),
{
    if s.len() == 0 {
        0
    } else {
        spec_be_val(s.drop_last()) * 256 + s.last() as nat
    }
}

/// `spec_be_bytes` has the stated width.
pub proof fn lemma_be_bytes_len(n: nat, width: nat)
    ensures
        spec_be_bytes(n, width).len() == width,
    decreases width,
{
    if width > 0 {
        lemma_be_bytes_len(n / 256, (width - 1) as nat);
    }
}

/// Reading back a big-endian encoding yields the number encoded.
pub proof fn lemma_be_val_of_bytes(n: nat, width: nat)
    requires
        n < pow256(width),
    ensures
        spec_be_val(spec_be_bytes(n, width)) == n,
    decreases width,
{
    if width == 0 {
    } else {
        let s = spec_be_bytes(n, width);
        lemma_be_bytes_len(n, width);
        assert(s.drop_last() =~= spec_be_bytes(n / 256, (width - 1) as nat));
        lemma_pow256_pos((width - 1) as nat);
        assert(n / 256 < pow256((width - 1) as nat)) by (nonlinear_arith)
            requires
                n < 256 * pow256((width - 1) as nat),
                pow256((width - 1) as nat) > 0,
        ;
        lemma_be_val_of_bytes(n / 256, (width - 1) as nat);
        assert(n == (n / 256) * 256 + n % 256) by (nonlinear_arith);
    }
}

/// Powers of 256 are positive.
pub proof fn lemma_pow256_pos(w: nat)
    ensures
        pow256(w) >= 1,
    decreases w,
{
    if w > 0 {
        lemma_pow256_pos((w - 1) as nat);
    }
}

/// A big-endian value of `w` bytes is below `pow256(w)`.
pub proof fn lemma_be_val_bound(s: Seq<u8>)
    ensures
        spec_be_val(s) < pow256(s.len() as nat),
    decreases s.len(),
{
    if s.len() == 0 {
    } else {
        lemma_be_val_bound(s.drop_last());
        assert((spec_be_val(s.drop_last()) * 256 + s.last() as nat) < 256 * pow256(
            (s.len() - 1) as nat,
        )) by (nonlinear_arith)
            requires
                spec_be_val(s.drop_last()) < pow256((s.len() - 1) as nat),
                s.last() < 256,
        ;
    }
}

/// The canonical header of one item: a major type and an argument written
/// in the fewest bytes that hold it.
pub open spec fn spec_header(major: u8, arg: u64) -> Seq<u8>
    recommends
        major < 8,
{
    let base = (major * 32) as u8;
    if arg < 24 {
        seq![(base + arg) as u8]
    } else if arg < 256 {
        seq![(base + 24) as u8] + spec_be_bytes(arg as nat, 1)
    } else if arg < 65536 {
        seq![(base + 25) as u8] + spec_be_bytes(arg as nat, 2)
    } else if arg < 0x1_0000_0000 {
        seq![(base + 26) as u8] + spec_be_bytes(arg as nat, 4)
    } else {
        seq![(base + 27) as u8] + spec_be_bytes(arg as nat, 8)
    }
}

/// A header is between one and nine bytes long.
pub proof fn lemma_header_len(major: u8, arg: u64)
    ensures
        1 <= spec_header(major, arg).len() <= 9,
{
    if arg < 24 {
    } else if arg < 256 {
        lemma_be_bytes_len(arg as nat, 1);
    } else if arg < 65536 {
        lemma_be_bytes_len(arg as nat, 2);
    } else if arg < 0x1_0000_0000 {
        lemma_be_bytes_len(arg as nat, 4);
    } else {
        lemma_be_bytes_len(arg as nat, 8);
    }
}

/// Reads a canonical header at `pos`: the major type, the argument and
/// the position after the header. Reserved or non-minimal forms read as
/// nothing.
pub open spec fn spec_dec_header(b: Seq<u8>, pos: int) -> Option<(u8, u64, int)> {
    if 0 <= pos < b.len() {
        let ib = b[pos];
        let major = ib / 32;
        let add = ib % 32;
        if add < 24 {
            Some((major, add as u64, pos + 1))
        } else if add == 24 {
            if pos + 2 <= b.len() && b[pos + 1] >= 24 {
                Some((major, b[pos + 1] as u64, pos + 2))
            } else {
                None
            }
        } else if add == 25 {
            if pos + 3 <= b.len() && spec_be_val(b.subrange(pos + 1, pos + 3)) >= 256 {
                Some((major, spec_be_val(b.subrange(pos + 1, pos + 3)) as u64, pos + 3))
            } else {
                None
            }
        } else if add == 26 {
            if pos + 5 <= b.len() && spec_be_val(b.subrange(pos + 1, pos + 5)) >= 65536 {
                Some((major, spec_be_val(b.subrange(pos + 1, pos + 5)) as u64, pos + 5))
            } else {
                None
            }
        } else if add == 27 {
            if pos + 9 <= b.len() && spec_be_val(b.subrange(pos + 1, pos + 9)) >= 0x1_0000_0000 {
                Some((major, spec_be_val(b.subrange(pos + 1, pos + 9)) as u64, pos + 9))
            } else {
                None
            }
        } else {
            None
        }
    } else {
        None
    }
}

/// Decoding a canonical header after any prefix yields what was encoded.
pub proof fn lemma_header_round_trip(b: Seq<u8>, pos: int, major: u8, arg: u64)
    requires
        major < 8,
        0 <= pos,
        pos + spec_header(major, arg).len() <= b.len(),
        b.subrange(pos, pos + spec_header(major, arg).len() as int) == spec_header(major, arg),
    ensures
        spec_dec_header(b, pos) == Some((major, arg, pos + spec_header(major, arg).len() as int)),
{
    let h = spec_header(major, arg);
    let base = (major * 32) as u8;
    lemma_header_len(major, arg);
    assert(b[pos] == b.subrange(pos, pos + h.len() as int)[0]);
    if arg < 24 {
        assert(b[pos] == (base + arg) as u8);
        assert(b[pos] / 32 == major && b[pos] % 32 == arg as u8);
    } else {
        let width: nat = if arg < 256 {
            1
        } else if arg < 65536 {
            2
        } else if arg < 0x1_0000_0000 {
            4
        } else {
            8
        };
        let add: u8 = if arg < 256 {
            24
        } else if arg < 65536 {
            25
        } else if arg < 0x1_0000_0000 {
            26
        } else {
            27
        };
        lemma_be_bytes_len(arg as nat, width);
        assert(h.len() == 1 + width);
        assert(b[pos] == (base + add) as u8);
        assert(b[pos] / 32 == major && b[pos] % 32 == add);
        assert(b.subrange(pos + 1, pos + 1 + width as int) =~= b.subrange(
            pos,
            pos + h.len() as int,
        ).subrange(1, 1 + width as int));
        assert(h.subrange(1, 1 + width as int) =~= spec_be_bytes(arg as nat, width));
        assert(b.subrange(pos + 1, pos + 1 + width as int) == spec_be_bytes(arg as nat, width));
        lemma_pow256_vals();
        lemma_be_val_of_bytes(arg as nat, width);
        if width == 1 {
            reveal_with_fuel(spec_be_bytes, 2);
            assert(b[pos + 1] == (arg as nat % 256) as u8);
            assert(b[pos + 1] >= 24);
        }
    }
}

/// Writes a canonical header into `out`.
pub fn push_header(out: &mut Vec<u8>, major: u8, arg: u64)
    requires
        major < 8,
    ensures
        final(out)@ == old(out)@ + spec_header(major, arg),
{
    let ghost pre = out@;
    let base: u8 = major * 32;
    if arg < 24 {
        out.push(base + arg as u8);
    } else if arg < 256 {
        out.push(base + 24);
        out.push(arg as u8);
    } else if arg < 65536 {
        out.push(base + 25);
        out.push((arg / 256) as u8);
        out.push((arg % 256) as u8);
    } else if arg < 0x1_0000_0000 {
        out.push(base + 26);
        out.push((arg / 0x100_0000) as u8);
        out.push(((arg / 0x1_0000) % 256) as u8);
        out.push(((arg / 256) % 256) as u8);
        out.push((arg % 256) as u8);
    } else {
        out.push(base + 27);
        out.push((arg / 0x100_0000_0000_0000) as u8);
        out.push(((arg / 0x1_0000_0000_0000) % 256) as u8);
        out.push(((arg / 0x100_0000_0000) % 256) as u8);
        out.push(((arg / 0x1_0000_0000) % 256) as u8);
        out.push(((arg / 0x100_0000) % 256) as u8);
        out.push(((arg / 0x1_0000) % 256) as u8);
        out.push(((arg / 256) % 256) as u8);
        out.push((arg % 256) as u8);
    }
    proof {
        lemma_pow256_vals();
        lemma_be_bytes_index(arg as nat, 1);
        lemma_be_bytes_index(arg as nat, 2);
        lemma_be_bytes_index(arg as nat, 4);
        lemma_be_bytes_index(arg as nat, 8);
        lemma_header_len(major, arg);
        assert(out@ =~= pre + spec_header(major, arg));
    }
}

/// Reads a canonical header, returning the major type, the argument and
/// the position after it.
pub fn read_header(b: &[u8], pos: usize) -> (r: Option<(u8, u64, usize)>)
    ensures
        match r {
            Some((major, arg, newpos)) => spec_dec_header(b@, pos as int) == Some(
                (major, arg, newpos as int),
            ) && pos < newpos <= b@.len() && major < 8,
            None => spec_dec_header(b@, pos as int) is None,
        },
{
    if pos >= b.len() {
        return None;
    }
    let ib = *vstd::slice::slice_index_get(b, pos);
    let major = ib / 32;
    let add = ib % 32;
    if add < 24 {
        Some((major, add as u64, pos + 1))
    } else if add == 24 {
        if b.len() >= 2 && pos <= b.len() - 2 {
            let v = *vstd::slice::slice_index_get(b, pos + 1);
            if v >= 24 {
                Some((major, v as u64, pos + 2))
            } else {
                None
            }
        } else {
            None
        }
    } else if add == 25 {
        if b.len() >= 3 && pos <= b.len() - 3 {
            let v = read_be(b, pos + 1, 2);
            if v >= 256 {
                Some((major, v, pos + 3))
            } else {
                None
            }
        } else {
            None
        }
    } else if add == 26 {
        if b.len() >= 5 && pos <= b.len() - 5 {
            let v = read_be(b, pos + 1, 4);
            if v >= 65536 {
                Some((major, v, pos + 5))
            } else {
                None
            }
        } else {
            None
        }
    } else if add == 27 {
        if b.len() >= 9 && pos <= b.len() - 9 {
            let v = read_be(b, pos + 1, 8);
            if v >= 0x1_0000_0000 {
                Some((major, v, pos + 9))
            } else {
                None
            }
        } else {
            None
        }
    } else {
        None
    }
}

/// Reads `width` big-endian bytes at `pos` into a 64-bit value.
fn read_be(b: &[u8], pos: usize, width: usize) -> (r: u64)
    requires
        width <= 8,
        pos + width <= b@.len(),
        b@.len() <= usize::MAX,
    ensures
        r == spec_be_val(b@.subrange(pos as int, pos + width)),
{
    let mut acc: u64 = 0;
    let mut i: usize = 0;
    proof {
        assert(b@.subrange(pos as int, pos as int) =~= Seq::empty());
        lemma_pow256_vals();
    }
    while i < width
        invariant
            i <= width,
            width <= 8,
            pos + width <= b@.len(),
            b@.len() <= usize::MAX,
            acc == spec_be_val(b@.subrange(pos as int, pos + i)),
            acc < pow256(i as nat),
        decreases width - i,
    {
        proof {
            lemma_pow256_vals();
            lemma_pow256_mono(i as nat, 7);
        }
        let byte = *vstd::slice::slice_index_get(b, pos + i);
        proof {
            assert(acc < 0x100_0000_0000_0000);
            assert(acc * 256 <= 0xFFFF_FFFF_FFFF_FF00) by (nonlinear_arith)
                requires
                    acc < 0x100_0000_0000_0000,
            ;
        }
        let acc2 = acc * 256 + byte as u64;
        proof {
            let s2 = b@.subrange(pos as int, pos + i + 1);
            assert(s2.drop_last() =~= b@.subrange(pos as int, pos + i));
            assert(s2.last() == byte);
            assert(acc * 256 + byte < 256 * pow256(i as nat)) by (nonlinear_arith)
                requires
                    acc < pow256(i as nat),
                    byte < 256,
            ;
        }
        acc = acc2;
        i = i + 1;
    }
    acc
}

/// Powers of 256 grow with the exponent.
pub proof fn lemma_pow256_mono(a: nat, b: nat)
    requires
        a <= b,
    ensures
        pow256(a) <= pow256(b),
    decreases b,
{
    if a < b {
        lemma_pow256_pos((b - 1) as nat);
        lemma_pow256_mono(a, (b - 1) as nat);
    }
}

} // verus!
