//! The byte form of a rendered image: its width and height, then its pixels.
use vstd::prelude::*;

verus! {

/// The last `n` base-256 digits of `v`, most significant first.
pub open spec fn be_bytes(v: nat, n: nat) -> Seq<u8>
    decreases n,
{
    if n == 0 {
        Seq::empty()
    } else {
        be_bytes(v / 256, (n - 1) as nat).push((v % 256) as u8)
    }
}

/// The number that bytes write in base 256, most significant first.
pub open spec fn be_value(b: Seq<u8>) -> nat
    decreases b.len(),
{
    if b.len() == 0 {
        0
    } else {
        be_value(b.drop_last()) * 256 + b.last() as nat
    }
}

pub open spec fn pow256(n: nat) -> nat
    decreases n,
{
    if n == 0 {
        1
    } else {
        256 * pow256((n - 1) as nat)
    }
}

/// The bytes of an image of `width` by `height` pixels: each size as eight
/// bytes, most significant first, then the pixels.
pub open spec fn framed(width: nat, height: nat, pixels: Seq<u8>) -> Seq<u8> {
    be_bytes(width, 8) + be_bytes(height, 8) + pixels
}

/// Bytes of an RGB image: three for each pixel.
pub open spec fn rgb_len(width: nat, height: nat) -> nat {
    width * height * 3
}

/// The length of the pixel buffer of an RGB image, if it fits a `usize`.
pub fn pixel_len(width: usize, height: usize) -> (r: Option<usize>)
    ensures
        match r {
            Some(n) => n == rgb_len(width as nat, height as nat),
            None => rgb_len(width as nat, height as nat) > usize::MAX,
        },
{
    match width.checked_mul(height) {
        None => {
            assert(width * height * 3 >= width * height) by (nonlinear_arith);
            None
        },
        Some(a) => a.checked_mul(3),
    }
}

fn push_be(out: &mut Vec<u8>, v: u64, n: usize)
    requires
        n <= 8,
    ensures
        final(out)@ == old(out)@ + be_bytes(v as nat, n as nat),
    decreases n,
{
    if n > 0 {
        push_be(out, v / 256, n - 1);
        out.push((v % 256) as u8);
        assert(final(out)@ =~= old(out)@ + be_bytes(v as nat, n as nat));
    } else {
        assert(final(out)@ =~= old(out)@ + be_bytes(v as nat, n as nat));
    }
}

/// The bytes of an image: the width and the height as eight bytes each, most
/// significant first, then the pixels as they are.
pub fn frame_bitmap(width: usize, height: usize, pixels: Vec<u8>) -> (r: Vec<u8>)
    requires
        pixels@.len() == rgb_len(width as nat, height as nat),
    ensures
        r@ == framed(width as nat, height as nat, pixels@),
        r@.len() == 16 + rgb_len(width as nat, height as nat),
{
    let mut out: Vec<u8> = Vec::new();
    push_be(&mut out, width as u64, 8);
    push_be(&mut out, height as u64, 8);
    let ghost head = out@;
    let mut i: usize = 0;
    while i < pixels.len()
        invariant
            i <= pixels@.len(),
            out@ == head + pixels@.subrange(0, i as int),
        decreases pixels@.len() - i,
    {
        out.push(pixels[i]);
        assert(out@ =~= head + pixels@.subrange(0, i + 1));
        i = i + 1;
    }
    assert(pixels@.subrange(0, pixels@.len() as int) =~= pixels@);
    proof {
        lemma_be_bytes_len(width as nat, 8);
        lemma_be_bytes_len(height as nat, 8);
    }
    out
}

/// A number written in `n` bytes takes `n` bytes.
pub proof fn lemma_be_bytes_len(v: nat, n: nat)
    ensures
        be_bytes(v, n).len() == n,
    decreases n,
{
    if n > 0 {
        lemma_be_bytes_len(v / 256, (n - 1) as nat);
    }
}

/// Writing a number in `n` bytes and reading it back gives the number, when it
/// fits in `n` bytes.
pub proof fn lemma_be_round_trip(v: nat, n: nat)
    requires
        v < pow256(n),
    ensures
        be_value(be_bytes(v, n)) == v,
    decreases n,
{
    if n > 0 {
        assert(v / 256 < pow256((n - 1) as nat)) by (nonlinear_arith)
            requires
                v < 256 * pow256((n - 1) as nat),
        ;
        lemma_be_round_trip(v / 256, (n - 1) as nat);
        let b = be_bytes(v, n);
        assert(b.drop_last() == be_bytes(v / 256, (n - 1) as nat));
        assert(v == (v / 256) * 256 + v % 256) by (nonlinear_arith);
    }
}

/// The width and height at the head of an image's bytes, if there are at
/// least sixteen bytes.
pub fn read_header(bytes: &Vec<u8>) -> (r: Option<(u64, u64)>)
    ensures
        match r {
            Some((w, h)) => bytes@.len() >= 16 && w as nat == be_value(bytes@.subrange(0, 8)) && h as nat
                == be_value(bytes@.subrange(8, 16)),
            None => bytes@.len() < 16,
        },
{
    if bytes.len() < 16 {
        return None;
    }
    let w = read_be8(bytes, 0);
    let h = read_be8(bytes, 8);
    Some((w, h))
}

fn read_be8(bytes: &Vec<u8>, at: usize) -> (r: u64)
    requires
        at + 8 <= bytes@.len(),
    ensures
        r as nat == be_value(bytes@.subrange(at as int, at + 8)),
{
    let n = bytes.len();
    let mut acc: u64 = 0;
    let mut i: usize = 0;
    while i < 8
        invariant
            i <= 8,
            n == bytes@.len(),
            at + 8 <= bytes@.len(),
            acc as nat == be_value(bytes@.subrange(at as int, at + i)),
            (acc as nat) < pow256(i as nat),
        decreases 8 - i,
    {
        let b = bytes[at + i];
        proof {
            let s = bytes@.subrange(at as int, at + i + 1);
            assert(s.drop_last() =~= bytes@.subrange(at as int, at + i));
            assert(s.last() == b);
            reveal_with_fuel(pow256, 9);
            assert(pow256(8) == 0x1_0000_0000_0000_0000);
            lemma_pow256_grows((i + 1) as nat, 8);
            assert(acc * 256 + b < 256 * pow256(i as nat)) by (nonlinear_arith)
                requires
                    acc < pow256(i as nat),
                    b < 256,
            ;
        }
        acc = acc * 256 + b as u64;
        i = i + 1;
    }
    acc
}

proof fn lemma_pow256_grows(i: nat, j: nat)
    requires
        i <= j,
    ensures
        pow256(i) <= pow256(j),
    decreases j - i,
{
    if i < j {
        lemma_pow256_grows(i, (j - 1) as nat);
    }
}

} // verus!
