//! Little-endian word access on byte buffers and power-of-two alignment
//! arithmetic, shared by the flash controller, the loaders and the
//! bootloader logic.

use vstd::prelude::*;

verus! {

use vstd::arithmetic::div_mod::{
    lemma_fundamental_div_mod, lemma_mod_multiples_basic, lemma_small_mod, lemma_sub_mod_noop,
};
use vstd::arithmetic::mul::lemma_mul_is_associative;

/// The 16-bit value stored little-endian in the two bytes of `b`.
pub open spec fn le16(b: Seq<u8>) -> u16
    recommends
        b.len() == 2,
{
    (b[0] as int + b[1] as int * 0x100) as u16
}

/// The 32-bit value stored little-endian in the four bytes of `b`.
pub open spec fn le32(b: Seq<u8>) -> u32
    recommends
        b.len() == 4,
{
    (b[0] as int + b[1] as int * 0x100 + b[2] as int * 0x10000 + b[3] as int * 0x1000000) as u32
}

/// The 64-bit value stored little-endian in the eight bytes of `b`.
pub open spec fn le64(b: Seq<u8>) -> u64
    recommends
        b.len() == 8,
{
    (le32(b.subrange(0, 4)) as int + le32(b.subrange(4, 8)) as int * 0x1_0000_0000) as u64
}

/// Read the little-endian 16-bit word at byte offset `off` of `data`.
pub fn read_le16(data: &[u8], off: usize) -> (r: u16)
    requires
        off + 2 <= data@.len(),
    ensures
        r == le16(data@.subrange(off as int, off + 2)),
{
    let lo = data[off] as u16;
    let hi = data[off + 1] as u16;
    let r = lo + hi * 0x100;
    proof {
        let b = data@.subrange(off as int, off + 2);
        assert(b[0] == data@[off as int] && b[1] == data@[off + 1]);
    }
    r
}

/// Read the little-endian 32-bit word at byte offset `off` of `data`.
pub fn read_le32(data: &[u8], off: usize) -> (r: u32)
    requires
        off + 4 <= data@.len(),
    ensures
        r == le32(data@.subrange(off as int, off + 4)),
{
    let b0 = data[off] as u32;
    let b1 = data[off + 1] as u32;
    let b2 = data[off + 2] as u32;
    let b3 = data[off + 3] as u32;
    let r = b0 + b1 * 0x100 + b2 * 0x10000 + b3 * 0x1000000;
    proof {
        let b = data@.subrange(off as int, off + 4);
        assert(b[0] == data@[off as int] && b[1] == data@[off + 1] && b[2] == data@[off + 2]
            && b[3] == data@[off + 3]);
    }
    r
}

/// Read the little-endian 64-bit word at byte offset `off` of `data`.
pub fn read_le64(data: &[u8], off: usize) -> (r: u64)
    requires
        off + 8 <= data@.len(),
    ensures
        r == le64(data@.subrange(off as int, off + 8)),
{
    let n: usize = data.len();
    assert(off + 8 <= n);
    let lo = read_le32(data, off) as u64;
    let hi = read_le32(data, off + 4) as u64;
    proof {
        let b = data@.subrange(off as int, off + 8);
        assert(b.subrange(0, 4) =~= data@.subrange(off as int, off + 4));
        assert(b.subrange(4, 8) =~= data@.subrange(off + 4, off + 8));
    }
    lo + hi * 0x1_0000_0000
}

/// Byte `k` (counting from the least significant) of the little-endian
/// encoding of `v`.
pub open spec fn le32_byte(v: u32, k: int) -> u8
    recommends
        0 <= k < 4,
{
    if k == 0 {
        (v % 0x100) as u8
    } else if k == 1 {
        (v / 0x100 % 0x100) as u8
    } else if k == 2 {
        (v / 0x10000 % 0x100) as u8
    } else {
        (v / 0x1000000) as u8
    }
}

/// Store `v` little-endian into the four bytes of `data` starting at `off`;
/// all other bytes keep their value.
pub fn write_le32(data: &mut Vec<u8>, off: usize, v: u32)
    requires
        off + 4 <= old(data)@.len(),
    ensures
        final(data)@.len() == old(data)@.len(),
        le32(final(data)@.subrange(off as int, off + 4)) == v,
        forall|k: int| 0 <= k < 4 ==> final(data)@[off + k] == le32_byte(v, k),
        forall|i: int|
            0 <= i < final(data)@.len() && !(off <= i < off + 4) ==> final(data)@[i] == old(
                data,
            )@[i],
{
    let n: usize = data.len();
    assert(off + 4 <= n);
    let b0 = (v % 0x100) as u8;
    let b1 = (v / 0x100 % 0x100) as u8;
    let b2 = (v / 0x10000 % 0x100) as u8;
    let b3 = (v / 0x1000000) as u8;
    data.set(off, b0);
    data.set(off + 1, b1);
    data.set(off + 2, b2);
    data.set(off + 3, b3);
    proof {
        let b = data@.subrange(off as int, off + 4);
        assert(b[0] == b0 && b[1] == b1 && b[2] == b2 && b[3] == b3);
        assert(b0 + b1 * 0x100 + b2 * 0x10000 + b3 * 0x1000000 == v) by (nonlinear_arith)
            requires
                b0 == v % 0x100,
                b1 == v / 0x100 % 0x100,
                b2 == v / 0x10000 % 0x100,
                b3 == v / 0x1000000,
        ;
    }
}

/// `n` is a positive power of two.
pub open spec fn is_pow2(n: u32) -> bool {
    n > 0 && n & ((n - 1) as u32) == 0
}

/// The largest multiple of `n` that is at most `addr`.
pub open spec fn align_down_spec(addr: u32, n: u32) -> int
    recommends
        n > 0,
{
    addr - addr % n
}

/// Round `addr` down to a multiple of `n`.
pub fn align_down(addr: u32, n: u32) -> (r: u32)
    requires
        n > 0,
    ensures
        r == align_down_spec(addr, n),
        r % n == 0,
        r <= addr < r + n,
{
    proof {
        assert(0 <= addr % n <= addr && ((addr - addr % n) as u32) % n == 0) by (nonlinear_arith)
            requires
                n > 0,
        ;
    }
    addr - addr % n
}

/// Divisibility is carried through a chain: a multiple of `b` is a multiple
/// of every divisor `c` of `b`.
pub proof fn lemma_mod_chain(a: int, b: int, c: int)
    requires
        a % b == 0,
        b % c == 0,
        b > 0,
        c > 0,
    ensures
        a % c == 0,
{
    lemma_fundamental_div_mod(a, b);
    lemma_fundamental_div_mod(b, c);
    assert(a == (c * (b / c)) * (a / b));
    lemma_mul_is_associative(c, b / c, a / b);
    assert(a == ((b / c) * (a / b)) * c) by (nonlinear_arith)
        requires
            a == c * ((b / c) * (a / b)),
    ;
    lemma_mod_multiples_basic((b / c) * (a / b), c);
}

/// The difference of two multiples of `m` is a multiple of `m`.
pub proof fn lemma_mod_sub(a: int, b: int, m: int)
    requires
        a % m == 0,
        b % m == 0,
        m > 0,
        a >= b,
    ensures
        (a - b) % m == 0,
{
    lemma_sub_mod_noop(a, b, m);
    lemma_small_mod(0, m as nat);
}

/// A positive multiple of `m` is at least `m`.
pub proof fn lemma_mod_pos_ge(a: int, m: int)
    by (nonlinear_arith)
    requires
        a % m == 0,
        m > 0,
        a > 0,
    ensures
        a >= m,
{
}

/// A product is a multiple of its right factor, and of every divisor of it.
pub proof fn lemma_mul_mod(k: int, m: int, c: int)
    requires
        m % c == 0,
        m > 0,
        c > 0,
        k >= 0,
    ensures
        (k * m) % m == 0,
        (k * m) % c == 0,
{
    lemma_mod_multiples_basic(k, m);
    lemma_mod_chain(k * m, m, c);
}

/// The smallest multiple of `n` that is at least `x`.
pub open spec fn align_up_spec(x: usize, n: usize) -> int
    recommends
        n > 0,
{
    if x as int % n as int == 0 {
        x as int
    } else {
        x - x as int % n as int + n
    }
}

/// Round `x` up to a multiple of `n`, or fail where that leaves the machine
/// range.
pub fn align_up(x: usize, n: usize) -> (r: Option<usize>)
    requires
        n > 0,
    ensures
        match r {
            Some(v) => v == align_up_spec(x, n) && v % n == 0 && x <= v < x + n,
            None => align_up_spec(x, n) > usize::MAX,
        },
{
    proof {
        assert(0 <= x as int % n as int <= x && ((x - x as int % n as int) as usize) as int % n
            as int == 0) by (nonlinear_arith)
            requires
                n > 0,
        ;
    }
    let rem = x % n;
    if rem == 0 {
        Some(x)
    } else {
        let down = x - rem;
        if down > usize::MAX - n {
            None
        } else {
            proof {
                lemma_mul_mod((down + n) as int / n as int, n as int, n as int);
                vstd::arithmetic::div_mod::lemma_mod_multiples_vanish(
                    1,
                    down as int,
                    n as int,
                );
            }
            Some(down + n)
        }
    }
}

/// `addr` is a multiple of `n`.
pub fn is_aligned(addr: u32, n: u32) -> (r: bool)
    requires
        n > 0,
    ensures
        r <==> addr % n == 0,
{
    addr % n == 0
}

} // verus!
