//! Big-endian integers on the wire.
use vstd::prelude::*;

verus! {

/// `256` to the power `n`: how many values `n` bytes can hold.
pub open spec fn byte_range(n: nat) -> nat
    decreases n,
{
    if n == 0 {
        1
    } else {
        256 * byte_range((n - 1) as nat)
    }
}

/// The low `n` bytes of `x`, most significant first.
pub open spec fn be_bytes(x: nat, n: nat) -> Seq<u8>
    decreases n,
{
    if n == 0 {
        Seq::empty()
    } else {
        be_bytes(x / 256, (n - 1) as nat).push((x % 256) as u8)
    }
}

/// The number that `s` spells, most significant byte first.
pub open spec fn be_value(s: Seq<u8>) -> nat
    decreases s.len(),
{
    if s.len() == 0 {
        0
    } else {
        be_value(s.drop_last()) * 256 + s.last() as nat
    }
}

/// The 16-bit number that starts at byte `at` of `s`.
pub open spec fn u16_at(s: Seq<u8>, at: int) -> nat {
    be_value(s.subrange(at, at + 2))
}

/// The 32-bit number that starts at byte `at` of `s`.
pub open spec fn u32_at(s: Seq<u8>, at: int) -> u32 {
    be_value(s.subrange(at, at + 4)) as u32
}

/// The 64-bit number that starts at byte `at` of `s`.
pub open spec fn u64_at(s: Seq<u8>, at: int) -> u64 {
    be_value(s.subrange(at, at + 8)) as u64
}

/// A number that fits in `n` bytes is read back from the `n` bytes that spell it.
pub proof fn be_value_of_be_bytes(x: nat, n: nat)
    requires
        x < byte_range(n),
    ensures
        be_bytes(x, n).len() == n,
        be_value(be_bytes(x, n)) == x,
    decreases n,
{
    if n > 0 {
        be_value_of_be_bytes(x / 256, (n - 1) as nat);
        assert(be_bytes(x, n).drop_last() =~= be_bytes(x / 256, (n - 1) as nat));
    }
}

/// The bytes of a number are given back by spelling the number that they hold.
pub proof fn be_bytes_of_be_value(s: Seq<u8>)
    ensures
        be_value(s) < byte_range(s.len()),
        be_bytes(be_value(s), s.len()) == s,
    decreases s.len(),
{
    if s.len() > 0 {
        be_bytes_of_be_value(s.drop_last());
        assert(be_bytes(be_value(s), s.len()) =~= s);
    }
}

/// Spelling a number in `n` bytes keeps it modulo what `n` bytes can hold.
pub proof fn be_value_of_low_bytes(x: nat, n: nat)
    ensures
        byte_range(n) > 0,
        be_bytes(x, n).len() == n,
        be_value(be_bytes(x, n)) == x % byte_range(n),
    decreases n,
{
    if n > 0 {
        let m = (n - 1) as nat;
        be_value_of_low_bytes(x / 256, m);
        assert(be_bytes(x, n).drop_last() =~= be_bytes(x / 256, m));
        vstd::arithmetic::div_mod::lemma_mod_breakdown(x as int, 256, byte_range(m) as int);
    }
}

/// Without its first `k` bytes, the spelling of a number is that of its low
/// bytes.
pub proof fn be_bytes_skip(x: nat, n: nat, k: nat)
    requires
        k <= n,
    ensures
        be_bytes(x, n).len() == n,
        be_bytes(x, n).skip(k as int) == be_bytes(x, (n - k) as nat),
    decreases n,
{
    be_value_of_low_bytes(x, n);
    if k < n {
        be_bytes_skip(x / 256, (n - 1) as nat, k);
        be_value_of_low_bytes(x / 256, (n - 1) as nat);
    }
    assert(be_bytes(x, n).skip(k as int) =~= be_bytes(x, (n - k) as nat));
}

/// How many values two, four and eight bytes can hold.
pub proof fn byte_range_values()
    ensures
        byte_range(2) == 0x1_0000,
        byte_range(4) == 0x1_0000_0000,
        byte_range(8) == 0x1_0000_0000_0000_0000,
{
    reveal_with_fuel(byte_range, 9);
}

/// The two bytes of `x`.
pub fn be16(x: u16) -> (r: [u8; 2])
    ensures
        r@ == be_bytes(x as nat, 2),
{
    reveal_with_fuel(be_bytes, 3);
    let r: [u8; 2] = [(x / 256) as u8, (x % 256) as u8];
    assert(r@ =~= be_bytes(x as nat, 2));
    r
}

/// The four bytes of `x`.
pub fn be32(x: u32) -> (r: [u8; 4])
    ensures
        r@ == be_bytes(x as nat, 4),
{
    reveal_with_fuel(be_bytes, 5);
    let b: u32 = x / 256;
    let c: u32 = b / 256;
    let d: u32 = c / 256;
    let r: [u8; 4] = [(d % 256) as u8, (c % 256) as u8, (b % 256) as u8, (x % 256) as u8];
    assert(r@ =~= be_bytes(x as nat, 4));
    r
}

/// The eight bytes of `x`.
pub fn be64(x: u64) -> (r: [u8; 8])
    ensures
        r@ == be_bytes(x as nat, 8),
{
    let high: [u8; 4] = be32((x / 0x1_0000_0000) as u32);
    let low: [u8; 4] = be32((x % 0x1_0000_0000) as u32);
    let r: [u8; 8] = [
        high[0],
        high[1],
        high[2],
        high[3],
        low[0],
        low[1],
        low[2],
        low[3],
    ];
    proof {
        let h: nat = (x / 0x1_0000_0000) as nat;
        let l: nat = (x % 0x1_0000_0000) as nat;
        byte_range_values();
        be_value_of_be_bytes(h, 4);
        be_value_of_be_bytes(l, 4);
        reveal_with_fuel(be_value, 9);
        assert(high@ =~= seq![high[0], high[1], high[2], high[3]]);
        assert(low@ =~= seq![low[0], low[1], low[2], low[3]]);
        let s: Seq<u8> = r@;
        lemma_be_value_append(high@, low@);
        assert(s =~= high@ + low@);
        be_bytes_of_be_value(s);
    }
    r
}

/// Appending four bytes multiplies by what four bytes can hold, and adds.
proof fn lemma_be_value_append(a: Seq<u8>, b: Seq<u8>)
    requires
        b.len() == 4,
    ensures
        be_value(a + b) == be_value(a) * 0x1_0000_0000 + be_value(b),
{
    let s = a + b;
    let s1 = s.drop_last();
    let s2 = s1.drop_last();
    let s3 = s2.drop_last();
    assert(s3.drop_last() =~= a);
    let b1 = b.drop_last();
    let b2 = b1.drop_last();
    let b3 = b2.drop_last();
    reveal_with_fuel(be_value, 5);
    assert(be_value(b3.drop_last()) == 0);
}

/// Reads the 16-bit number that starts at byte `at`.
pub fn read_u16(buf: &[u8], at: usize) -> (r: u16)
    requires
        at + 2 <= buf.len(),
    ensures
        r == u16_at(buf@, at as int),
        r == buf@[at as int] * 0x100 + buf@[at + 1],
{
    let r: u16 = buf[at] as u16 * 0x100 + buf[at + 1] as u16;
    proof {
        let s = buf@.subrange(at as int, at + 2);
        reveal_with_fuel(be_value, 3);
        assert(be_value(s.drop_last().drop_last()) == 0);
    }
    r
}

/// Reads the 32-bit number that starts at byte `at`.
pub fn read_u32(buf: &[u8], at: usize) -> (r: u32)
    requires
        at + 4 <= buf.len(),
    ensures
        r == u32_at(buf@, at as int),
        r == buf@[at as int] * 0x100_0000 + buf@[at + 1] * 0x1_0000 + buf@[at + 2] * 0x100
            + buf@[at + 3],
{
    let r: u32 = buf[at] as u32 * 0x100_0000 + buf[at + 1] as u32 * 0x1_0000 + buf[at + 2] as u32
        * 0x100 + buf[at + 3] as u32;
    proof {
        let s = buf@.subrange(at as int, at + 4);
        reveal_with_fuel(be_value, 5);
        let s1 = s.drop_last();
        let s2 = s1.drop_last();
        let s3 = s2.drop_last();
        assert(be_value(s3.drop_last()) == 0);
    }
    r
}

/// Reads the 64-bit number that starts at byte `at`.
pub fn read_u64(buf: &[u8], at: usize) -> (r: u64)
    requires
        at + 8 <= buf.len(),
    ensures
        r == u64_at(buf@, at as int),
{
    let high: u32 = read_u32(buf, at);
    let low: u32 = read_u32(buf, at + 4);
    proof {
        let a = buf@.subrange(at as int, at + 4);
        let b = buf@.subrange(at + 4, at + 8);
        byte_range_values();
        be_bytes_of_be_value(a);
        be_bytes_of_be_value(b);
        lemma_be_value_append(a, b);
        assert(buf@.subrange(at as int, at + 8) =~= a + b);
    }
    high as u64 * 0x1_0000_0000 + low as u64
}

/// Numbers are read with the most significant byte first.
pub proof fn bytes_are_read_big_endian(s: Seq<u8>, at: int)
    requires
        0 <= at,
    ensures
        at + 2 <= s.len() ==> u16_at(s, at) == s[at] * 0x100 + s[at + 1],
        at + 4 <= s.len() ==> u32_at(s, at) == s[at] * 0x100_0000 + s[at + 1] * 0x1_0000 + s[at + 2]
            * 0x100 + s[at + 3],
        at + 8 <= s.len() ==> u64_at(s, at) == u32_at(s, at) * 0x1_0000_0000 + u32_at(s, at + 4),
{
    reveal_with_fuel(be_value, 5);
    if at + 2 <= s.len() {
        let a = s.subrange(at, at + 2);
        assert(be_value(a.drop_last().drop_last()) == 0);
    }
    if at + 4 <= s.len() {
        let a = s.subrange(at, at + 4);
        let a3 = a.drop_last().drop_last().drop_last();
        assert(be_value(a3.drop_last()) == 0);
    }
    if at + 8 <= s.len() {
        let a = s.subrange(at, at + 4);
        let b = s.subrange(at + 4, at + 8);
        byte_range_values();
        be_bytes_of_be_value(a);
        be_bytes_of_be_value(b);
        lemma_be_value_append(a, b);
        assert(s.subrange(at, at + 8) =~= a + b);
    }
}

/// Numbers are written with the most significant byte first.
pub proof fn numbers_are_written_big_endian(x: nat)
    ensures
        x < 0x1_0000 ==> be_bytes(x, 2).len() == 2 && be_bytes(x, 2)[0] * 0x100 + be_bytes(x, 2)[1]
            == x,
        x < 0x1_0000_0000 ==> ({
            let b = be_bytes(x, 4);
            b.len() == 4 && b[0] * 0x100_0000 + b[1] * 0x1_0000 + b[2] * 0x100 + b[3] == x
        }),
        x < 0x1_0000_0000_0000_0000 ==> ({
            let b = be_bytes(x, 8);
            &&& b.len() == 8
            &&& (b[0] * 0x100_0000 + b[1] * 0x1_0000 + b[2] * 0x100 + b[3]) * 0x1_0000_0000 + b[4]
                * 0x100_0000 + b[5] * 0x1_0000 + b[6] * 0x100 + b[7] == x
        }),
{
    byte_range_values();
    if x < 0x1_0000 {
        be_value_of_be_bytes(x, 2);
        bytes_are_read_big_endian(be_bytes(x, 2), 0);
        assert(be_bytes(x, 2).subrange(0, 2) =~= be_bytes(x, 2));
    }
    if x < 0x1_0000_0000 {
        be_value_of_be_bytes(x, 4);
        bytes_are_read_big_endian(be_bytes(x, 4), 0);
        assert(be_bytes(x, 4).subrange(0, 4) =~= be_bytes(x, 4));
    }
    if x < 0x1_0000_0000_0000_0000 {
        be_value_of_be_bytes(x, 8);
        bytes_are_read_big_endian(be_bytes(x, 8), 0);
        bytes_are_read_big_endian(be_bytes(x, 8), 4);
        assert(be_bytes(x, 8).subrange(0, 8) =~= be_bytes(x, 8));
    }
}

} // verus!
