//! Fixed-width integers in byte buffers, and the padding that aligns what
//! follows them.

use byteorder::{LittleEndian, ReadBytesExt};
use vstd::prelude::*;

verus! {

/// The number that `s` spells with its least significant byte first.
pub open spec fn le_value(s: Seq<u8>) -> nat
    decreases s.len(),
{
    if s.len() == 0 {
        0
    } else {
        s[0] as nat + 256 * le_value(s.skip(1))
    }
}

/// The number that `s` spells with its most significant byte first.
pub open spec fn be_value(s: Seq<u8>) -> nat
    decreases s.len(),
{
    if s.len() == 0 {
        0
    } else {
        256 * be_value(s.drop_last()) + s.last() as nat
    }
}

/// The low `width` bytes of `value`, least significant first.
pub open spec fn le_bytes(value: nat, width: nat) -> Seq<u8>
    decreases width,
{
    if width == 0 {
        Seq::empty()
    } else {
        seq![(value % 256) as u8] + le_bytes(value / 256, (width - 1) as nat)
    }
}

/// 256 to the power of `width`: how many numbers `width` bytes can spell.
pub open spec fn byte_range(width: nat) -> nat
    decreases width,
{
    if width == 0 {
        1
    } else {
        256 * byte_range((width - 1) as nat)
    }
}

/// Writing a number and reading it back gives the number, when it fits.
pub proof fn lemma_le_round_trip(value: nat, width: nat)
    ensures
        le_bytes(value, width).len() == width,
        value < byte_range(width) ==> le_value(le_bytes(value, width)) == value,
    decreases width,
{
    if width > 0 {
        let rest = (width - 1) as nat;
        lemma_le_round_trip(value / 256, rest);
        assert(le_bytes(value, width).skip(1) =~= le_bytes(value / 256, rest));
        if value < byte_range(width) {
            assert(value / 256 < byte_range(rest));
        }
    }
}

/// The length of the bytes of a number is the width that was asked for.
pub broadcast proof fn lemma_le_bytes_len(value: nat, width: nat)
    ensures
        (#[trigger] le_bytes(value, width)).len() == width,
{
    lemma_le_round_trip(value, width);
}

/// Two's complement: the signed reading of a 32-bit pattern.
pub open spec fn as_signed_32(n: nat) -> int {
    if n < 0x8000_0000 {
        n as int
    } else {
        n - 0x1_0000_0000
    }
}

/// The four bytes of `s` at `at`, in the order that `le` names.
pub open spec fn u32_at(s: Seq<u8>, at: int, le: bool) -> nat {
    if le {
        le_value(s.subrange(at, at + 4))
    } else {
        be_value(s.subrange(at, at + 4))
    }
}

/// The eight bytes of `s` at `at`, in the order that `le` names.
pub open spec fn u64_at(s: Seq<u8>, at: int, le: bool) -> nat {
    if le {
        le_value(s.subrange(at, at + 8))
    } else {
        be_value(s.subrange(at, at + 8))
    }
}

proof fn lemma_le_value_2(s: Seq<u8>)
    requires
        s.len() == 2,
    ensures
        le_value(s) == s[0] as nat + 256 * s[1] as nat,
{
    reveal_with_fuel(le_value, 3);
}

proof fn lemma_value_4(s: Seq<u8>)
    requires
        s.len() == 4,
    ensures
        le_value(s) == s[0] as nat + 256 * s[1] as nat + 65536 * s[2] as nat + 16777216
            * s[3] as nat,
        be_value(s) == s[3] as nat + 256 * s[2] as nat + 65536 * s[1] as nat + 16777216
            * s[0] as nat,
{
    reveal_with_fuel(le_value, 5);
    reveal_with_fuel(be_value, 5);
}

/// The low half of eight bytes, and what the high half adds to it.
proof fn lemma_value_8(s: Seq<u8>)
    requires
        s.len() == 8,
    ensures
        le_value(s) == le_value(s.subrange(0, 4)) + 0x1_0000_0000 * le_value(s.subrange(4, 8)),
        be_value(s) == 0x1_0000_0000 * be_value(s.subrange(0, 4)) + be_value(s.subrange(4, 8)),
{
    lemma_value_4(s.subrange(0, 4));
    lemma_value_4(s.subrange(4, 8));
    reveal_with_fuel(le_value, 9);
    reveal_with_fuel(be_value, 9);
}

/// Reads two bytes, least significant first.
pub fn read_u16_le(buf: &[u8], at: usize) -> (r: u16)
    requires
        at + 2 <= buf@.len(),
    ensures
        r == le_value(buf@.subrange(at as int, at + 2)),
{
    proof {
        lemma_le_value_2(buf@.subrange(at as int, at + 2));
    }
    buf[at] as u16 + 256 * (buf[at + 1] as u16)
}

/// Reads four bytes in the byte order that `le` names.
pub fn read_u32(buf: &[u8], at: usize, le: bool) -> (r: u32)
    requires
        at + 4 <= buf@.len(),
    ensures
        r == u32_at(buf@, at as int, le),
{
    proof {
        lemma_value_4(buf@.subrange(at as int, at + 4));
    }
    let (a, b, c, d): (u32, u32, u32, u32) = (
        buf[at] as u32,
        buf[at + 1] as u32,
        buf[at + 2] as u32,
        buf[at + 3] as u32,
    );
    if le {
        a + 256 * b + 65536 * c + 16777216 * d
    } else {
        d + 256 * c + 65536 * b + 16777216 * a
    }
}

/// Reads the bit pattern of a double-precision number, eight bytes in the
/// byte order that `le` names.
pub fn read_f64(buf: &[u8], at: usize, le: bool) -> (r: u64)
    requires
        at + 8 <= buf@.len(),
    ensures
        r == u64_at(buf@, at as int, le),
{
    assert(at + 8 <= buf.len());
    let first: u32 = read_u32(buf, at, le);
    let second: u32 = read_u32(buf, at + 4, le);
    proof {
        let s = buf@.subrange(at as int, at + 8);
        lemma_value_8(s);
        assert(s.subrange(0, 4) =~= buf@.subrange(at as int, at + 4));
        assert(s.subrange(4, 8) =~= buf@.subrange(at + 4, at + 8));
    }
    if le {
        first as u64 + 0x1_0000_0000 * (second as u64)
    } else {
        0x1_0000_0000 * (first as u64) + second as u64
    }
}

/// `byteorder`'s `ReadBytesExt::read_i32::<LittleEndian>` on the bytes from
/// `at` on: four bytes as a two's complement number, or nothing where fewer
/// than four are left.
#[verifier::external_body]
pub(crate) fn take_i32_le(buf: &[u8], at: usize) -> (r: Option<i32>)
    requires
        at <= buf@.len(),
    ensures
        r is Some <==> at + 4 <= buf@.len(),
        r is Some ==> r->0 == as_signed_32(le_value(buf@.subrange(at as int, at + 4))),
{
    let mut rest = &buf[at..];
    rest.read_i32::<LittleEndian>().ok()
}

/// `byteorder`'s `ReadBytesExt::read_u64::<LittleEndian>` on the bytes from
/// `at` on: eight bytes as a number, or nothing where fewer than eight are
/// left.
#[verifier::external_body]
pub(crate) fn take_u64_le(buf: &[u8], at: usize) -> (r: Option<u64>)
    requires
        at <= buf@.len(),
    ensures
        r is Some <==> at + 8 <= buf@.len(),
        r is Some ==> r->0 == le_value(buf@.subrange(at as int, at + 8)),
{
    let mut rest = &buf[at..];
    rest.read_u64::<LittleEndian>().ok()
}

/// Appends all of `more`.
pub fn push_all(out: &mut Vec<u8>, more: &[u8])
    ensures
        final(out)@ == old(out)@ + more@,
{
    let ghost start = out@;
    let n: usize = more.len();
    let mut i: usize = 0;
    while i < n
        invariant
            n == more@.len(),
            i <= n,
            out@ == start + more@.take(i as int),
        decreases n - i,
    {
        out.push(more[i]);
        i += 1;
        assert(more@.take(i as int) =~= more@.take(i - 1).push(more@[i - 1]));
    }
    assert(more@.take(n as int) =~= more@);
}

/// Appends a 16-bit number, least significant byte first.
pub fn push_u16_le(out: &mut Vec<u8>, value: u16)
    ensures
        final(out)@ == old(out)@ + le_bytes(value as nat, 2),
{
    let ghost start = out@;
    out.push((value % 256) as u8);
    out.push((value / 256) as u8);
    proof {
        reveal_with_fuel(le_bytes, 3);
        assert(out@ =~= start + le_bytes(value as nat, 2));
    }
}

/// Appends a 32-bit number, least significant byte first.
pub fn push_u32_le(out: &mut Vec<u8>, value: u32)
    ensures
        final(out)@ == old(out)@ + le_bytes(value as nat, 4),
{
    let ghost start = out@;
    out.push((value % 256) as u8);
    out.push((value / 256 % 256) as u8);
    out.push((value / 65536 % 256) as u8);
    out.push((value / 16777216) as u8);
    proof {
        reveal_with_fuel(le_bytes, 5);
        assert(value as nat / 256 / 256 == value as nat / 65536);
        assert(value as nat / 256 / 256 / 256 == value as nat / 16777216);
        assert(out@ =~= start + le_bytes(value as nat, 4));
    }
}

/// How many bytes bring a length of `len` to a multiple of `unit`.
pub open spec fn padding(len: int, unit: int) -> int {
    (unit - len % unit) % unit
}

/// `count` bytes that all hold `fill`.
pub open spec fn filler(fill: u8, count: int) -> Seq<u8> {
    Seq::new(count as nat, |i: int| fill)
}

/// `s` followed by as many `fill` bytes as bring its length, counted from
/// `lead` bytes before it, to a multiple of `unit`.
pub open spec fn padded(s: Seq<u8>, lead: int, unit: int, fill: u8) -> Seq<u8> {
    s + filler(fill, padding(lead + s.len(), unit))
}

/// Padding is shorter than the unit, leaves the length a multiple of it, and
/// is empty where the length already is one.
pub proof fn lemma_padding(len: int, unit: int)
    requires
        0 <= len,
        0 < unit,
    ensures
        0 <= padding(len, unit) < unit,
        (len + padding(len, unit)) % unit == 0,
        len % unit == 0 <==> padding(len, unit) == 0,
{
    vstd::arithmetic::div_mod::lemma_fundamental_div_mod(len, unit);
    let r = len % unit;
    assert(0 <= r < unit) by (nonlinear_arith)
        requires
            0 < unit,
            r == len % unit,
    ;
    if r == 0 {
        vstd::arithmetic::div_mod::lemma_mod_self_0(unit);
        assert(padding(len, unit) == 0);
    } else {
        vstd::arithmetic::div_mod::lemma_small_mod((unit - r) as nat, unit as nat);
        assert(len + padding(len, unit) == unit * (len / unit + 1)) by (nonlinear_arith)
            requires
                len == unit * (len / unit) + r,
                padding(len, unit) == unit - r,
        ;
        vstd::arithmetic::div_mod::lemma_mod_multiples_basic(len / unit + 1, unit);
        assert((len / unit + 1) * unit == unit * (len / unit + 1)) by (nonlinear_arith);
    }
}

/// Appends `fill` until the length, counted from `lead` bytes before the
/// buffer, is a multiple of `unit`.
pub fn pad_to(out: &mut Vec<u8>, lead: usize, unit: usize, fill: u8)
    requires
        0 < unit <= 0x1_0000,
    ensures
        final(out)@ == padded(old(out)@, lead as int, unit as int, fill),
{
    let ghost start = out@;
    let a: usize = lead % unit;
    let b: usize = out.len() % unit;
    proof {
        vstd::arithmetic::div_mod::lemma_add_mod_noop(
            lead as int,
            start.len() as int,
            unit as int,
        );
    }
    let count: usize = (unit - (a + b) % unit) % unit;
    let mut i: usize = 0;
    while i < count
        invariant
            i <= count,
            out@ == start + filler(fill, i as int),
        decreases count - i,
    {
        out.push(fill);
        i += 1;
        assert(filler(fill, i as int) =~= filler(fill, i - 1).push(fill));
    }
    proof {
        assert(filler(fill, 0) =~= Seq::<u8>::empty());
    }
}

// -------------------------------------------------------------------- laws

/// Whether the four bytes at `at` are those of a number, least significant
/// first.
pub open spec fn spells_word(s: Seq<u8>, at: int, n: int) -> bool {
    &&& 0 <= at
    &&& at + 4 <= s.len()
    &&& s[at] + 0x100 * s[at + 1] + 0x1_0000 * s[at + 2] + 0x100_0000 * s[at + 3] == n
}

/// Whether the eight bytes at `at` are those of a number, least significant
/// first.
pub open spec fn spells_long(s: Seq<u8>, at: int, n: int) -> bool {
    &&& 0 <= at
    &&& at + 8 <= s.len()
    &&& s[at] + 0x100 * s[at + 1] + 0x1_0000 * s[at + 2] + 0x100_0000 * s[at + 3]
        + 0x1_0000_0000 * s[at + 4] + 0x100_0000_0000 * s[at + 5] + 0x1_0000_0000_0000 * s[at + 6]
        + 0x100_0000_0000_0000 * s[at + 7] == n
}

/// Of the bytes of a number, byte `i` is its digit to the base 256 with the
/// weight `256^i`.
pub proof fn law_bytes_are_digits(value: nat, width: nat, i: int)
    requires
        0 <= i < width,
    ensures
        le_bytes(value, width).len() == width,
        le_bytes(value, width)[i] == value as int / vstd::arithmetic::power::pow(256, i as nat)
            % 256,
    decreases width,
{
    lemma_le_round_trip(value, width);
    vstd::arithmetic::power::lemma_pow0(256);
    if i > 0 {
        let rest = (width - 1) as nat;
        law_bytes_are_digits(value / 256, rest, i - 1);
        lemma_le_round_trip(value / 256, rest);
        assert(le_bytes(value, width)[i] == le_bytes(value / 256, rest)[i - 1]);
        let p = vstd::arithmetic::power::pow(256, (i - 1) as nat);
        vstd::arithmetic::power::lemma_pow_positive(256, (i - 1) as nat);
        assert(vstd::arithmetic::power::pow(256, i as nat) == 256 * p) by {
            reveal(vstd::arithmetic::power::pow);
        }
        vstd::arithmetic::div_mod::lemma_div_denominator(value as int, 256, p);
    }
}

/// The number that bytes spell is the sum of the bytes, each with the weight of
/// its place: the first byte counts once, the next 256 times as much, and so
/// on. In the other byte order the bytes count as if they stood in reverse.
pub proof fn law_bytes_have_weights(s: Seq<u8>)
    ensures
        be_value(s) == le_value(s.reverse()),
        s.len() == 1 ==> le_value(s) == s[0],
        s.len() == 2 ==> le_value(s) == s[0] + 0x100 * s[1],
        s.len() == 4 ==> spells_word(s, 0, le_value(s) as int),
        s.len() == 8 ==> spells_long(s, 0, le_value(s) as int),
    decreases s.len(),
{
    if s.len() > 0 {
        let head = s.drop_last();
        law_bytes_have_weights(head);
        assert(s.reverse().skip(1) =~= head.reverse());
        assert(s.reverse()[0] == s.last());
    }
    reveal_with_fuel(le_value, 5);
    if s.len() == 8 {
        lemma_value_8(s);
        lemma_value_4(s.subrange(0, 4));
        lemma_value_4(s.subrange(4, 8));
    }
}

/// The bytes of a 32-bit number spell it.
pub proof fn law_word_is_spelled(n: u32)
    ensures
        le_bytes(n as nat, 4).len() == 4,
        spells_word(le_bytes(n as nat, 4), 0, n as int),
{
    reveal_with_fuel(byte_range, 5);
    lemma_le_round_trip(n as nat, 4);
    lemma_value_4(le_bytes(n as nat, 4));
}

/// The bytes of a 64-bit number spell it.
pub proof fn law_long_is_spelled(n: u64)
    ensures
        le_bytes(n as nat, 8).len() == 8,
        spells_long(le_bytes(n as nat, 8), 0, n as int),
{
    reveal_with_fuel(byte_range, 9);
    lemma_le_round_trip(n as nat, 8);
    law_bytes_have_weights(le_bytes(n as nat, 8));
}

/// The signed reading of a pattern is a 32-bit number that differs from the
/// pattern by a multiple of `2^32`.
pub proof fn law_signed_reading(n: nat)
    requires
        n < 0x1_0000_0000,
    ensures
        i32::MIN <= as_signed_32(n) <= i32::MAX,
        as_signed_32(n) == n || as_signed_32(n) == n - 0x1_0000_0000,
{
}

/// What is padded begins with what was there, is followed by nothing but the
/// filling, and reaches the next multiple of the unit and no further.
pub proof fn law_padding_fills_up(s: Seq<u8>, lead: int, unit: int, fill: u8)
    requires
        0 <= lead,
        0 < unit,
    ensures
        ({
            let r = padded(s, lead, unit, fill);
            &&& s.is_prefix_of(r)
            &&& r.len() < s.len() + unit
            &&& (lead + r.len()) % unit == 0
            &&& forall|i: int| s.len() <= i < r.len() ==> #[trigger] r[i] == fill
        }),
{
    lemma_padding(lead + s.len(), unit);
    assert(padded(s, lead, unit, fill).take(s.len() as int) =~= s);
}

} // verus!
