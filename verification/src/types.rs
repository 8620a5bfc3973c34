//! Crate-owned Windows ABI value types.

use vstd::prelude::*;

use crate::numbers::{digit_value, digits_number, hex_digits_of, is_hex_digit, manifest_guid, pow16};
use crate::text::push_char;

verus! {

/// Describes an ETW event's identity and filtering metadata.
#[derive(Clone, Copy, Default, Debug, PartialEq, Eq, Hash, Structural)]
pub struct EventDescriptor {
    /// The event identifier.
    pub id: u16,
    /// The event definition version.
    pub version: u8,
    /// The event channel.
    pub channel: u8,
    /// The event severity level.
    pub level: u8,
    /// The operation performed by the event.
    pub opcode: u8,
    /// The event task.
    pub task: u16,
    /// The event category bitmask.
    pub keyword: u64,
}

/// A Windows file time represented as 100-nanosecond intervals since January 1, 1601 UTC.
#[derive(Clone, Copy, Default, Debug, PartialEq, Eq, Hash, Structural)]
pub struct FileTime {
    /// The low-order 32 bits of the file time.
    pub low_date_time: u32,
    /// The high-order 32 bits of the file time.
    pub high_date_time: u32,
}

/// A Windows date and time with millisecond precision.
#[derive(Clone, Copy, Default, Debug, PartialEq, Eq, Hash, Structural)]
pub struct SystemTime {
    /// The year.
    pub year: u16,
    /// The month.
    pub month: u16,
    /// The day of the week.
    pub day_of_week: u16,
    /// The day of the month.
    pub day: u16,
    /// The hour.
    pub hour: u16,
    /// The minute.
    pub minute: u16,
    /// The second.
    pub second: u16,
    /// The millisecond.
    pub milliseconds: u16,
}

/// A Windows globally unique identifier.
#[derive(Clone, Copy, Debug, PartialEq, Eq, Hash)]
pub struct Guid {
    /// The first 32 bits of the GUID.
    pub data1: u32,
    /// The next 16 bits of the GUID.
    pub data2: u16,
    /// The next 16 bits of the GUID.
    pub data3: u16,
    /// The final 64 bits of the GUID.
    pub data4: [u8; 8],
}

/// The big-endian value of eight bytes.
pub open spec fn be_u64(b: Seq<u8>) -> u64 {
    (b[0] as u64) << 56 | (b[1] as u64) << 48 | (b[2] as u64) << 40 | (b[3] as u64) << 32
        | (b[4] as u64) << 24 | (b[5] as u64) << 16 | (b[6] as u64) << 8 | (b[7] as u64)
}

/// Byte `i` (most significant first) of the big-endian encoding of `v`.
pub open spec fn be_byte(v: u64, i: int) -> u8 {
    ((v >> (56 - 8 * i) as u64) & 0xff) as u8
}

/// The canonical `u128` value of a GUID: `data1`, `data2`, `data3` and the big-endian
/// `data4` bytes, most significant first.
pub open spec fn guid_value(g: Guid) -> u128 {
    (g.data1 as u128) << 96 | (g.data2 as u128) << 80 | (g.data3 as u128) << 64
        | be_u64(g.data4@) as u128
}

/// The GUID whose canonical value is `v`, field by field.
pub open spec fn is_guid_of(g: Guid, v: u128) -> bool {
    &&& g.data1 == (v >> 96) as u32
    &&& g.data2 == ((v >> 80) & 0xffff) as u16
    &&& g.data3 == ((v >> 64) & 0xffff) as u16
    &&& g.data4@.len() == 8
    &&& forall|i: int| 0 <= i < 8 ==> #[trigger] g.data4@[i] == be_byte(v as u64, i)
}

proof fn lemma_be_bytes_roundtrip(v: u64)
    ensures
        be_u64(seq![be_byte(v, 0), be_byte(v, 1), be_byte(v, 2), be_byte(v, 3),
            be_byte(v, 4), be_byte(v, 5), be_byte(v, 6), be_byte(v, 7)]) == v,
{
    let b0 = be_byte(v, 0);
    let b1 = be_byte(v, 1);
    let b2 = be_byte(v, 2);
    let b3 = be_byte(v, 3);
    let b4 = be_byte(v, 4);
    let b5 = be_byte(v, 5);
    let b6 = be_byte(v, 6);
    let b7 = be_byte(v, 7);
    assert(b0 == ((v >> 56u64) & 0xff) as u8);
    assert(b7 == ((v >> 0u64) & 0xff) as u8);
    assert(
        ((((v >> 56u64) & 0xff) as u8) as u64) << 56 | ((((v >> 48u64) & 0xff) as u8) as u64) << 48
            | ((((v >> 40u64) & 0xff) as u8) as u64) << 40 | ((((v >> 32u64) & 0xff) as u8) as u64) << 32
            | ((((v >> 24u64) & 0xff) as u8) as u64) << 24 | ((((v >> 16u64) & 0xff) as u8) as u64) << 16
            | ((((v >> 8u64) & 0xff) as u8) as u64) << 8 | ((((v >> 0u64) & 0xff) as u8) as u64) == v
    ) by (bit_vector);
}

/// The uppercase hexadecimal digit for `d`, which is below 16.
pub open spec fn hex_char(d: nat) -> char {
    if d < 10 {
        (48 + d) as char
    } else {
        (55 + d) as char
    }
}

/// The last `n` hexadecimal digits of `v`, uppercase, most significant first, padded with
/// zeros.
pub open spec fn hex_text(v: nat, n: nat) -> Seq<char>
    decreases n,
{
    if n == 0 {
        Seq::empty()
    } else {
        hex_text(v / 16, (n - 1) as nat).push(hex_char(v % 16))
    }
}

/// The canonical text form of a GUID, as in `6BA7B810-9DAD-11D1-80B4-00C04FD430C8`.
pub open spec fn canonical_text(g: Guid) -> Seq<char> {
    let b = g.data4@;
    hex_text(g.data1 as nat, 8) + "-"@ + hex_text(g.data2 as nat, 4) + "-"@ + hex_text(g.data3 as nat, 4)
        + "-"@ + hex_text(b[0] as nat, 2) + hex_text(b[1] as nat, 2) + "-"@ + hex_text(b[2] as nat, 2)
        + hex_text(b[3] as nat, 2) + hex_text(b[4] as nat, 2) + hex_text(b[5] as nat, 2)
        + hex_text(b[6] as nat, 2) + hex_text(b[7] as nat, 2)
}

/// The hexadecimal text of bytes 2 to `i` of a GUID's last field.
pub open spec fn tail_text(b: Seq<u8>, i: int) -> Seq<char>
    decreases i,
{
    if i <= 2 {
        Seq::empty()
    } else {
        tail_text(b, i - 1) + hex_text(b[i - 1] as nat, 2)
    }
}

proof fn lemma_hex_char(d: nat)
    requires
        d < 16,
    ensures
        is_hex_digit(hex_char(d)),
        digit_value(hex_char(d), 16) == Some(d),
{
    let c = hex_char(d);
    if d < 10 {
        assert(c as u32 == 48 + d);
    } else {
        assert(c as u32 == 55 + d);
    }
}

proof fn lemma_mod_split(v: nat, p: nat)
    requires
        p > 0,
    ensures
        ((v / 16) % p) * 16 + v % 16 == v % (16 * p),
{
    let q = v / 16;
    let r = v % 16;
    let k = q / p;
    let s = q % p;
    assert(v == 16 * q + r);
    assert(q == p * k + s) by (nonlinear_arith)
        requires
            p > 0,
            k == q / p,
            s == q % p,
    ;
    assert(v == k * (16 * p) + (16 * s + r)) by (nonlinear_arith)
        requires
            v == 16 * q + r,
            q == p * k + s,
    ;
    assert(0 <= 16 * s + r < 16 * p) by (nonlinear_arith)
        requires
            0 <= s < p,
            0 <= r < 16,
    ;
    vstd::arithmetic::div_mod::lemma_fundamental_div_mod_converse(v as int, (16 * p) as int, k as int, (16 * s + r) as int);
}

proof fn lemma_pow16_positive(n: nat)
    ensures
        pow16(n) > 0,
    decreases n,
{
    if n > 0 {
        lemma_pow16_positive((n - 1) as nat);
    }
}

proof fn lemma_hex_text(v: nat, n: nat)
    ensures
        hex_text(v, n).len() == n,
        hex_digits_of(hex_text(v, n)) == hex_text(v, n),
        digits_number(hex_text(v, n), 16) == v % pow16(n),
    decreases n,
{
    reveal(Seq::filter);
    if n > 0 {
        lemma_hex_text(v / 16, (n - 1) as nat);
        let s = hex_text(v / 16, (n - 1) as nat);
        let c = hex_char(v % 16);
        lemma_hex_char(v % 16);
        assert(s.push(c).drop_last() =~= s);
        lemma_pow16_positive((n - 1) as nat);
        lemma_mod_split(v, pow16((n - 1) as nat));
    } else {
        assert(hex_text(v, n) =~= Seq::<char>::empty());
    }
}

proof fn lemma_hex_digits_concat(a: Seq<char>, b: Seq<char>)
    ensures
        hex_digits_of(a + b) == hex_digits_of(a) + hex_digits_of(b),
    decreases b.len(),
{
    reveal(Seq::filter);
    if b.len() > 0 {
        lemma_hex_digits_concat(a, b.drop_last());
        assert((a + b).drop_last() =~= a + b.drop_last());
        assert((a + b).last() == b.last());
        if is_hex_digit(b.last()) {
            assert(hex_digits_of(a) + hex_digits_of(b) =~= (hex_digits_of(a) + hex_digits_of(b.drop_last())).push(
                b.last(),
            ));
        }
    } else {
        assert(a + b =~= a);
        assert(hex_digits_of(a) + hex_digits_of(b) =~= hex_digits_of(a));
    }
}

proof fn lemma_digits_number_concat(a: Seq<char>, b: Seq<char>)
    ensures
        digits_number(a + b, 16) == digits_number(a, 16) * pow16(b.len()) + digits_number(b, 16),
    decreases b.len(),
{
    if b.len() > 0 {
        lemma_digits_number_concat(a, b.drop_last());
        assert((a + b).drop_last() =~= a + b.drop_last());
        assert((a + b).last() == b.last());
        let x = digits_number(a, 16);
        let y = digits_number(b.drop_last(), 16);
        let p = pow16((b.len() - 1) as nat);
        let d = digit_value(b.last(), 16).unwrap_or(0);
        assert(pow16(b.len()) == 16 * p);
        assert(digits_number(b, 16) == y * 16 + d);
        assert(digits_number(a + b, 16) == digits_number(a + b.drop_last(), 16) * 16 + d);
        assert((x * p + y) * 16 + d == x * (16 * p) + (y * 16 + d)) by (nonlinear_arith);
    } else {
        assert(a + b =~= a);
        assert(pow16(0) == 1);
        assert(digits_number(a, 16) * 1 == digits_number(a, 16));
    }
}

proof fn lemma_dash()
    ensures
        hex_digits_of("-"@) == Seq::<char>::empty(),
        "-"@.len() == 1,
{
    reveal(Seq::filter);
    reveal_strlit("-");
    let dash = "-"@;
    assert(dash.len() == 1 && dash[0] == '-');
    assert(!is_hex_digit('-'));
    assert(dash.drop_last() =~= Seq::<char>::empty());
    assert(dash.last() == '-');
    assert(hex_digits_of(dash.drop_last()) =~= Seq::<char>::empty());
}

proof fn lemma_append_field(prefix: Seq<char>, v: nat, n: nat)
    ensures
        hex_digits_of(prefix + hex_text(v, n)).len() == hex_digits_of(prefix).len() + n,
        digits_number(hex_digits_of(prefix + hex_text(v, n)), 16) == digits_number(hex_digits_of(prefix), 16)
            * pow16(n) + v % pow16(n),
{
    lemma_hex_digits_concat(prefix, hex_text(v, n));
    lemma_hex_text(v, n);
    lemma_digits_number_concat(hex_digits_of(prefix), hex_text(v, n));
}

proof fn lemma_append_dash(prefix: Seq<char>)
    ensures
        hex_digits_of(prefix + "-"@) == hex_digits_of(prefix),
{
    lemma_hex_digits_concat(prefix, "-"@);
    lemma_dash();
    assert(hex_digits_of(prefix) + Seq::<char>::empty() =~= hex_digits_of(prefix));
}

/// The canonical text of a GUID reads back, as a manifest `guid` attribute, as the GUID's
/// canonical value: parsing what `to_canonical_string` writes with `parse_guid` gives what
/// `to_u128` gives.
pub proof fn law_canonical_text_parses_back(g: Guid)
    ensures
        manifest_guid(canonical_text(g)) == Some(guid_value(g) as nat),
{
    let b = g.data4@;
    let dash = "-"@;
    let c0 = Seq::<char>::empty();
    let c1 = c0 + hex_text(g.data1 as nat, 8);
    assert(c1 =~= hex_text(g.data1 as nat, 8));
    let c2 = c1 + dash;
    let c3 = c2 + hex_text(g.data2 as nat, 4);
    let c4 = c3 + dash;
    let c5 = c4 + hex_text(g.data3 as nat, 4);
    let c6 = c5 + dash;
    let c7 = c6 + hex_text(b[0] as nat, 2);
    let c8 = c7 + hex_text(b[1] as nat, 2);
    let c9 = c8 + dash;
    let c10 = c9 + hex_text(b[2] as nat, 2);
    let c11 = c10 + hex_text(b[3] as nat, 2);
    let c12 = c11 + hex_text(b[4] as nat, 2);
    let c13 = c12 + hex_text(b[5] as nat, 2);
    let c14 = c13 + hex_text(b[6] as nat, 2);
    let c15 = c14 + hex_text(b[7] as nat, 2);
    assert(c15 == canonical_text(g));

    reveal(Seq::filter);
    assert(hex_digits_of(c0) =~= Seq::<char>::empty());
    lemma_append_field(c0, g.data1 as nat, 8);
    lemma_append_dash(c1);
    lemma_append_field(c2, g.data2 as nat, 4);
    lemma_append_dash(c3);
    lemma_append_field(c4, g.data3 as nat, 4);
    lemma_append_dash(c5);
    lemma_append_field(c6, b[0] as nat, 2);
    lemma_append_field(c7, b[1] as nat, 2);
    lemma_append_dash(c8);
    lemma_append_field(c9, b[2] as nat, 2);
    lemma_append_field(c10, b[3] as nat, 2);
    lemma_append_field(c11, b[4] as nat, 2);
    lemma_append_field(c12, b[5] as nat, 2);
    lemma_append_field(c13, b[6] as nat, 2);
    lemma_append_field(c14, b[7] as nat, 2);

    reveal_with_fuel(pow16, 9);
    assert(pow16(2) == 256);
    assert(pow16(4) == 65536);
    assert(pow16(8) == 0x1_0000_0000);
    let d1 = g.data1;
    let d2 = g.data2;
    let d3 = g.data3;
    let (b0, b1, b2, b3, b4, b5, b6, b7) = (b[0], b[1], b[2], b[3], b[4], b[5], b[6], b[7]);
    vstd::arithmetic::div_mod::lemma_small_mod(d1 as nat, 0x1_0000_0000);
    vstd::arithmetic::div_mod::lemma_small_mod(d2 as nat, 65536);
    vstd::arithmetic::div_mod::lemma_small_mod(d3 as nat, 65536);
    vstd::arithmetic::div_mod::lemma_small_mod(b0 as nat, 256);
    vstd::arithmetic::div_mod::lemma_small_mod(b1 as nat, 256);
    vstd::arithmetic::div_mod::lemma_small_mod(b2 as nat, 256);
    vstd::arithmetic::div_mod::lemma_small_mod(b3 as nat, 256);
    vstd::arithmetic::div_mod::lemma_small_mod(b4 as nat, 256);
    vstd::arithmetic::div_mod::lemma_small_mod(b5 as nat, 256);
    vstd::arithmetic::div_mod::lemma_small_mod(b6 as nat, 256);
    vstd::arithmetic::div_mod::lemma_small_mod(b7 as nat, 256);
    let n1 = digits_number(hex_digits_of(c1), 16);
    let n3 = digits_number(hex_digits_of(c3), 16);
    let n5 = digits_number(hex_digits_of(c5), 16);
    let n7 = digits_number(hex_digits_of(c7), 16);
    let n8 = digits_number(hex_digits_of(c8), 16);
    let n10 = digits_number(hex_digits_of(c10), 16);
    let n11 = digits_number(hex_digits_of(c11), 16);
    let n12 = digits_number(hex_digits_of(c12), 16);
    let n13 = digits_number(hex_digits_of(c13), 16);
    let n14 = digits_number(hex_digits_of(c14), 16);
    let n15 = digits_number(hex_digits_of(c15), 16);
    let z = digits_number(hex_digits_of(c0), 16);
    assert(z == 0);
    assert(n1 == z * 0x1_0000_0000 + d1) by (nonlinear_arith)
        requires
            n1 == z * pow16(8) + d1 as nat % pow16(8),
            pow16(8) == 0x1_0000_0000,
            d1 as nat % 0x1_0000_0000 == d1,
    ;
    assert(n3 == n1 * 65536 + d2) by (nonlinear_arith)
        requires
            n3 == n1 * pow16(4) + d2 as nat % pow16(4),
            pow16(4) == 65536,
            d2 as nat % 65536 == d2,
    ;
    assert(n5 == n3 * 65536 + d3) by (nonlinear_arith)
        requires
            n5 == n3 * pow16(4) + d3 as nat % pow16(4),
            pow16(4) == 65536,
            d3 as nat % 65536 == d3,
    ;
    assert(n7 == n5 * 256 + b0) by (nonlinear_arith)
        requires
            n7 == n5 * pow16(2) + b0 as nat % pow16(2),
            pow16(2) == 256,
            b0 as nat % 256 == b0,
    ;
    assert(n8 == n7 * 256 + b1) by (nonlinear_arith)
        requires
            n8 == n7 * pow16(2) + b1 as nat % pow16(2),
            pow16(2) == 256,
            b1 as nat % 256 == b1,
    ;
    assert(n10 == n8 * 256 + b2) by (nonlinear_arith)
        requires
            n10 == n8 * pow16(2) + b2 as nat % pow16(2),
            pow16(2) == 256,
            b2 as nat % 256 == b2,
    ;
    assert(n11 == n10 * 256 + b3) by (nonlinear_arith)
        requires
            n11 == n10 * pow16(2) + b3 as nat % pow16(2),
            pow16(2) == 256,
            b3 as nat % 256 == b3,
    ;
    assert(n12 == n11 * 256 + b4) by (nonlinear_arith)
        requires
            n12 == n11 * pow16(2) + b4 as nat % pow16(2),
            pow16(2) == 256,
            b4 as nat % 256 == b4,
    ;
    assert(n13 == n12 * 256 + b5) by (nonlinear_arith)
        requires
            n13 == n12 * pow16(2) + b5 as nat % pow16(2),
            pow16(2) == 256,
            b5 as nat % 256 == b5,
    ;
    assert(n14 == n13 * 256 + b6) by (nonlinear_arith)
        requires
            n14 == n13 * pow16(2) + b6 as nat % pow16(2),
            pow16(2) == 256,
            b6 as nat % 256 == b6,
    ;
    assert(n15 == n14 * 256 + b7) by (nonlinear_arith)
        requires
            n15 == n14 * pow16(2) + b7 as nat % pow16(2),
            pow16(2) == 256,
            b7 as nat % 256 == b7,
    ;
    let hi: int = d1 * 0x1_0000_0000_0000_0000_0000_0000 + d2 * 0x1_0000_0000_0000_0000_0000 + d3
        * 0x1_0000_0000_0000_0000;
    let low = be_u64(b);
    assert(low == (b0 as u64) << 56 | (b1 as u64) << 48 | (b2 as u64) << 40 | (b3 as u64) << 32
        | (b4 as u64) << 24 | (b5 as u64) << 16 | (b6 as u64) << 8 | (b7 as u64));
    assert(low == b0 * 0x100_0000_0000_0000 + b1 * 0x1_0000_0000_0000 + b2 * 0x100_0000_0000 + b3
        * 0x1_0000_0000 + b4 * 0x100_0000 + b5 * 0x1_0000 + b6 * 0x100 + b7) by (bit_vector)
        requires
            low == (b0 as u64) << 56 | (b1 as u64) << 48 | (b2 as u64) << 40 | (b3 as u64) << 32
                | (b4 as u64) << 24 | (b5 as u64) << 16 | (b6 as u64) << 8 | (b7 as u64),
    ;
    let (e1, e2, e3) = (d1 as int, d2 as int, d3 as int);
    let (f0, f1, f2, f3) = (b0 as int, b1 as int, b2 as int, b3 as int);
    let (f4, f5, f6, f7) = (b4 as int, b5 as int, b6 as int, b7 as int);
    assert(n5 == e1 * 0x1_0000_0000 + e2 * 0x1_0000 + e3) by (nonlinear_arith)
        requires
            z == 0,
            n1 == z * 0x1_0000_0000 + e1,
            n3 == n1 * 65536 + e2,
            n5 == n3 * 65536 + e3,
    ;
    assert(n8 == n5 * 0x1_0000 + f0 * 0x100 + f1) by (nonlinear_arith)
        requires
            n7 == n5 * 256 + f0,
            n8 == n7 * 256 + f1,
    ;
    assert(n12 == n8 * 0x100_0000 + f2 * 0x1_0000 + f3 * 0x100 + f4) by (nonlinear_arith)
        requires
            n10 == n8 * 256 + f2,
            n11 == n10 * 256 + f3,
            n12 == n11 * 256 + f4,
    ;
    assert(n15 == n12 * 0x100_0000 + f5 * 0x1_0000 + f6 * 0x100 + f7) by (nonlinear_arith)
        requires
            n13 == n12 * 256 + f5,
            n14 == n13 * 256 + f6,
            n15 == n14 * 256 + f7,
    ;
    assert(n15 == hi + low) by (nonlinear_arith)
        requires
            n5 == e1 * 0x1_0000_0000 + e2 * 0x1_0000 + e3,
            n8 == n5 * 0x1_0000 + f0 * 0x100 + f1,
            n12 == n8 * 0x100_0000 + f2 * 0x1_0000 + f3 * 0x100 + f4,
            n15 == n12 * 0x100_0000 + f5 * 0x1_0000 + f6 * 0x100 + f7,
            hi == e1 * 0x1_0000_0000_0000_0000_0000_0000 + e2 * 0x1_0000_0000_0000_0000_0000 + e3
                * 0x1_0000_0000_0000_0000,
            low == f0 * 0x100_0000_0000_0000 + f1 * 0x1_0000_0000_0000 + f2 * 0x100_0000_0000 + f3
                * 0x1_0000_0000 + f4 * 0x100_0000 + f5 * 0x1_0000 + f6 * 0x100 + f7,
    ;
    assert(hex_digits_of(c15).len() == 32);
    assert(((d1 as u128) << 96 | (d2 as u128) << 80 | (d3 as u128) << 64 | low as u128) == d1
        * 0x1_0000_0000_0000_0000_0000_0000 + d2 * 0x1_0000_0000_0000_0000_0000 + d3
        * 0x1_0000_0000_0000_0000 + low) by (bit_vector);
}

/// Appends the last `n` hexadecimal digits of `v`, uppercase and zero-padded.
fn push_hex(s: &mut String, v: u64, n: usize)
    ensures
        final(s)@ == old(s)@ + hex_text(v as nat, n as nat),
    decreases n,
{
    if n > 0 {
        push_hex(s, v / 16, n - 1);
        let d = (v % 16) as u8;
        let c: char = if d < 10 { (48 + d) as char } else { (55 + d) as char };
        push_char(s, c);
    }
}

impl Default for Guid {
    /// The all-zero GUID.
    fn default() -> (g: Guid)
        ensures
            is_guid_of(g, 0),
            guid_value(g) == 0,
    {
        Guid::from_u128(0)
    }
}

impl Guid {
    /// Creates a `Guid` from its canonical `u128` value.
    pub fn from_u128(uuid: u128) -> (g: Guid)
        ensures
            is_guid_of(g, uuid),
            guid_value(g) == uuid,
    {
        let low = uuid as u64;
        let data4: [u8; 8] = [
            ((low >> 56u64) & 0xff) as u8,
            ((low >> 48u64) & 0xff) as u8,
            ((low >> 40u64) & 0xff) as u8,
            ((low >> 32u64) & 0xff) as u8,
            ((low >> 24u64) & 0xff) as u8,
            ((low >> 16u64) & 0xff) as u8,
            ((low >> 8u64) & 0xff) as u8,
            ((low >> 0u64) & 0xff) as u8,
        ];
        let g = Guid {
            data1: (uuid >> 96u128) as u32,
            data2: ((uuid >> 80u128) & 0xffff) as u16,
            data3: ((uuid >> 64u128) & 0xffff) as u16,
            data4,
        };
        proof {
            assert(g.data4@ =~= seq![be_byte(low, 0), be_byte(low, 1), be_byte(low, 2),
                be_byte(low, 3), be_byte(low, 4), be_byte(low, 5), be_byte(low, 6), be_byte(low, 7)]);
            lemma_be_bytes_roundtrip(low);
            let d1 = g.data1;
            let d2 = g.data2;
            let d3 = g.data3;
            assert((uuid >> 96u128) as u32 == d1);
            assert(((d1 as u128) << 96 | (d2 as u128) << 80 | (d3 as u128) << 64
                | low as u128) == uuid) by (bit_vector)
                requires
                    d1 == (uuid >> 96u128) as u32,
                    d2 == ((uuid >> 80u128) & 0xffff) as u16,
                    d3 == ((uuid >> 64u128) & 0xffff) as u16,
                    low == uuid as u64,
            ;
        }
        g
    }

    /// Converts a `Guid` back to its canonical `u128` value.
    pub fn to_u128(&self) -> (v: u128)
        ensures
            v == guid_value(*self),
    {
        let d = &self.data4;
        let low: u64 = (d[0] as u64) << 56u64 | (d[1] as u64) << 48u64 | (d[2] as u64) << 40u64
            | (d[3] as u64) << 32u64 | (d[4] as u64) << 24u64 | (d[5] as u64) << 16u64
            | (d[6] as u64) << 8u64 | (d[7] as u64);
        (self.data1 as u128) << 96u128 | (self.data2 as u128) << 80u128
            | (self.data3 as u128) << 64u128 | low as u128
    }

    /// The canonical text form, as in `6BA7B810-9DAD-11D1-80B4-00C04FD430C8`: the fields in
    /// uppercase hexadecimal, each padded to its full width.
    pub fn to_canonical_string(&self) -> (s: String)
        ensures
            s@ == canonical_text(*self),
    {
        proof {
            reveal_strlit("-");
        }
        let ghost b = self.data4@;
        let mut s = String::new();
        push_hex(&mut s, self.data1 as u64, 8);
        push_char(&mut s, '-');
        push_hex(&mut s, self.data2 as u64, 4);
        push_char(&mut s, '-');
        push_hex(&mut s, self.data3 as u64, 4);
        push_char(&mut s, '-');
        push_hex(&mut s, self.data4[0] as u64, 2);
        push_hex(&mut s, self.data4[1] as u64, 2);
        push_char(&mut s, '-');
        let ghost head = s@;
        assert(head =~= hex_text(self.data1 as nat, 8) + "-"@ + hex_text(self.data2 as nat, 4) + "-"@
            + hex_text(self.data3 as nat, 4) + "-"@ + hex_text(b[0] as nat, 2) + hex_text(b[1] as nat, 2)
            + "-"@);
        let mut i: usize = 2;
        while i < 8
            invariant
                2 <= i <= 8,
                self.data4@ == b,
                b.len() == 8,
                s@ =~= head + tail_text(b, i as int),
            decreases 8 - i,
        {
            push_hex(&mut s, self.data4[i] as u64, 2);
            i = i + 1;
        }
        proof {
            reveal_with_fuel(tail_text, 7);
            assert(s@ =~= canonical_text(*self));
        }
        s
    }

    /// Creates a `Guid` from its individual fields.
    pub fn from_values(data1: u32, data2: u16, data3: u16, data4: [u8; 8]) -> (g: Guid)
        ensures
            g == (Guid { data1, data2, data3, data4 }),
    {
        Guid { data1, data2, data3, data4 }
    }
}

/// The GUID whose canonical value is `v`.
pub open spec fn guid_of(v: u128) -> Guid {
    choose|g: Guid| is_guid_of(g, v)
}

/// Only one GUID has a given canonical value.
pub proof fn lemma_guid_of(v: u128, g: Guid)
    requires
        is_guid_of(g, v),
    ensures
        guid_of(v) == g,
{
    broadcast use vstd::array::group_array_axioms;

    let h = guid_of(v);
    assert(is_guid_of(h, v));
    assert forall|i: int| 0 <= i < 8 implies h.data4[i] == g.data4[i] by {
        assert(h.data4@[i] == g.data4@[i]);
    }
    assert(h.data4 =~= g.data4);
}

impl From<u128> for Guid {
    /// The GUID whose canonical value is `value`.
    fn from(value: u128) -> (g: Guid)
        ensures
            is_guid_of(g, value),
    {
        let g = Guid::from_u128(value);
        proof {
            lemma_guid_of(value, g);
        }
        g
    }
}

impl vstd::std_specs::convert::FromSpecImpl<u128> for Guid {
    open spec fn obeys_from_spec() -> bool {
        true
    }

    open spec fn from_spec(v: u128) -> Guid {
        guid_of(v)
    }
}

impl From<Guid> for u128 {
    /// The canonical value of `value`.
    fn from(value: Guid) -> (v: u128)
        ensures
            v == guid_value(value),
    {
        value.to_u128()
    }
}

impl vstd::std_specs::convert::FromSpecImpl<Guid> for u128 {
    open spec fn obeys_from_spec() -> bool {
        true
    }

    open spec fn from_spec(g: Guid) -> u128 {
        guid_value(g)
    }
}

/// Reading a GUID's canonical value back gives the GUID: every GUID is the one its
/// canonical `u128` value describes.
pub proof fn lemma_guid_value_describes_guid(g: Guid)
    ensures
        is_guid_of(g, guid_value(g)),
{
    let v = guid_value(g);
    let low = be_u64(g.data4@);
    let d1 = g.data1;
    let d2 = g.data2;
    let d3 = g.data3;
    assert(v == ((d1 as u128) << 96 | (d2 as u128) << 80 | (d3 as u128) << 64 | low as u128));
    assert({
        let w = (d1 as u128) << 96 | (d2 as u128) << 80 | (d3 as u128) << 64 | low as u128;
        &&& (w >> 96u128) as u32 == d1
        &&& ((w >> 80u128) & 0xffff) as u16 == d2
        &&& ((w >> 64u128) & 0xffff) as u16 == d3
        &&& w as u64 == low
    }) by (bit_vector);
    let b = g.data4@;
    let (b0, b1, b2, b3, b4, b5, b6, b7) = (b[0], b[1], b[2], b[3], b[4], b[5], b[6], b[7]);
    assert({
        let w = (b0 as u64) << 56 | (b1 as u64) << 48 | (b2 as u64) << 40 | (b3 as u64) << 32
            | (b4 as u64) << 24 | (b5 as u64) << 16 | (b6 as u64) << 8 | (b7 as u64);
        &&& ((w >> 56u64) & 0xff) as u8 == b0
        &&& ((w >> 48u64) & 0xff) as u8 == b1
        &&& ((w >> 40u64) & 0xff) as u8 == b2
        &&& ((w >> 32u64) & 0xff) as u8 == b3
        &&& ((w >> 24u64) & 0xff) as u8 == b4
        &&& ((w >> 16u64) & 0xff) as u8 == b5
        &&& ((w >> 8u64) & 0xff) as u8 == b6
        &&& ((w >> 0u64) & 0xff) as u8 == b7
    }) by (bit_vector);
    assert forall|i: int| 0 <= i < 8 implies #[trigger] g.data4@[i] == be_byte(v as u64, i) by {
        assert(v as u64 == low);
    }
}

/// Converting a `u128` to a GUID and back gives the same value.
pub proof fn lemma_guid_u128_roundtrip(v: u128, g: Guid)
    requires
        is_guid_of(g, v),
    ensures
        guid_value(g) == v,
{
    let low = v as u64;
    assert(g.data4@ =~= seq![be_byte(low, 0), be_byte(low, 1), be_byte(low, 2),
        be_byte(low, 3), be_byte(low, 4), be_byte(low, 5), be_byte(low, 6), be_byte(low, 7)]) by {
        assert(g.data4@[0] == be_byte(low, 0));
        assert(g.data4@[1] == be_byte(low, 1));
        assert(g.data4@[2] == be_byte(low, 2));
        assert(g.data4@[3] == be_byte(low, 3));
        assert(g.data4@[4] == be_byte(low, 4));
        assert(g.data4@[5] == be_byte(low, 5));
        assert(g.data4@[6] == be_byte(low, 6));
        assert(g.data4@[7] == be_byte(low, 7));
    }
    lemma_be_bytes_roundtrip(low);
    let d1 = g.data1;
    let d2 = g.data2;
    let d3 = g.data3;
    assert(((d1 as u128) << 96 | (d2 as u128) << 80 | (d3 as u128) << 64 | low as u128) == v)
        by (bit_vector)
        requires
            d1 == (v >> 96) as u32,
            d2 == ((v >> 80) & 0xffff) as u16,
            d3 == ((v >> 64) & 0xffff) as u16,
            low == v as u64,
    ;
}

/// Conversions between a GUID and its canonical value undo each other, in both directions.
pub proof fn law_guid_conversions_round_trip(g: Guid, v: u128)
    ensures
        guid_of(guid_value(g)) == g,
        guid_value(guid_of(v)) == v,
{
    lemma_guid_value_describes_guid(g);
    lemma_guid_of(guid_value(g), g);
    let low = v as u64;
    let h = Guid {
        data1: (v >> 96) as u32,
        data2: ((v >> 80) & 0xffff) as u16,
        data3: ((v >> 64) & 0xffff) as u16,
        data4: [
            be_byte(low, 0),
            be_byte(low, 1),
            be_byte(low, 2),
            be_byte(low, 3),
            be_byte(low, 4),
            be_byte(low, 5),
            be_byte(low, 6),
            be_byte(low, 7),
        ],
    };
    assert(is_guid_of(h, v));
    lemma_guid_of(v, h);
    lemma_guid_u128_roundtrip(v, h);
}

} // verus!
