//! Integer and GUID parsing for manifest attribute values.

use vstd::prelude::*;

use vstd::string::StringExecFns;

use crate::text::{chars_of, debug_quote, debug_quoted, push_str, string_of, trim_chars, trimmed};

verus! {

/// The value of a digit character in the given radix (10 or 16), if it is one.
pub open spec fn digit_value(c: char, radix: nat) -> Option<nat> {
    if '0' <= c <= '9' {
        Some((c as u32 - '0' as u32) as nat)
    } else if radix == 16 && 'a' <= c <= 'f' {
        Some((c as u32 - 'a' as u32 + 10) as nat)
    } else if radix == 16 && 'A' <= c <= 'F' {
        Some((c as u32 - 'A' as u32 + 10) as nat)
    } else {
        None
    }
}

/// Whether every character of `cs` is a digit in the radix.
pub open spec fn all_digits(cs: Seq<char>, radix: nat) -> bool {
    forall|i: int| 0 <= i < cs.len() ==> (#[trigger] digit_value(cs[i], radix)) is Some
}

/// The number written by the digits `cs`, most significant first.
pub open spec fn digits_number(cs: Seq<char>, radix: nat) -> nat
    decreases cs.len(),
{
    if cs.len() == 0 {
        0
    } else {
        digits_number(cs.drop_last(), radix) * radix + digit_value(cs.last(), radix).unwrap_or(0)
    }
}

/// The number an unsigned integer literal denotes as `u64::from_str_radix` reads it: an
/// optional `+` and at least one digit. `None` if the text is not such a literal.
pub open spec fn unsigned_literal(cs: Seq<char>, radix: nat) -> Option<nat> {
    let body = if cs.len() > 0 && cs[0] == '+' { cs.drop_first() } else { cs };
    if body.len() > 0 && all_digits(body, radix) {
        Some(digits_number(body, radix))
    } else {
        None
    }
}

/// Whether `t` starts with a `0x` or `0X` prefix.
pub open spec fn has_hex_prefix(t: Seq<char>) -> bool {
    t.len() >= 2 && t[0] == '0' && (t[1] == 'x' || t[1] == 'X')
}

/// The number a manifest integer attribute denotes: after trimming white space, either a
/// `0x`/`0X`-prefixed hexadecimal literal or a decimal literal.
pub open spec fn manifest_int(s: Seq<char>) -> Option<nat> {
    let t = trimmed(s);
    if has_hex_prefix(t) {
        unsigned_literal(t.skip(2), 16)
    } else {
        unsigned_literal(t, 10)
    }
}

/// Why an integer attribute was rejected.
#[derive(Clone, Copy, Debug, PartialEq, Eq, Structural)]
pub enum IntError {
    /// The text is not an integer literal, or its value does not fit in a `u64`.
    Invalid,
    /// The value fits in a `u64` but exceeds the field's maximum.
    OutOfRange,
}

proof fn lemma_digits_number_prefix(cs: Seq<char>, radix: nat, i: int)
    requires
        0 <= i <= cs.len(),
        radix >= 1,
    ensures
        digits_number(cs.take(i), radix) <= digits_number(cs, radix),
    decreases cs.len(),
{
    if i < cs.len() {
        assert(cs.drop_last().take(i) =~= cs.take(i));
        lemma_digits_number_prefix(cs.drop_last(), radix, i);
        let a = digits_number(cs.drop_last(), radix);
        assert(a * radix >= a) by (nonlinear_arith)
            requires
                radix >= 1,
        ;
    } else {
        assert(cs.take(i) =~= cs);
    }
}

/// Reads the digits of `cs` in the radix. `None` if there are none, one is not a digit, or
/// the number does not fit in a `u64`.
pub fn parse_digits(cs: &[char], radix: u64) -> (res: Option<u64>)
    requires
        radix == 10 || radix == 16,
    ensures
        res matches Some(v) ==> cs@.len() > 0 && all_digits(cs@, radix as nat) && v
            == digits_number(cs@, radix as nat),
        res is None ==> !(cs@.len() > 0 && all_digits(cs@, radix as nat) && digits_number(
            cs@,
            radix as nat,
        ) <= u64::MAX),
{
    if cs.len() == 0 {
        return None;
    }
    let mut acc: u64 = 0;
    let mut i: usize = 0;
    while i < cs.len()
        invariant
            i <= cs@.len(),
            radix == 10 || radix == 16,
            all_digits(cs@.take(i as int), radix as nat),
            acc == digits_number(cs@.take(i as int), radix as nat),
        decreases cs.len() - i,
    {
        let c = cs[i];
        let d: u64 = if '0' <= c && c <= '9' {
            (c as u32 - '0' as u32) as u64
        } else if radix == 16 && 'a' <= c && c <= 'f' {
            (c as u32 - 'a' as u32 + 10) as u64
        } else if radix == 16 && 'A' <= c && c <= 'F' {
            (c as u32 - 'A' as u32 + 10) as u64
        } else {
            proof {
                assert(digit_value(cs@[i as int], radix as nat) is None);
            }
            return None;
        };
        assert(cs@.take(i + 1).drop_last() =~= cs@.take(i as int));
        if acc > (u64::MAX - d) / radix {
            proof {
                assert(acc * radix + d > u64::MAX) by (nonlinear_arith)
                    requires
                        acc > (u64::MAX - d) as int / radix as int,
                        radix > 0,
                        d <= u64::MAX,
                ;
                lemma_digits_number_prefix(cs@, radix as nat, i + 1);
            }
            return None;
        }
        proof {
            assert(acc * radix + d <= u64::MAX) by (nonlinear_arith)
                requires
                    acc <= (u64::MAX - d) as int / radix as int,
                    radix > 0,
                    d <= u64::MAX,
            ;
        }
        acc = acc * radix + d;
        i = i + 1;
    }
    assert(cs@.take(i as int) =~= cs@);
    Some(acc)
}

/// Reads an unsigned literal as `u64::from_str_radix` does: an optional `+`, then digits.
fn parse_unsigned(cs: &[char], radix: u64) -> (res: Option<u64>)
    requires
        radix == 10 || radix == 16,
    ensures
        res matches Some(v) ==> unsigned_literal(cs@, radix as nat) == Some(v as nat),
        res is None ==> !(unsigned_literal(cs@, radix as nat) matches Some(n) && n <= u64::MAX),
{
    if cs.len() > 0 && cs[0] == '+' {
        let body = slice_from(cs, 1);
        parse_digits(body.as_slice(), radix)
    } else {
        parse_digits(cs, radix)
    }
}

/// The characters of `cs` from position `start` on.
pub fn slice_from(cs: &[char], start: usize) -> (rest: Vec<char>)
    requires
        start <= cs@.len(),
    ensures
        rest@ == cs@.skip(start as int),
{
    let mut rest: Vec<char> = Vec::new();
    let mut i = start;
    while i < cs.len()
        invariant
            start <= i <= cs@.len(),
            rest@ =~= cs@.subrange(start as int, i as int),
        decreases cs.len() - i,
    {
        rest.push(cs[i]);
        i = i + 1;
    }
    rest
}

/// Parses an integer attribute that may be decimal or `0x`-prefixed hexadecimal, surrounded
/// by white space, and checks it against the field's maximum `max`.
pub fn parse_int(s: &str, max: u64) -> (res: Result<u64, IntError>)
    ensures
        res matches Ok(v) ==> manifest_int(s@) == Some(v as nat) && v <= max,
        res == Err::<u64, IntError>(IntError::OutOfRange) ==> (manifest_int(s@) matches Some(n)
            && max < n <= u64::MAX),
        res == Err::<u64, IntError>(IntError::Invalid) ==> !(manifest_int(s@) matches Some(n) && n
            <= u64::MAX),
{
    let cs = chars_of(s);
    let t = trim_chars(cs.as_slice());
    let raw = if t.len() >= 2 && t[0] == '0' && (t[1] == 'x' || t[1] == 'X') {
        let hex = slice_from(t.as_slice(), 2);
        parse_unsigned(hex.as_slice(), 16)
    } else {
        parse_unsigned(t.as_slice(), 10)
    };
    match raw {
        Some(v) => {
            if v <= max {
                Ok(v)
            } else {
                Err(IntError::OutOfRange)
            }
        },
        None => Err(IntError::Invalid),
    }
}

/// The text of the error that `u64::from_str_radix` reports for the digits `body` from
/// position `k` on: the first character that is not a digit is reported as such, unless the
/// number overflows a `u64` first.
pub open spec fn digits_error_at(body: Seq<char>, radix: nat, k: nat) -> Seq<char>
    decreases body.len() - k,
{
    if k >= body.len() {
        seq![]
    } else if digit_value(body[k as int], radix) is None {
        "invalid digit found in string"@
    } else if digits_number(body.take(k as int + 1), radix) > u64::MAX {
        "number too large to fit in target type"@
    } else {
        digits_error_at(body, radix, k + 1)
    }
}

/// The text of the error that `u64::from_str_radix` reports for a literal it rejects: empty
/// text, a lone sign, or the first bad digit or overflow after an optional `+`.
pub open spec fn from_str_radix_error(cs: Seq<char>, radix: nat) -> Seq<char> {
    if cs.len() == 0 {
        "cannot parse integer from empty string"@
    } else if cs[0] == '+' {
        if cs.len() == 1 {
            "invalid digit found in string"@
        } else {
            digits_error_at(cs.drop_first(), radix, 0)
        }
    } else {
        digits_error_at(cs, radix, 0)
    }
}

/// The reason a manifest integer attribute that does not fit `max` is rejected, after
/// trimming: a hexadecimal or decimal literal that does not read as a `u64`, with the reason,
/// or a value above `max`.
pub open spec fn int_error_text(s: Seq<char>, max: nat) -> Seq<char> {
    let t = trimmed(s);
    let (digits, radix) = if has_hex_prefix(t) { (t.skip(2), 16nat) } else { (t, 10nat) };
    if unsigned_literal(digits, radix) matches Some(n) && n <= u64::MAX {
        "value "@ + debug_quoted(t) + " out of range: out of range integral type conversion attempted"@
    } else if has_hex_prefix(t) {
        "invalid hex "@ + debug_quoted(t) + ": "@ + from_str_radix_error(digits, radix)
    } else {
        "invalid integer "@ + debug_quoted(t) + ": "@ + from_str_radix_error(digits, radix)
    }
}

/// Describes why the digits `cs` do not read as a `u64`.
fn describe_digits_error(cs: &[char], radix: u64) -> (m: String)
    requires
        radix == 10 || radix == 16,
        cs@.len() > 0,
        !(all_digits(cs@, radix as nat) && digits_number(cs@, radix as nat) <= u64::MAX),
    ensures
        m@ == digits_error_at(cs@, radix as nat, 0),
{
    let mut acc: u64 = 0;
    let mut i: usize = 0;
    while i < cs.len()
        invariant
            i <= cs@.len(),
            radix == 10 || radix == 16,
            all_digits(cs@.take(i as int), radix as nat),
            acc == digits_number(cs@.take(i as int), radix as nat),
            digits_error_at(cs@, radix as nat, 0) == digits_error_at(cs@, radix as nat, i as nat),
        decreases cs.len() - i,
    {
        let c = cs[i];
        let d: u64 = if '0' <= c && c <= '9' {
            (c as u32 - '0' as u32) as u64
        } else if radix == 16 && 'a' <= c && c <= 'f' {
            (c as u32 - 'a' as u32 + 10) as u64
        } else if radix == 16 && 'A' <= c && c <= 'F' {
            (c as u32 - 'A' as u32 + 10) as u64
        } else {
            proof {
                assert(digit_value(cs@[i as int], radix as nat) is None);
            }
            return String::from_str("invalid digit found in string");
        };
        assert(cs@.take(i + 1).drop_last() =~= cs@.take(i as int));
        if acc > (u64::MAX - d) / radix {
            proof {
                assert(acc * radix + d > u64::MAX) by (nonlinear_arith)
                    requires
                        acc > (u64::MAX - d) as int / radix as int,
                        radix > 0,
                        d <= u64::MAX,
                ;
            }
            return String::from_str("number too large to fit in target type");
        }
        proof {
            assert(acc * radix + d <= u64::MAX) by (nonlinear_arith)
                requires
                    acc <= (u64::MAX - d) as int / radix as int,
                    radix > 0,
                    d <= u64::MAX,
            ;
        }
        acc = acc * radix + d;
        i = i + 1;
    }
    assert(cs@.take(i as int) =~= cs@);
    String::new()
}

/// Describes why a literal does not read as a `u64` by `u64::from_str_radix`.
fn describe_literal_error(cs: &[char], radix: u64) -> (m: String)
    requires
        radix == 10 || radix == 16,
        !(unsigned_literal(cs@, radix as nat) matches Some(n) && n <= u64::MAX),
    ensures
        m@ == from_str_radix_error(cs@, radix as nat),
{
    if cs.len() == 0 {
        return String::from_str("cannot parse integer from empty string");
    }
    if cs[0] == '+' {
        if cs.len() == 1 {
            return String::from_str("invalid digit found in string");
        }
        let body = slice_from(cs, 1);
        assert(body@ == cs@.drop_first());
        describe_digits_error(body.as_slice(), radix)
    } else {
        describe_digits_error(cs, radix)
    }
}

/// Describes why a manifest integer attribute does not fit `max`, as `int_error_text` says.
pub fn describe_int_error(s: &str, max: u64) -> (m: String)
    requires
        !(manifest_int(s@) matches Some(n) && n <= max),
    ensures
        m@ == int_error_text(s@, max as nat),
{
    let cs = chars_of(s);
    let t = trim_chars(cs.as_slice());
    let hex = t.len() >= 2 && t[0] == '0' && (t[1] == 'x' || t[1] == 'X');
    let digits = if hex {
        slice_from(t.as_slice(), 2)
    } else {
        slice_from(t.as_slice(), 0)
    };
    let radix: u64 = if hex { 16 } else { 10 };
    proof {
        assert(t@.skip(0) =~= t@);
    }
    let text = string_of(t.as_slice());
    let q = debug_quote(text.as_str());
    match parse_unsigned(digits.as_slice(), radix) {
        Some(_) => {
            let mut m = String::from_str("value ");
            push_str(&mut m, q.as_str());
            push_str(&mut m, " out of range: out of range integral type conversion attempted");
            m
        },
        None => {
            let mut m = if hex { String::from_str("invalid hex ") } else { String::from_str("invalid integer ") };
            push_str(&mut m, q.as_str());
            push_str(&mut m, ": ");
            let why = describe_literal_error(digits.as_slice(), radix);
            push_str(&mut m, why.as_str());
            m
        },
    }
}

/// Whether a character is an ASCII hexadecimal digit.
pub open spec fn is_hex_digit(c: char) -> bool {
    digit_value(c, 16) is Some
}

/// The ASCII hexadecimal digits of `s`, in order, with every other character dropped.
pub open spec fn hex_digits_of(s: Seq<char>) -> Seq<char> {
    s.filter(|c: char| is_hex_digit(c))
}

/// The GUID value that a manifest `guid` attribute denotes: its 32 hexadecimal digits, read
/// as one number with every other character ignored. `None` unless there are exactly 32.
pub open spec fn manifest_guid(s: Seq<char>) -> Option<nat> {
    let hex = hex_digits_of(s);
    if hex.len() == 32 {
        Some(digits_number(hex, 16))
    } else {
        None
    }
}

/// Sixteen to the power `n`.
pub open spec fn pow16(n: nat) -> nat
    decreases n,
{
    if n == 0 { 1 } else { 16 * pow16((n - 1) as nat) }
}

proof fn lemma_pow16_monotone(a: nat, b: nat)
    requires
        a <= b,
    ensures
        pow16(a) <= pow16(b),
    decreases b,
{
    if a < b {
        lemma_pow16_monotone(a, (b - 1) as nat);
    }
}

proof fn lemma_digits_number_bound(cs: Seq<char>)
    ensures
        digits_number(cs, 16) < pow16(cs.len()),
    decreases cs.len(),
{
    if cs.len() > 0 {
        lemma_digits_number_bound(cs.drop_last());
        let a = digits_number(cs.drop_last(), 16);
        let d = digit_value(cs.last(), 16).unwrap_or(0);
        let p = pow16((cs.len() - 1) as nat);
        assert(a * 16 + d < p * 16) by (nonlinear_arith)
            requires
                a < p,
                d < 16,
        ;
    }
}

/// Counts the hexadecimal digits of a manifest `guid` attribute.
pub fn hex_digit_count(s: &str) -> (n: usize)
    ensures
        n == hex_digits_of(s@).len(),
{
    let cs = chars_of(s);
    let mut n: usize = 0;
    let mut i: usize = 0;
    while i < cs.len()
        invariant
            i <= cs@.len(),
            cs@ == s@,
            n == hex_digits_of(cs@.take(i as int)).len(),
            n <= i,
        decreases cs.len() - i,
    {
        let c = cs[i];
        proof {
            assert(cs@.take(i + 1).drop_last() =~= cs@.take(i as int));
            reveal(Seq::filter);
        }
        if ('0' <= c && c <= '9') || ('a' <= c && c <= 'f') || ('A' <= c && c <= 'F') {
            n = n + 1;
        }
        i = i + 1;
    }
    assert(cs@.take(i as int) =~= cs@);
    n
}

/// Parses a GUID: the 32 hexadecimal digits of `s`, in order, with braces, hyphens and any
/// other characters ignored. `None` unless `s` holds exactly 32 hexadecimal digits.
pub fn parse_guid(s: &str) -> (res: Option<u128>)
    ensures
        res matches Some(v) ==> manifest_guid(s@) == Some(v as nat),
        res is None ==> manifest_guid(s@) is None,
{
    let cs = chars_of(s);
    let mut hex: Vec<char> = Vec::new();
    let mut i: usize = 0;
    while i < cs.len()
        invariant
            i <= cs@.len(),
            cs@ == s@,
            hex@ == hex_digits_of(cs@.take(i as int)),
        decreases cs.len() - i,
    {
        let c = cs[i];
        proof {
            assert(cs@.take(i + 1).drop_last() =~= cs@.take(i as int));
            reveal(Seq::filter);
        }
        if ('0' <= c && c <= '9') || ('a' <= c && c <= 'f') || ('A' <= c && c <= 'F') {
            hex.push(c);
        }
        i = i + 1;
    }
    assert(cs@.take(i as int) =~= cs@);
    if hex.len() != 32 {
        return None;
    }
    let mut acc: u128 = 0;
    let mut j: usize = 0;
    proof {
        reveal_with_fuel(pow16, 33);
        assert(pow16(32) == 0x1_0000_0000_0000_0000_0000_0000_0000_0000nat);
    }
    while j < hex.len()
        invariant
            j <= hex@.len(),
            hex@.len() == 32,
            hex@ == hex_digits_of(s@),
            forall|k: int| 0 <= k < hex@.len() ==> is_hex_digit(#[trigger] hex@[k]),
            acc == digits_number(hex@.take(j as int), 16),
            acc < pow16(j as nat),
            pow16(32) == 0x1_0000_0000_0000_0000_0000_0000_0000_0000nat,
        decreases hex.len() - j,
    {
        let c = hex[j];
        let d: u128 = if '0' <= c && c <= '9' {
            (c as u32 - '0' as u32) as u128
        } else if 'a' <= c && c <= 'f' {
            (c as u32 - 'a' as u32 + 10) as u128
        } else {
            (c as u32 - 'A' as u32 + 10) as u128
        };
        assert(hex@.take(j + 1).drop_last() =~= hex@.take(j as int));
        proof {
            let p = pow16(j as nat);
            lemma_pow16_monotone((j + 1) as nat, 32);
            assert(pow16((j + 1) as nat) == 16 * p);
            assert(acc * 16 + d < p * 16) by (nonlinear_arith)
                requires
                    acc < p,
                    d < 16,
            ;
        }
        acc = acc * 16 + d;
        j = j + 1;
    }
    assert(hex@.take(32) =~= hex@);
    Some(acc)
}


/// Parses a plain decimal literal as `str::parse` reads an unsigned integer (an optional `+`,
/// then digits, no white space) and checks it against `max`.
pub fn parse_decimal(s: &str, max: u64) -> (res: Option<u64>)
    ensures
        res matches Some(v) ==> unsigned_literal(s@, 10) == Some(v as nat) && v <= max,
        res is None ==> !(unsigned_literal(s@, 10) matches Some(n) && n <= max),
{
    let cs = chars_of(s);
    match parse_unsigned(cs.as_slice(), 10) {
        Some(v) => if v <= max {
            Some(v)
        } else {
            None
        },
        None => None,
    }
}

/// The decimal digits of `n`, most significant first, without leading zeros (`"0"` for zero).
pub open spec fn decimal_text(n: nat) -> Seq<char>
    decreases n,
{
    if n < 10 {
        seq![('0' as u32 + n) as char]
    } else {
        decimal_text(n / 10).push(('0' as u32 + n % 10) as char)
    }
}

/// Appends the decimal digits of `n` to `out`.
pub fn push_decimal(out: &mut String, n: u64)
    ensures
        final(out)@ == old(out)@ + decimal_text(n as nat),
    decreases n,
{
    if n >= 10 {
        push_decimal(out, n / 10);
    }
    let d = (n % 10) as u32;
    let c = char_from_digit(d);
    crate::text::push_char(out, c);
}

/// The ASCII character of a decimal digit.
fn char_from_digit(d: u32) -> (c: char)
    requires
        d < 10,
    ensures
        c == ('0' as u32 + d) as char,
{
    match d {
        0 => '0',
        1 => '1',
        2 => '2',
        3 => '3',
        4 => '4',
        5 => '5',
        6 => '6',
        7 => '7',
        8 => '8',
        _ => '9',
    }
}

} // verus!
