//! Payload field encoders and the input checks applied before an event is written.

use vstd::prelude::*;
use vstd::std_specs::iter::IteratorSpec;

use crate::error::Error;

verus! {

broadcast use vstd::string::group_string_axioms;

/// A character with an interior NUL replaced by a space.
pub open spec fn nul_to_space(c: char) -> char {
    if c == '\0' { ' ' } else { c }
}

/// The characters of a string with every NUL replaced by a space.
pub open spec fn without_nuls(s: Seq<char>) -> Seq<char> {
    s.map_values(|c: char| nul_to_space(c))
}

/// The UTF-16 code units of one character: the character itself below `U+10000`, otherwise
/// its high and low surrogates.
pub open spec fn utf16_units(c: char) -> Seq<u16> {
    let v = c as u32;
    if v < 0x10000 {
        seq![v as u16]
    } else {
        seq![(0xD800 + (v - 0x10000) / 0x400) as u16, (0xDC00 + (v - 0x10000) % 0x400) as u16]
    }
}

/// The UTF-16 encoding of a character sequence.
pub open spec fn encode_utf16(cs: Seq<char>) -> Seq<u16>
    decreases cs.len(),
{
    if cs.len() == 0 {
        seq![]
    } else {
        encode_utf16(cs.drop_last()) + utf16_units(cs.last())
    }
}

/// Pushes the UTF-16 units of `c` onto `buf`.
fn push_utf16(buf: &mut Vec<u16>, c: char)
    ensures
        final(buf)@ == old(buf)@ + utf16_units(c),
{
    let v = c as u32;
    if v < 0x10000 {
        buf.push(v as u16);
    } else {
        assert(v <= 0x10FFFF) by {
            vstd::utf8::char_is_scalar(c);
        }
        buf.push((0xD800 + (v - 0x10000) / 0x400) as u16);
        buf.push((0xDC00 + (v - 0x10000) % 0x400) as u16);
    }
}

/// Encodes `s` as NUL-terminated UTF-16.
///
/// Interior NUL values are replaced with spaces.
pub fn to_u16cstring(s: &str) -> (buf: Vec<u16>)
    ensures
        buf@ == encode_utf16(without_nuls(s@)).push(0u16),
{
    let mut buf: Vec<u16> = Vec::new();
    let mut it = s.chars();
    let ghost all = s@;
    let ghost mut k: int = 0;
    loop
        invariant
            0 <= k <= all.len(),
            IteratorSpec::remaining(&it) == all.skip(k),
            it.obeys_prophetic_iter_laws(),
            buf@ == encode_utf16(without_nuls(all.take(k))),
        ensures
            k == all.len(),
            buf@ == encode_utf16(without_nuls(all.take(k))),
        decreases all.len() - k,
    {
        match it.next() {
            Some(ch) => {
                let ch = if ch == '\0' { ' ' } else { ch };
                push_utf16(&mut buf, ch);
                proof {
                    assert(without_nuls(all.take(k + 1)).drop_last() =~= without_nuls(all.take(k)));
                    k = k + 1;
                }
            }
            None => {
                break;
            }
        }
    }
    assert(all.take(k) =~= all);
    buf.push(0);
    buf
}


/// The UTF-16 encoding of the longest prefix of `cs` whose encoding fits in `limit` code units.
/// The prefix ends at the first character that does not fit, so a surrogate pair is never split.
pub open spec fn utf16_fitting(cs: Seq<char>, limit: nat) -> Seq<u16>
    decreases cs.len(),
{
    if cs.len() == 0 || utf16_units(cs[0]).len() > limit {
        seq![]
    } else {
        utf16_units(cs[0]) + utf16_fitting(cs.drop_first(), (limit - utf16_units(cs[0]).len()) as nat)
    }
}

/// `n` copies of the space character in the element type of a buffer.
pub open spec fn spaces<T>(n: nat, space: T) -> Seq<T> {
    Seq::new(n, |i: int| space)
}

/// The fixed-length UTF-16 layout of `s` for a field declared with `len` code units: at most
/// `len - 1` units of content, space padding, and a terminating NUL.
pub open spec fn fixed_utf16(s: Seq<char>, len: nat) -> Seq<u16> {
    let content = utf16_fitting(without_nuls(s), (len - 1) as nat);
    content + spaces((len - 1 - content.len()) as nat, 0x20u16) + seq![0u16]
}

proof fn lemma_utf16_fitting_len(cs: Seq<char>, limit: nat)
    ensures
        utf16_fitting(cs, limit).len() <= limit,
    decreases cs.len(),
{
    if cs.len() > 0 && utf16_units(cs[0]).len() <= limit {
        lemma_utf16_fitting_len(cs.drop_first(), (limit - utf16_units(cs[0]).len()) as nat);
    }
}

proof fn lemma_without_nuls_skip(s: Seq<char>, k: int)
    requires
        0 <= k < s.len(),
    ensures
        without_nuls(s.skip(k)).len() > 0,
        without_nuls(s.skip(k))[0] == nul_to_space(s[k]),
        without_nuls(s.skip(k)).drop_first() =~= without_nuls(s.skip(k + 1)),
{
}

proof fn lemma_encode_utf16_front(cs: Seq<char>)
    requires
        cs.len() > 0,
    ensures
        encode_utf16(cs) == utf16_units(cs[0]) + encode_utf16(cs.drop_first()),
    decreases cs.len(),
{
    if cs.len() > 1 {
        lemma_encode_utf16_front(cs.drop_last());
        assert(cs.drop_last().drop_first() =~= cs.drop_first().drop_last());
        assert(cs.drop_first().last() == cs.last());
        assert(cs.drop_last()[0] == cs[0]);
        assert(encode_utf16(cs) =~= utf16_units(cs[0]) + encode_utf16(cs.drop_first()));
    } else {
        assert(cs.drop_last() =~= Seq::<char>::empty());
        assert(cs.drop_first() =~= Seq::<char>::empty());
        assert(encode_utf16(cs) =~= utf16_units(cs[0]) + encode_utf16(cs.drop_first()));
    }
}

proof fn lemma_utf16_fitting_whole(cs: Seq<char>, limit: nat)
    requires
        encode_utf16(cs).len() <= limit,
    ensures
        utf16_fitting(cs, limit) == encode_utf16(cs),
    decreases cs.len(),
{
    if cs.len() > 0 {
        lemma_encode_utf16_front(cs);
        lemma_utf16_fitting_whole(cs.drop_first(), (limit - utf16_units(cs[0]).len()) as nat);
    }
}

/// A string whose UTF-16 encoding fits in `len - 1` code units is written in full and padded
/// with spaces up to the terminator: the fixed-length layout is the layout of
/// `to_u16cstring` with the padding inserted before the NUL.
pub proof fn law_fixed_utf16_pads_what_fits(s: Seq<char>, len: nat)
    requires
        encode_utf16(without_nuls(s)).len() < len,
    ensures
        fixed_utf16(s, len) == encode_utf16(without_nuls(s)) + spaces(
            (len - 1 - encode_utf16(without_nuls(s)).len()) as nat,
            0x20u16,
        ) + seq![0u16],
{
    lemma_utf16_fitting_whole(without_nuls(s), (len - 1) as nat);
}

/// Encodes `s` as a fixed-length, NUL-terminated UTF-16 string for an ETW manifest field with
/// `length="len"`.
///
/// The declared length includes the terminator. Content is therefore limited to `len - 1`
/// code units, without splitting a surrogate pair. Short content is padded with spaces before
/// the terminator so the returned buffer always contains exactly `len` code units. Interior
/// NUL values are replaced with spaces.
///
/// Returns [`Error::EmptyFixedLengthString`] if `len` is zero, since a fixed-length ETW string
/// must include a NUL terminator.
pub fn to_u16cstring_fixed_len(s: &str, len: usize) -> (res: Result<Vec<u16>, Error>)
    ensures
        len == 0 ==> res == Err::<Vec<u16>, Error>(Error::EmptyFixedLengthString),
        len > 0 ==> res is Ok && res->Ok_0@ == fixed_utf16(s@, len as nat),
        res is Ok ==> res->Ok_0@.len() == len,
{
    if len == 0 {
        return Err(Error::EmptyFixedLengthString);
    }
    let content_limit = len - 1;
    let mut buf: Vec<u16> = Vec::new();
    let mut it = s.chars();
    let ghost all = s@;
    let ghost target = utf16_fitting(without_nuls(all), content_limit as nat);
    assert(all.skip(0) =~= all);
    let ghost mut k: int = 0;
    loop
        invariant_except_break
            IteratorSpec::remaining(&it) == all.skip(k),
            it.obeys_prophetic_iter_laws(),
            buf@ + utf16_fitting(without_nuls(all.skip(k)), (content_limit - buf@.len()) as nat)
                == target,
        invariant
            0 <= k <= all.len(),
            buf@.len() <= content_limit,
            content_limit == len - 1,
            target == utf16_fitting(without_nuls(all), content_limit as nat),
        ensures
            buf@ == target,
            buf@.len() <= content_limit,
        decreases all.len() - k,
    {
        match it.next() {
            Some(ch) => {
                let ch = if ch == '\0' { ' ' } else { ch };
                let width: usize = if (ch as u32) < 0x10000 { 1 } else { 2 };
                proof {
                    lemma_without_nuls_skip(all, k);
                }
                if width > content_limit - buf.len() {
                    break;
                }
                let ghost before = buf@;
                push_utf16(&mut buf, ch);
                proof {
                    assert(buf@ == before + utf16_units(ch));
                    assert(before + utf16_units(ch) + utf16_fitting(without_nuls(all.skip(k + 1)),
                        (content_limit - buf@.len()) as nat) =~= target);
                    k = k + 1;
                }
            }
            None => {
                assert(all.skip(k).len() == 0);
                assert(buf@ + utf16_fitting(without_nuls(all.skip(k)), (content_limit - buf@.len()) as nat)
                    =~= buf@);
                break;
            }
        }
    }
    proof {
        lemma_utf16_fitting_len(without_nuls(all), content_limit as nat);
    }
    let ghost content = buf@;
    while buf.len() < content_limit
        invariant
            content_limit == len - 1,
            content.len() <= buf@.len() <= content_limit,
            buf@ =~= content + spaces((buf@.len() - content.len()) as nat, 0x20u16),
        decreases content_limit - buf.len(),
    {
        buf.push(0x20);
    }
    buf.push(0);
    Ok(buf)
}

/// Pushes the UTF-8 bytes of `c` onto `buf`.
fn push_utf8(buf: &mut Vec<u8>, c: char)
    ensures
        final(buf)@ == old(buf)@ + vstd::utf8::encode_scalar(c as u32),
{
    let v = c as u32;
    proof {
        vstd::utf8::char_is_scalar(c);
    }
    if v <= 0x7F {
        buf.push((v & 0x7F) as u8);
    } else if v <= 0x7FF {
        buf.push(0xC0 | ((v >> 6) & 0x1F) as u8);
        buf.push(0x80 | (v & 0x3F) as u8);
    } else if v <= 0xFFFF {
        buf.push(0xE0 | ((v >> 12) & 0x0F) as u8);
        buf.push(0x80 | ((v >> 6) & 0x3F) as u8);
        buf.push(0x80 | (v & 0x3F) as u8);
    } else {
        buf.push(0xF0 | ((v >> 18) & 0x7) as u8);
        buf.push(0x80 | ((v >> 12) & 0x3F) as u8);
        buf.push(0x80 | ((v >> 6) & 0x3F) as u8);
        buf.push(0x80 | (v & 0x3F) as u8);
    }
}

/// A byte with NUL replaced by a space.
pub open spec fn nul_byte_to_space(b: u8) -> u8 {
    if b == 0 { 0x20u8 } else { b }
}

/// Encodes `s` as NUL-terminated UTF-8 for a `win:AnsiString` field whose output type
/// explicitly selects UTF-8, JSON, or XML.
///
/// Interior NUL values are replaced with spaces.
pub fn to_cstring(s: &str) -> (buf: Vec<u8>)
    ensures
        buf@ == vstd::utf8::encode_utf8(s@).map_values(|b: u8| nul_byte_to_space(b)).push(0u8),
{
    let bytes = s.as_bytes();
    let mut buf: Vec<u8> = Vec::new();
    let mut i: usize = 0;
    while i < bytes.len()
        invariant
            i <= bytes@.len(),
            bytes@ == vstd::utf8::encode_utf8(s@),
            buf@ =~= bytes@.take(i as int).map_values(|b: u8| nul_byte_to_space(b)),
        decreases bytes.len() - i,
    {
        let b = bytes[i];
        buf.push(if b == 0 { 0x20 } else { b });
        i = i + 1;
    }
    assert(bytes@.take(i as int) =~= bytes@);
    buf.push(0);
    buf
}

/// The UTF-8 encoding of the longest prefix of `cs` whose encoding fits in `limit` bytes. The
/// prefix ends at the first character that does not fit, so a character is never split.
pub open spec fn utf8_fitting(cs: Seq<char>, limit: nat) -> Seq<u8>
    decreases cs.len(),
{
    if cs.len() == 0 || vstd::utf8::encode_scalar(cs[0] as u32).len() > limit {
        seq![]
    } else {
        vstd::utf8::encode_scalar(cs[0] as u32) + utf8_fitting(
            cs.drop_first(),
            (limit - vstd::utf8::encode_scalar(cs[0] as u32).len()) as nat,
        )
    }
}

/// The fixed-length UTF-8 layout of `s` for a field declared with `len` bytes: at most
/// `len - 1` bytes of content, space padding, and a terminating NUL.
pub open spec fn fixed_utf8(s: Seq<char>, len: nat) -> Seq<u8> {
    let content = utf8_fitting(without_nuls(s), (len - 1) as nat);
    content + spaces((len - 1 - content.len()) as nat, 0x20u8) + seq![0u8]
}

proof fn lemma_utf8_fitting_len(cs: Seq<char>, limit: nat)
    ensures
        utf8_fitting(cs, limit).len() <= limit,
    decreases cs.len(),
{
    if cs.len() > 0 && vstd::utf8::encode_scalar(cs[0] as u32).len() <= limit {
        lemma_utf8_fitting_len(
            cs.drop_first(),
            (limit - vstd::utf8::encode_scalar(cs[0] as u32).len()) as nat,
        );
    }
}

proof fn lemma_utf8_fitting_whole(cs: Seq<char>, limit: nat)
    requires
        vstd::utf8::encode_utf8(cs).len() <= limit,
    ensures
        utf8_fitting(cs, limit) == vstd::utf8::encode_utf8(cs),
    decreases cs.len(),
{
    if cs.len() > 0 {
        lemma_utf8_fitting_whole(
            cs.drop_first(),
            (limit - vstd::utf8::encode_scalar(cs[0] as u32).len()) as nat,
        );
    }
}

proof fn lemma_encode_scalar_without_nul(c: char)
    ensures
        vstd::utf8::encode_scalar(nul_to_space(c) as u32) == vstd::utf8::encode_scalar(c as u32).map_values(
            |b: u8| nul_byte_to_space(b),
        ),
{
    vstd::utf8::char_is_scalar(c);
    let v = c as u32;
    let e = vstd::utf8::encode_scalar(v);
    if v == 0 {
        vstd::utf8::char_u32_cast(c, v);
        assert(c == '\0');
        assert(0x20u32 & 0x7F == 0x20) by (bit_vector);
        assert(0u32 & 0x7F == 0) by (bit_vector);
        assert(e.map_values(|b: u8| nul_byte_to_space(b)) =~= seq![0x20u8]);
    } else {
        assert(0 < v <= 0x7F ==> (v & 0x7F) as u8 != 0) by (bit_vector);
        assert(forall|x: u32| #![auto] (0xC0u8 | ((x >> 6) & 0x1F) as u8) != 0) by (bit_vector);
        assert(forall|x: u32| #![auto] (0xE0u8 | ((x >> 12) & 0x0F) as u8) != 0) by (bit_vector);
        assert(forall|x: u32| #![auto] (0xF0u8 | ((x >> 18) & 0x7) as u8) != 0) by (bit_vector);
        assert(forall|x: u32| #![auto] (0x80u8 | (x & 0x3F) as u8) != 0) by (bit_vector);
        assert(forall|x: u32| #![auto] (0x80u8 | ((x >> 6) & 0x3F) as u8) != 0) by (bit_vector);
        assert(forall|x: u32| #![auto] (0x80u8 | ((x >> 12) & 0x3F) as u8) != 0) by (bit_vector);
        assert(forall|i: int| 0 <= i < e.len() ==> #[trigger] e[i] != 0);
        assert(e.map_values(|b: u8| nul_byte_to_space(b)) =~= e);
    }
}

proof fn lemma_encode_utf8_without_nuls(s: Seq<char>)
    ensures
        vstd::utf8::encode_utf8(without_nuls(s)) == vstd::utf8::encode_utf8(s).map_values(
            |b: u8| nul_byte_to_space(b),
        ),
    decreases s.len(),
{
    if s.len() > 0 {
        lemma_encode_utf8_without_nuls(s.drop_first());
        lemma_encode_scalar_without_nul(s[0]);
        assert(without_nuls(s).drop_first() =~= without_nuls(s.drop_first()));
        let a = vstd::utf8::encode_scalar(s[0] as u32);
        let b = vstd::utf8::encode_utf8(s.drop_first());
        assert((a + b).map_values(|x: u8| nul_byte_to_space(x)) =~= a.map_values(|x: u8| nul_byte_to_space(x))
            + b.map_values(|x: u8| nul_byte_to_space(x)));
    } else {
        assert(without_nuls(s) =~= Seq::<char>::empty());
        assert(vstd::utf8::encode_utf8(s).map_values(|b: u8| nul_byte_to_space(b)) =~= Seq::<u8>::empty());
    }
}

/// A string whose UTF-8 encoding fits in `len - 1` bytes is written in full and padded with
/// spaces up to the terminator: the fixed-length layout is the layout of `to_cstring` with
/// the padding inserted before the NUL.
pub proof fn law_fixed_utf8_pads_what_fits(s: Seq<char>, len: nat)
    requires
        vstd::utf8::encode_utf8(s).len() < len,
    ensures
        fixed_utf8(s, len) == vstd::utf8::encode_utf8(s).map_values(|b: u8| nul_byte_to_space(b)) + spaces(
            (len - 1 - vstd::utf8::encode_utf8(s).len()) as nat,
            0x20u8,
        ) + seq![0u8],
{
    lemma_encode_utf8_without_nuls(s);
    lemma_utf8_fitting_whole(without_nuls(s), (len - 1) as nat);
}

/// Encodes `s` as a fixed-length, NUL-terminated UTF-8 string for an ETW `win:AnsiString`
/// field whose output type explicitly selects UTF-8, JSON, or XML and whose manifest declares
/// `length="len"`.
///
/// The declared length includes the terminator. UTF-8 content is therefore limited to
/// `len - 1` bytes, without splitting an encoded character. Short content is padded with
/// spaces before the terminator so the returned buffer always contains exactly `len` bytes.
/// Interior NUL values are replaced with spaces.
///
/// Returns [`Error::EmptyFixedLengthString`] if `len` is zero.
pub fn to_cstring_fixed_len(s: &str, len: usize) -> (res: Result<Vec<u8>, Error>)
    ensures
        len == 0 ==> res == Err::<Vec<u8>, Error>(Error::EmptyFixedLengthString),
        len > 0 ==> res is Ok && res->Ok_0@ == fixed_utf8(s@, len as nat),
        res is Ok ==> res->Ok_0@.len() == len,
{
    if len == 0 {
        return Err(Error::EmptyFixedLengthString);
    }
    let content_limit = len - 1;
    let mut buf: Vec<u8> = Vec::new();
    let mut it = s.chars();
    let ghost all = s@;
    let ghost target = utf8_fitting(without_nuls(all), content_limit as nat);
    assert(all.skip(0) =~= all);
    let ghost mut k: int = 0;
    loop
        invariant_except_break
            IteratorSpec::remaining(&it) == all.skip(k),
            it.obeys_prophetic_iter_laws(),
            buf@ + utf8_fitting(without_nuls(all.skip(k)), (content_limit - buf@.len()) as nat)
                == target,
        invariant
            0 <= k <= all.len(),
            buf@.len() <= content_limit,
            content_limit == len - 1,
            target == utf8_fitting(without_nuls(all), content_limit as nat),
        ensures
            buf@ == target,
            buf@.len() <= content_limit,
        decreases all.len() - k,
    {
        match it.next() {
            Some(ch) => {
                let ch = if ch == '\0' { ' ' } else { ch };
                let v = ch as u32;
                let width: usize = if v <= 0x7F {
                    1
                } else if v <= 0x7FF {
                    2
                } else if v <= 0xFFFF {
                    3
                } else {
                    4
                };
                proof {
                    lemma_without_nuls_skip(all, k);
                    vstd::utf8::char_is_scalar(ch);
                    assert(vstd::utf8::encode_scalar(v).len() == width);
                }
                if width > content_limit - buf.len() {
                    break;
                }
                let ghost before = buf@;
                push_utf8(&mut buf, ch);
                proof {
                    assert(before + vstd::utf8::encode_scalar(v) + utf8_fitting(
                        without_nuls(all.skip(k + 1)),
                        (content_limit - buf@.len()) as nat,
                    ) =~= target);
                    k = k + 1;
                }
            }
            None => {
                assert(all.skip(k).len() == 0);
                assert(buf@ + utf8_fitting(without_nuls(all.skip(k)), (content_limit - buf@.len()) as nat)
                    =~= buf@);
                break;
            }
        }
    }
    proof {
        lemma_utf8_fitting_len(without_nuls(all), content_limit as nat);
    }
    let ghost content = buf@;
    while buf.len() < content_limit
        invariant
            content_limit == len - 1,
            content.len() <= buf@.len() <= content_limit,
            buf@ =~= content + spaces((buf@.len() - content.len()) as nat, 0x20u8),
        decreases content_limit - buf.len(),
    {
        buf.push(0x20);
    }
    buf.push(0);
    Ok(buf)
}


/// The integer type of a manifest field that carries a derived length or count.
#[derive(Clone, Copy, Debug, PartialEq, Eq, Structural)]
pub enum LengthType {
    /// `win:UInt8`.
    U8,
    /// `win:UInt16`.
    U16,
    /// `win:UInt32` or `win:HexInt32`.
    U32,
}

/// The largest value a length field of the given type can carry.
pub open spec fn length_type_max(t: LengthType) -> nat {
    match t {
        LengthType::U8 => 0xff,
        LengthType::U16 => 0xffff,
        LengthType::U32 => 0xffff_ffff,
    }
}

/// Converts a slice length into the value of a length field of type `ty`.
///
/// Generated code uses this for `win:Binary length="OtherField"` and for `count="OtherField"`:
/// the length field is derived from the value rather than exposed as a parameter. Returns
/// [`Error::LengthOverflow`] if the length does not fit in the field.
pub fn checked_len(len: usize, ty: LengthType) -> (res: Result<u32, Error>)
    ensures
        len <= length_type_max(ty) ==> res == Ok::<u32, Error>(len as u32),
        len > length_type_max(ty) ==> res == Err::<u32, Error>(Error::LengthOverflow),
{
    let max: u64 = match ty {
        LengthType::U8 => 0xff,
        LengthType::U16 => 0xffff,
        LengthType::U32 => 0xffff_ffff,
    };
    if len as u64 <= max {
        Ok(len as u32)
    } else {
        Err(Error::LengthOverflow)
    }
}

/// Returns the common length of a collection of byte slices.
///
/// Generated array wrappers use this for `win:Binary` fields that combine `count="..."` with a
/// referenced `length="..."`. An empty collection has an element length of zero; elements of
/// differing lengths give [`Error::MismatchedArrayLengths`].
pub fn uniform_len(values: &[&[u8]]) -> (res: Result<usize, Error>)
    ensures
        values@.len() == 0 ==> res == Ok::<usize, Error>(0),
        values@.len() > 0 && (forall|i: int| 0 <= i < values@.len()
            ==> (#[trigger] values@[i])@.len() == values@[0]@.len())
            ==> res == Ok::<usize, Error>(values@[0]@.len() as usize),
        values@.len() > 0 && !(forall|i: int| 0 <= i < values@.len()
            ==> (#[trigger] values@[i])@.len() == values@[0]@.len())
            ==> res == Err::<usize, Error>(Error::MismatchedArrayLengths),
{
    if values.len() == 0 {
        return Ok(0);
    }
    let len = values[0].len();
    let mut i: usize = 0;
    while i < values.len()
        invariant
            i <= values@.len(),
            values@.len() > 0,
            len == values@[0]@.len(),
            forall|j: int| 0 <= j < i ==> (#[trigger] values@[j])@.len() == len,
        decreases values.len() - i,
    {
        if values[i].len() != len {
            return Err(Error::MismatchedArrayLengths);
        }
        i = i + 1;
    }
    Ok(len)
}

/// Checks that an encoded value has the length declared by another manifest field: equal
/// lengths pass, any other pair is [`Error::LengthMismatch`].
pub fn ensure_len(actual: usize, expected: usize) -> (res: Result<(), Error>)
    ensures
        actual == expected ==> res == Ok::<(), Error>(()),
        actual != expected ==> res == Err::<(), Error>(Error::LengthMismatch),
{
    if actual == expected {
        Ok(())
    } else {
        Err(Error::LengthMismatch)
    }
}

/// Checks that a caller-encoded ANSI string ends with its NUL terminator; a buffer that does
/// not (an empty one included) is [`Error::MissingNulTerminator`].
pub fn ensure_nul_terminated(buf: &[u8]) -> (res: Result<(), Error>)
    ensures
        buf@.len() > 0 && buf@.last() == 0 ==> res == Ok::<(), Error>(()),
        !(buf@.len() > 0 && buf@.last() == 0) ==> res == Err::<(), Error>(Error::MissingNulTerminator),
{
    if buf.len() > 0 && buf[buf.len() - 1] == 0 {
        Ok(())
    } else {
        Err(Error::MissingNulTerminator)
    }
}

/// Checks that a UTF-16 buffer ends with its NUL terminator; a buffer that does not (an empty
/// one included) is [`Error::MissingNulTerminator`].
pub fn ensure_wide_nul_terminated(buf: &[u16]) -> (res: Result<(), Error>)
    ensures
        buf@.len() > 0 && buf@.last() == 0 ==> res == Ok::<(), Error>(()),
        !(buf@.len() > 0 && buf@.last() == 0) ==> res == Err::<(), Error>(Error::MissingNulTerminator),
{
    if buf.len() > 0 && buf[buf.len() - 1] == 0 {
        Ok(())
    } else {
        Err(Error::MissingNulTerminator)
    }
}

/// Checks that a fixed string width leaves room for the NUL terminator: zero is
/// [`Error::EmptyFixedLengthString`], any other width passes.
pub fn ensure_nonzero_length(len: usize) -> (res: Result<(), Error>)
    ensures
        len > 0 ==> res == Ok::<(), Error>(()),
        len == 0 ==> res == Err::<(), Error>(Error::EmptyFixedLengthString),
{
    if len > 0 {
        Ok(())
    } else {
        Err(Error::EmptyFixedLengthString)
    }
}


/// A payload descriptor: the address and byte size of one field's data, in the layout of the
/// Win32 `EVENT_DATA_DESCRIPTOR`. The lifetime ties the descriptor to the borrowed data.
#[derive(Default)]
pub struct EventDataDescriptor<'a> {
    ptr: u64,
    size: u32,
    marker: core::marker::PhantomData<&'a ()>,
}

impl<'a> EventDataDescriptor<'a> {
    /// The byte size that the descriptor covers.
    pub closed spec fn spec_size(&self) -> u32 {
        self.size
    }

    /// The byte size that the descriptor covers.
    pub fn size(&self) -> (size: u32)
        ensures
            size == self.spec_size(),
    {
        self.size
    }

    /// The address of the described data.
    pub closed spec fn spec_ptr(&self) -> u64 {
        self.ptr
    }

    /// The address of the described data.
    pub fn ptr(&self) -> (p: u64)
        ensures
            p == self.spec_ptr(),
    {
        self.ptr
    }

    /// The descriptor type word, zero for a plain payload.
    pub fn reserved(&self) -> (r: u32)
        ensures
            r == 0,
    {
        0
    }
}

/// Calls `core::ptr::from_ref` and gives the address of `v` as an integer. An address
/// depends on the machine and the run, so nothing is stated of it.
#[verifier::external_body]
fn value_address<T>(v: &T) -> u64 {
    core::ptr::from_ref(v) as usize as u64
}

/// Calls `<[T]>::as_ptr` and gives the address of the first element of `v` as an integer.
/// An address depends on the machine and the run, so nothing is stated of it.
#[verifier::external_body]
fn slice_address<T>(v: &[T]) -> u64 {
    v.as_ptr() as usize as u64
}

/// A fixed-size value without padding that ETW can copy into an event as it lies in memory:
/// the integer primitives, `usize` for `win:Pointer`, and `Guid`, `FileTime` and `SystemTime`.
/// The trait is sealed, so strings and custom types cannot be passed by mistake.
pub trait Scalar: Copy + crate::sealed::Sealed {}

impl Scalar for u8 {}
impl Scalar for i8 {}
impl Scalar for u16 {}
impl Scalar for i16 {}
impl Scalar for u32 {}
impl Scalar for i32 {}
impl Scalar for u64 {}
impl Scalar for i64 {}
impl Scalar for usize {}
impl Scalar for isize {}
impl Scalar for crate::types::Guid {}
impl Scalar for crate::types::FileTime {}
impl Scalar for crate::types::SystemTime {}

/// Creates a descriptor over a fixed-size value, covering its whole size.
pub fn scalar<T: Scalar>(v: &T) -> (d: EventDataDescriptor<'_>)
    ensures
        d.spec_size() == vstd::layout::size_of::<T>() as u32,
{
    EventDataDescriptor {
        ptr: value_address(v),
        size: core::mem::size_of::<T>() as u32,
        marker: core::marker::PhantomData,
    }
}

/// Creates a descriptor over a contiguous slice of fixed-size values, covering all of them.
pub fn slice<T: Scalar>(values: &[T]) -> (d: EventDataDescriptor<'_>)
    ensures
        d.spec_size() == (values@.len() * vstd::layout::size_of::<T>()) as u32,
{
    broadcast use vstd::layout::layout_of_slices;

    EventDataDescriptor {
        ptr: slice_address(values),
        size: core::mem::size_of_val(values) as u32,
        marker: core::marker::PhantomData,
    }
}

/// Creates a descriptor over a byte slice (win:Binary).
pub fn bytes(b: &[u8]) -> (d: EventDataDescriptor<'_>)
    ensures
        d.spec_size() == b@.len() as u32,
{
    EventDataDescriptor { ptr: slice_address(b), size: b.len() as u32, marker: core::marker::PhantomData }
}

/// Creates a descriptor over an ANSI string (win:AnsiString).
///
/// Returns [`Error::MissingNulTerminator`] if the buffer is not NUL-terminated.
pub fn str8(buf: &[u8]) -> (res: Result<EventDataDescriptor<'_>, Error>)
    ensures
        buf@.len() > 0 && buf@.last() == 0 ==> res is Ok && res->Ok_0.spec_size() == buf@.len() as u32,
        !(buf@.len() > 0 && buf@.last() == 0) ==> res is Err && res->Err_0 == Error::MissingNulTerminator,
{
    ensure_nul_terminated(buf)?;
    Ok(bytes(buf))
}

/// Creates a descriptor over a UTF-16 buffer (win:UnicodeString), covering all of its code
/// units.
///
/// Returns [`Error::MissingNulTerminator`] if the buffer is not NUL-terminated.
pub fn str16(buf: &[u16]) -> (res: Result<EventDataDescriptor<'_>, Error>)
    ensures
        buf@.len() > 0 && buf@.last() == 0 ==> res is Ok && res->Ok_0.spec_size() == (2 * buf@.len()) as u32,
        !(buf@.len() > 0 && buf@.last() == 0) ==> res is Err && res->Err_0 == Error::MissingNulTerminator,
{
    broadcast use vstd::layout::layout_of_slices, vstd::layout::layout_of_primitives;

    ensure_wide_nul_terminated(buf)?;
    Ok(EventDataDescriptor {
        ptr: slice_address(buf),
        size: core::mem::size_of_val(buf) as u32,
        marker: core::marker::PhantomData,
    })
}

} // verus!
