//! Planning the typed event methods generated for a provider: which manifest fields become
//! parameters, which are derived from others, how each value is checked and encoded, and
//! which shared writer each event calls.

use vstd::prelude::*;
use vstd::string::StringExecFns;

use crate::model::{AnsiEncoding, Count, Event, Length, ManifestError, TypeInfo, WinType};
use crate::idents::{safe_ident, safe_ident_with, snake_case_of, to_snake_case};
use crate::numbers::{decimal_text, push_decimal};
use crate::text::{debug_quoted, push_char, push_str, str_equal};

verus! {

/// The Rust type of a fixed-size value that ETW copies as is.
#[derive(Clone, Copy, Debug, PartialEq, Eq, Structural)]
pub enum ScalarTy {
    I8,
    U8,
    I16,
    U16,
    I32,
    U32,
    I64,
    U64,
    F32,
    F64,
    Usize,
    Guid,
    FileTime,
    SystemTime,
}

/// The element type of a parameter or buffer.
#[derive(Clone, Copy, Debug, PartialEq, Eq, Structural)]
pub enum ElemTy {
    /// A fixed-size value.
    Scalar(ScalarTy),
    /// `bool`.
    Bool,
    /// `&str`.
    Str,
    /// `[u8; N]`.
    ByteArray(usize),
    /// `&[u8]`.
    Bytes,
    /// `&field::Sid`.
    Sid,
}

/// The Rust type of a generated parameter or backing-helper argument.
#[derive(Clone, Copy, Debug, PartialEq, Eq, Structural)]
pub enum RustTy {
    /// The element type itself.
    Value(ElemTy),
    /// `&[T]`.
    Slice(ElemTy),
    /// `&[T; N]`.
    Array(ElemTy, usize),
}

/// How a field's Rust value becomes a payload descriptor.
#[derive(Clone, Copy, Debug, PartialEq, Eq, Structural)]
pub enum FieldClass {
    /// Passes a fixed-size value directly.
    Scalar,
    /// Encodes a `bool` as a Windows `BOOL`.
    Bool,
    /// Uses a NUL-terminated UTF-16 buffer.
    Str,
    /// Uses a NUL-terminated byte buffer.
    AnsiStr,
    /// Passes `&[u8]` through directly.
    Bytes,
    /// Passes a contiguous slice of fixed-size values.
    Slice,
    /// Borrows a `field::Sid`.
    Sid,
}

/// A field's argument to the shared backing helper.
#[derive(Clone, Copy, Debug, PartialEq, Eq, Structural)]
pub struct FieldSpec {
    /// The letter that names the field's kind in the backing helper's name.
    pub frag: char,
    /// The argument's Rust type.
    pub rust_ty: RustTy,
    /// How the argument becomes a payload descriptor.
    pub class: FieldClass,
}

/// The single and array name letters and the Rust type of a fixed-size `WinType`; `None`
/// for variable-size types.
pub open spec fn spec_scalar_info(w: WinType) -> Option<(char, char, ScalarTy)> {
    match w {
        WinType::Int8 => Some(('c', 'C', ScalarTy::I8)),
        WinType::UInt8 => Some(('u', 'U', ScalarTy::U8)),
        WinType::Int16 => Some(('l', 'L', ScalarTy::I16)),
        WinType::UInt16 => Some(('h', 'H', ScalarTy::U16)),
        WinType::Int32 => Some(('d', 'D', ScalarTy::I32)),
        WinType::UInt32 | WinType::HexInt32 => Some(('q', 'Q', ScalarTy::U32)),
        WinType::Int64 => Some(('i', 'I', ScalarTy::I64)),
        WinType::UInt64 | WinType::HexInt64 => Some(('x', 'X', ScalarTy::U64)),
        WinType::FileTime => Some(('m', 'M', ScalarTy::FileTime)),
        WinType::Float => Some(('f', 'F', ScalarTy::F32)),
        WinType::Double => Some(('g', 'G', ScalarTy::F64)),
        WinType::Pointer => Some(('p', 'P', ScalarTy::Usize)),
        WinType::Guid => Some(('j', 'J', ScalarTy::Guid)),
        WinType::SystemTime => Some(('y', 'Y', ScalarTy::SystemTime)),
        _ => None,
    }
}

/// The backing-helper name letters (single and array forms) and Rust type for a scalar
/// `WinType`. Returns `None` for variable-size types.
pub fn scalar_info(w: &WinType) -> (r: Option<(char, char, ScalarTy)>)
    ensures
        r == spec_scalar_info(*w),
{
    match w {
        WinType::Int8 => Some(('c', 'C', ScalarTy::I8)),
        WinType::UInt8 => Some(('u', 'U', ScalarTy::U8)),
        WinType::Int16 => Some(('l', 'L', ScalarTy::I16)),
        WinType::UInt16 => Some(('h', 'H', ScalarTy::U16)),
        WinType::Int32 => Some(('d', 'D', ScalarTy::I32)),
        WinType::UInt32 | WinType::HexInt32 => Some(('q', 'Q', ScalarTy::U32)),
        WinType::Int64 => Some(('i', 'I', ScalarTy::I64)),
        WinType::UInt64 | WinType::HexInt64 => Some(('x', 'X', ScalarTy::U64)),
        WinType::FileTime => Some(('m', 'M', ScalarTy::FileTime)),
        WinType::Float => Some(('f', 'F', ScalarTy::F32)),
        WinType::Double => Some(('g', 'G', ScalarTy::F64)),
        WinType::Pointer => Some(('p', 'P', ScalarTy::Usize)),
        WinType::Guid => Some(('j', 'J', ScalarTy::Guid)),
        WinType::SystemTime => Some(('y', 'Y', ScalarTy::SystemTime)),
        _ => None,
    }
}

/// The backing-helper argument of a single (non-array) field of type `w`.
pub open spec fn spec_classify_single(w: WinType) -> FieldSpec {
    match spec_scalar_info(w) {
        Some((frag, _, ty)) => FieldSpec { frag, rust_ty: RustTy::Value(ElemTy::Scalar(ty)), class: FieldClass::Scalar },
        None => match w {
            WinType::Boolean => FieldSpec { frag: 't', rust_ty: RustTy::Value(ElemTy::Bool), class: FieldClass::Bool },
            WinType::UnicodeString(_) => FieldSpec { frag: 'z', rust_ty: RustTy::Slice(ElemTy::Scalar(ScalarTy::U16)), class: FieldClass::Str },
            WinType::AnsiString(_, _) => FieldSpec { frag: 'a', rust_ty: RustTy::Slice(ElemTy::Scalar(ScalarTy::U8)), class: FieldClass::AnsiStr },
            WinType::Binary(_) => FieldSpec { frag: 's', rust_ty: RustTy::Slice(ElemTy::Scalar(ScalarTy::U8)), class: FieldClass::Bytes },
            _ => FieldSpec { frag: 'k', rust_ty: RustTy::Value(ElemTy::Sid), class: FieldClass::Sid },
        },
    }
}

/// The backing-helper argument of a template field: single fields as above; arrays of
/// fixed-size values and booleans as slices; string, binary and SID arrays as packed buffers.
pub open spec fn spec_classify(t: TypeInfo) -> FieldSpec {
    if t.count == Count::Single {
        spec_classify_single(t.win_type)
    } else {
        match spec_scalar_info(t.win_type) {
            Some((_, frag, ty)) => FieldSpec { frag, rust_ty: RustTy::Slice(ElemTy::Scalar(ty)), class: FieldClass::Slice },
            None => match t.win_type {
                WinType::Boolean => FieldSpec { frag: 'T', rust_ty: RustTy::Slice(ElemTy::Scalar(ScalarTy::I32)), class: FieldClass::Slice },
                WinType::UnicodeString(_) => FieldSpec { frag: 'Z', rust_ty: RustTy::Slice(ElemTy::Scalar(ScalarTy::U16)), class: FieldClass::Slice },
                _ => FieldSpec { frag: 'B', rust_ty: RustTy::Slice(ElemTy::Scalar(ScalarTy::U8)), class: FieldClass::Bytes },
            },
        }
    }
}

/// Classifies a single (non-array) field of type `w`.
pub fn classify_single(w: &WinType) -> (s: FieldSpec)
    ensures
        s == spec_classify_single(*w),
{
    if let Some((frag, _, ty)) = scalar_info(w) {
        return FieldSpec { frag, rust_ty: RustTy::Value(ElemTy::Scalar(ty)), class: FieldClass::Scalar };
    }
    match w {
        WinType::Boolean => FieldSpec { frag: 't', rust_ty: RustTy::Value(ElemTy::Bool), class: FieldClass::Bool },
        WinType::UnicodeString(_) => FieldSpec { frag: 'z', rust_ty: RustTy::Slice(ElemTy::Scalar(ScalarTy::U16)), class: FieldClass::Str },
        WinType::AnsiString(_, _) => FieldSpec { frag: 'a', rust_ty: RustTy::Slice(ElemTy::Scalar(ScalarTy::U8)), class: FieldClass::AnsiStr },
        WinType::Binary(_) => FieldSpec { frag: 's', rust_ty: RustTy::Slice(ElemTy::Scalar(ScalarTy::U8)), class: FieldClass::Bytes },
        _ => FieldSpec { frag: 'k', rust_ty: RustTy::Value(ElemTy::Sid), class: FieldClass::Sid },
    }
}

/// Classifies a template field.
pub fn classify(t: &TypeInfo) -> (s: FieldSpec)
    ensures
        s == spec_classify(*t),
{
    if let Count::Single = t.count {
        return classify_single(&t.win_type);
    }
    if let Some((_, frag, ty)) = scalar_info(&t.win_type) {
        return FieldSpec { frag, rust_ty: RustTy::Slice(ElemTy::Scalar(ty)), class: FieldClass::Slice };
    }
    match &t.win_type {
        WinType::Boolean => FieldSpec { frag: 'T', rust_ty: RustTy::Slice(ElemTy::Scalar(ScalarTy::I32)), class: FieldClass::Slice },
        WinType::UnicodeString(_) => FieldSpec { frag: 'Z', rust_ty: RustTy::Slice(ElemTy::Scalar(ScalarTy::U16)), class: FieldClass::Slice },
        _ => FieldSpec { frag: 'B', rust_ty: RustTy::Slice(ElemTy::Scalar(ScalarTy::U8)), class: FieldClass::Bytes },
    }
}

/// The name of the shared backing helper for a field signature: `__write` for no fields,
/// otherwise `__write_` followed by each field's letter.
pub open spec fn spec_backing_name(specs: Seq<FieldSpec>) -> Seq<char> {
    if specs.len() == 0 {
        "__write"@
    } else {
        "__write_"@ + specs.map_values(|s: FieldSpec| s.frag)
    }
}

/// Names the shared backing helper for a field signature.
pub fn backing_name(specs: &[FieldSpec]) -> (name: String)
    ensures
        name@ == spec_backing_name(specs@),
{
    if specs.len() == 0 {
        return String::from_str("__write");
    }
    let mut s = String::from_str("__write_");
    let ghost base = s@;
    let mut i: usize = 0;
    while i < specs.len()
        invariant
            i <= specs@.len(),
            base == "__write_"@,
            s@ =~= base + specs@.take(i as int).map_values(|s: FieldSpec| s.frag),
        decreases specs.len() - i,
    {
        push_char(&mut s, specs[i].frag);
        i = i + 1;
    }
    assert(specs@.take(i as int) =~= specs@);
    s
}


/// The text encoding of a string field.
#[derive(Clone, Copy, Debug, PartialEq, Eq, Structural)]
pub enum StringEncoding {
    /// UTF-16, for `win:UnicodeString`.
    Unicode,
    /// Bytes already in the provider's ANSI code page.
    ProviderAnsi,
    /// UTF-8.
    Utf8,
}

/// The length of one string or binary element.
#[derive(Clone, Copy, Debug, PartialEq, Eq, Structural)]
pub enum ElementLength {
    /// Ends at its NUL terminator (strings) or is the whole slice (binary).
    Implicit,
    /// A constant length.
    Fixed(usize),
    /// The length carried by the field at this index.
    FieldRef(usize),
}

/// How many values a field carries.
#[derive(Clone, Copy, Debug, PartialEq, Eq, Structural)]
pub enum Cardinality {
    /// One value.
    Single,
    /// A constant number of values.
    Fixed(usize),
    /// A number given by another field and derived from the slice.
    Dynamic,
}

/// The kind of value a caller passes for a field.
#[derive(Clone, Copy, Debug, PartialEq, Eq, Structural)]
pub enum ValueKind {
    Scalar,
    Boolean,
    String { encoding: StringEncoding, length: ElementLength },
    Binary { length: ElementLength },
    Sid,
}

/// The independent dimensions needed to expose and serialize a caller-provided value.
#[derive(Clone, Copy, Debug, PartialEq, Eq, Structural)]
pub struct ValuePlan {
    pub kind: ValueKind,
    pub cardinality: Cardinality,
}

/// The cardinality that a declared count gives.
pub open spec fn spec_cardinality(c: Count) -> Cardinality {
    match c {
        Count::Single => Cardinality::Single,
        Count::Constant(n) => Cardinality::Fixed(n as usize),
        Count::FieldRef(_) => Cardinality::Dynamic,
    }
}

impl Cardinality {
    /// The cardinality that a declared count gives.
    pub fn from_count(count: &Count) -> (c: Cardinality)
        ensures
            c == spec_cardinality(*count),
    {
        match count {
            Count::Single => Cardinality::Single,
            Count::Constant(n) => Cardinality::Fixed(*n as usize),
            Count::FieldRef(_) => Cardinality::Dynamic,
        }
    }

    /// Whether the field carries an array.
    pub fn is_array(self) -> (b: bool)
        ensures
            b == (self != Cardinality::Single),
    {
        !(self == Cardinality::Single)
    }
}

/// Whether a field type is an integer that a `length="..."` or `count="..."` reference may
/// target.
pub open spec fn spec_is_length_int(w: WinType) -> bool {
    w is UInt8 || w is UInt16 || w is UInt32 || w is HexInt32
}

/// Returns whether a `WinType` is an integer type that a `win:Binary length="..."` reference
/// may target.
pub fn is_length_int(w: &WinType) -> (b: bool)
    ensures
        b == spec_is_length_int(*w),
{
    match w {
        WinType::UInt8 | WinType::UInt16 | WinType::UInt32 | WinType::HexInt32 => true,
        _ => false,
    }
}

/// The first position at or after `k` of a field named `name`.
pub open spec fn first_named_from(params: Seq<TypeInfo>, name: Seq<char>, k: int) -> Option<int>
    decreases params.len() - k,
{
    if k < 0 || k >= params.len() {
        None
    } else if params[k].name@ == name {
        Some(k)
    } else {
        first_named_from(params, name, k + 1)
    }
}

/// The position of the first field named `name`.
pub open spec fn first_named(params: Seq<TypeInfo>, name: Seq<char>) -> Option<int> {
    first_named_from(params, name, 0)
}

/// The field that a `length` or `count` reference from field `i` names: the first field with
/// the name, which must come before field `i` and be a single `win:UInt8`, `win:UInt16`,
/// `win:UInt32` or `win:HexInt32`. `None` if the reference is invalid.
pub open spec fn prior_int_field(params: Seq<TypeInfo>, i: int, name: Seq<char>) -> Option<int> {
    match first_named(params, name) {
        Some(k) => if k < i && spec_is_length_int(params[k].win_type) && params[k].count == Count::Single {
            Some(k)
        } else {
            None
        },
        None => None,
    }
}

/// The message for an invalid reference named `name` from field `i` of event `symbol`
/// (described as `subject`, the reference being its `role`) in provider `provider`: the name
/// is unknown, names a field that does not come before field `i`, or names a field that is not
/// a single small unsigned integer.
pub open spec fn prior_int_field_error(
    params: Seq<TypeInfo>,
    i: int,
    name: Seq<char>,
    symbol: Seq<char>,
    provider: Seq<char>,
    subject: Seq<char>,
    role: Seq<char>,
) -> Seq<char> {
    let at = " in event "@ + symbol + " of provider "@ + provider;
    let field = params[i].name@;
    match first_named(params, name) {
        None => subject + " "@ + field + at + " references unknown "@ + role + " field "@ + debug_quoted(name),
        Some(k) => if k >= i {
            subject + " "@ + field + at + " references "@ + role + " field "@ + debug_quoted(name)
                + ", which must appear before it"@
        } else {
            role + " field "@ + debug_quoted(name) + " for "@ + subject + " "@ + field + at
                + " must be a scalar win:UInt8, win:UInt16, win:UInt32, or win:HexInt32"@
        },
    }
}

proof fn lemma_first_named_from(params: Seq<TypeInfo>, name: Seq<char>, k: int)
    requires
        0 <= k,
    ensures
        first_named_from(params, name, k) matches Some(j) ==> k <= j < params.len() && params[j].name@ == name
            && forall|m: int| k <= m < j ==> params[m].name@ != name,
        first_named_from(params, name, k) is None ==> forall|m: int| k <= m < params.len() ==> params[m].name@ != name,
    decreases params.len() - k,
{
    if k < params.len() && params[k].name@ != name {
        lemma_first_named_from(params, name, k + 1);
    }
}

fn find_first_named(params: &Vec<TypeInfo>, name: &str) -> (r: Option<usize>)
    ensures
        r matches Some(j) ==> first_named(params@, name@) == Some(j as int),
        r is None ==> first_named(params@, name@) is None,
{
    let mut k: usize = 0;
    while k < params.len()
        invariant
            k <= params@.len(),
            first_named(params@, name@) == first_named_from(params@, name@, k as int),
        decreases params.len() - k,
    {
        if str_equal(params[k].name.as_str(), name) {
            return Some(k);
        }
        k = k + 1;
    }
    None
}

/// Resolves a `length="..."` or `count="..."` reference (`role`) from the field at
/// `field_index` (described as `subject` in errors) to the index of a scalar integer field
/// declared before it.
pub fn resolve_prior_int_field(
    ev: &Event,
    provider: &str,
    field_index: usize,
    name: &str,
    subject: &str,
    role: &str,
) -> (res: Result<usize, ManifestError>)
    requires
        field_index < ev.params@.len(),
    ensures
        res is Ok <==> prior_int_field(ev.params@, field_index as int, name@) is Some,
        res matches Ok(k) ==> prior_int_field(ev.params@, field_index as int, name@) == Some(k as int),
        res matches Err(e) ==> e.spec_message() == prior_int_field_error(
            ev.params@,
            field_index as int,
            name@,
            ev.symbol@,
            provider@,
            subject@,
            role@,
        ),
{
    let field = &ev.params[field_index];
    let index = match find_first_named(&ev.params, name) {
        Some(k) => k,
        None => {
            let mut m = String::from_str(subject);
            push_str(&mut m, " ");
            push_str(&mut m, field.name.as_str());
            push_str(&mut m, " in event ");
            push_str(&mut m, ev.symbol.as_str());
            push_str(&mut m, " of provider ");
            push_str(&mut m, provider);
            push_str(&mut m, " references unknown ");
            push_str(&mut m, role);
            push_str(&mut m, " field ");
            push_str(&mut m, crate::text::debug_quote(name).as_str());
            proof {
                assert(m@ =~= prior_int_field_error(ev.params@, field_index as int, name@, ev.symbol@, provider@, subject@, role@));
            }
            return Err(ManifestError::new(m));
        },
    };
    proof {
        lemma_first_named_from(ev.params@, name@, 0);
    }
    if index >= field_index {
        let mut m = String::from_str(subject);
        push_str(&mut m, " ");
        push_str(&mut m, field.name.as_str());
        push_str(&mut m, " in event ");
        push_str(&mut m, ev.symbol.as_str());
        push_str(&mut m, " of provider ");
        push_str(&mut m, provider);
        push_str(&mut m, " references ");
        push_str(&mut m, role);
        push_str(&mut m, " field ");
        push_str(&mut m, crate::text::debug_quote(name).as_str());
        push_str(&mut m, ", which must appear before it");
        proof {
            assert(m@ =~= prior_int_field_error(ev.params@, field_index as int, name@, ev.symbol@, provider@, subject@, role@));
        }
        return Err(ManifestError::new(m));
    }
    let single = match ev.params[index].count {
        Count::Single => true,
        _ => false,
    };
    if !is_length_int(&ev.params[index].win_type) || !single {
        let mut m = String::from_str(role);
        push_str(&mut m, " field ");
        push_str(&mut m, crate::text::debug_quote(name).as_str());
        push_str(&mut m, " for ");
        push_str(&mut m, subject);
        push_str(&mut m, " ");
        push_str(&mut m, field.name.as_str());
        push_str(&mut m, " in event ");
        push_str(&mut m, ev.symbol.as_str());
        push_str(&mut m, " of provider ");
        push_str(&mut m, provider);
        push_str(&mut m, " must be a scalar win:UInt8, win:UInt16, win:UInt32, or win:HexInt32");
        proof {
            assert(m@ =~= prior_int_field_error(ev.params@, field_index as int, name@, ev.symbol@, provider@, subject@, role@));
        }
        return Err(ManifestError::new(m));
    }
    Ok(index)
}

/// The element length of string field `i` with declared length `l`, `None` if `l` names an
/// invalid length field or is the constant 0, which leaves no room for the terminating NUL.
pub open spec fn string_length(params: Seq<TypeInfo>, i: int, l: Length) -> Option<ElementLength> {
    match l {
        Length::Implicit => Some(ElementLength::Implicit),
        Length::Constant(n) => if n == 0 {
            None
        } else {
            Some(ElementLength::Fixed(n as usize))
        },
        Length::FieldRef(name) => match prior_int_field(params, i, name@) {
            Some(k) => Some(ElementLength::FieldRef(k as usize)),
            None => None,
        },
    }
}

/// The element length of binary field `i` with declared length `l`, `None` if `l` names an
/// invalid length field or an array of blobs declares no length.
pub open spec fn binary_length(params: Seq<TypeInfo>, i: int, l: Length) -> Option<ElementLength> {
    match l {
        Length::Implicit => if spec_cardinality(params[i].count) != Cardinality::Single {
            None
        } else {
            Some(ElementLength::Implicit)
        },
        Length::Constant(n) => Some(ElementLength::Fixed(n as usize)),
        Length::FieldRef(name) => match prior_int_field(params, i, name@) {
            Some(k) => Some(ElementLength::FieldRef(k as usize)),
            None => None,
        },
    }
}

/// The value plan of field `i`, `None` if a `length` reference is invalid, a string declares a
/// constant length of 0, or an array of blobs declares no length.
pub open spec fn spec_value_plan(params: Seq<TypeInfo>, i: int) -> Option<ValuePlan> {
    let cardinality = spec_cardinality(params[i].count);
    let kind = match params[i].win_type {
        WinType::Boolean => Some(ValueKind::Boolean),
        WinType::UnicodeString(l) => match string_length(params, i, l) {
            Some(length) => Some(ValueKind::String { encoding: StringEncoding::Unicode, length }),
            None => None,
        },
        WinType::AnsiString(l, e) => match string_length(params, i, l) {
            Some(length) => Some(ValueKind::String {
                encoding: if e == AnsiEncoding::ProviderAnsi { StringEncoding::ProviderAnsi } else { StringEncoding::Utf8 },
                length,
            }),
            None => None,
        },
        WinType::Binary(l) => match binary_length(params, i, l) {
            Some(length) => Some(ValueKind::Binary { length }),
            None => None,
        },
        WinType::Sid => Some(ValueKind::Sid),
        _ => Some(ValueKind::Scalar),
    };
    match kind {
        Some(kind) => Some(ValuePlan { kind, cardinality }),
        None => None,
    }
}

/// The message for a string field that declares a constant length of 0.
pub open spec fn zero_length_message(name: Seq<char>, symbol: Seq<char>, provider: Seq<char>) -> Seq<char> {
    "string field "@ + name + " in event "@ + symbol + " of provider "@ + provider + " declares a constant length of 0"@
}

/// The message for a string field `i` whose declared length `l` is rejected.
pub open spec fn string_length_error(
    params: Seq<TypeInfo>,
    i: int,
    l: Length,
    symbol: Seq<char>,
    provider: Seq<char>,
) -> Seq<char> {
    match l {
        Length::FieldRef(name) => prior_int_field_error(params, i, name@, symbol, provider, "string field"@, "length"@),
        _ => zero_length_message(params[i].name@, symbol, provider),
    }
}

fn plan_string_length(ev: &Event, provider: &str, field_index: usize, length: &Length) -> (res: Result<ElementLength, ManifestError>)
    requires
        field_index < ev.params@.len(),
    ensures
        res is Ok <==> string_length(ev.params@, field_index as int, *length) is Some,
        res matches Ok(l) ==> string_length(ev.params@, field_index as int, *length) == Some(l),
        res matches Err(e) ==> e.spec_message() == string_length_error(
            ev.params@,
            field_index as int,
            *length,
            ev.symbol@,
            provider@,
        ),
{
    match length {
        Length::Implicit => Ok(ElementLength::Implicit),
        Length::Constant(n) => {
            if *n == 0 {
                let mut m = String::from_str("string field ");
                push_str(&mut m, ev.params[field_index].name.as_str());
                push_str(&mut m, " in event ");
                push_str(&mut m, ev.symbol.as_str());
                push_str(&mut m, " of provider ");
                push_str(&mut m, provider);
                push_str(&mut m, " declares a constant length of 0");
                proof {
                    assert(m@ =~= zero_length_message(ev.params@[field_index as int].name@, ev.symbol@, provider@));
                }
                return Err(ManifestError::new(m));
            }
            Ok(ElementLength::Fixed(*n as usize))
        },
        Length::FieldRef(name) => {
            match resolve_prior_int_field(ev, provider, field_index, name.as_str(), "string field", "length") {
                Ok(k) => Ok(ElementLength::FieldRef(k)),
                Err(e) => Err(e),
            }
        },
    }
}

/// Whether field `i` is the first whose value plan is rejected.
pub open spec fn first_rejected_value(params: Seq<TypeInfo>, i: int) -> bool {
    &&& 0 <= i < params.len()
    &&& spec_value_plan(params, i) is None
    &&& forall|j: int| 0 <= j < i ==> (#[trigger] spec_value_plan(params, j)) is Some
}

/// The message for a field whose value plan is rejected: a string or binary field with an
/// invalid length reference, a string field with a constant length of 0, or an array of blobs
/// without a declared length.
pub open spec fn value_plan_error(params: Seq<TypeInfo>, i: int, symbol: Seq<char>, provider: Seq<char>) -> Seq<char> {
    match params[i].win_type {
        WinType::UnicodeString(l) => string_length_error(params, i, l, symbol, provider),
        WinType::AnsiString(l, _) => string_length_error(params, i, l, symbol, provider),
        WinType::Binary(Length::FieldRef(name)) => prior_int_field_error(
            params,
            i,
            name@,
            symbol,
            provider,
            "binary field"@,
            "length"@,
        ),
        _ => "binary array field "@ + params[i].name@ + " in event "@ + symbol + " of provider "@ + provider
            + " must declare a length"@,
    }
}

/// Builds the value plan of field `field_index`: its kind (with string encoding and element
/// length) and its cardinality.
pub fn build_value_plan(ev: &Event, provider: &str, field_index: usize) -> (res: Result<ValuePlan, ManifestError>)
    requires
        field_index < ev.params@.len(),
    ensures
        res is Ok <==> spec_value_plan(ev.params@, field_index as int) is Some,
        res matches Ok(v) ==> spec_value_plan(ev.params@, field_index as int) == Some(v),
        res matches Err(e) ==> e.spec_message() == value_plan_error(ev.params@, field_index as int, ev.symbol@, provider@),
{
    let field = &ev.params[field_index];
    let cardinality = Cardinality::from_count(&field.count);
    let kind = match &field.win_type {
        WinType::Boolean => ValueKind::Boolean,
        WinType::UnicodeString(length) => ValueKind::String {
            encoding: StringEncoding::Unicode,
            length: match plan_string_length(ev, provider, field_index, length) {
                Ok(l) => l,
                Err(e) => {
                    return Err(e);
                },
            },
        },
        WinType::AnsiString(length, encoding) => ValueKind::String {
            encoding: match encoding {
                AnsiEncoding::ProviderAnsi => StringEncoding::ProviderAnsi,
                AnsiEncoding::Utf8 => StringEncoding::Utf8,
            },
            length: match plan_string_length(ev, provider, field_index, length) {
                Ok(l) => l,
                Err(e) => {
                    return Err(e);
                },
            },
        },
        WinType::Binary(length) => ValueKind::Binary {
            length: match length {
                Length::Implicit => {
                    if cardinality.is_array() {
                        let mut m = String::from_str("binary array field ");
                        push_str(&mut m, field.name.as_str());
                        push_str(&mut m, " in event ");
                        push_str(&mut m, ev.symbol.as_str());
                        push_str(&mut m, " of provider ");
                        push_str(&mut m, provider);
                        push_str(&mut m, " must declare a length");
                        proof {
                            assert(m@ =~= value_plan_error(ev.params@, field_index as int, ev.symbol@, provider@));
                        }
                        return Err(ManifestError::new(m));
                    }
                    ElementLength::Implicit
                },
                Length::Constant(n) => ElementLength::Fixed(*n as usize),
                Length::FieldRef(name) => ElementLength::FieldRef(
                    match resolve_prior_int_field(ev, provider, field_index, name.as_str(), "binary field", "length") {
                        Ok(k) => k,
                        Err(e) => {
                            return Err(e);
                        },
                    },
                ),
            },
        },
        WinType::Sid => ValueKind::Sid,
        _ => ValueKind::Scalar,
    };
    Ok(ValuePlan { kind, cardinality })
}


/// A field derived from the values of other fields rather than passed by the caller.
#[derive(Debug, PartialEq, Eq)]
pub enum DerivedPlan {
    /// The length of the binary field at `from`.
    BinaryLength { from: usize },
    /// The common length of the array fields at `from`, in order.
    ArrayCount { from: Vec<usize> },
}

/// Whether a manifest field is emitted from a caller-provided value or derived from another
/// field.
#[derive(Debug, PartialEq, Eq)]
pub enum FieldRole {
    Value(ValuePlan),
    Derived(DerivedPlan),
}

/// The length field that binary field `i` references, if any.
pub open spec fn binary_ref(params: Seq<TypeInfo>, i: int) -> Option<int> {
    match spec_value_plan(params, i) {
        Some(v) => match v.kind {
            ValueKind::Binary { length: ElementLength::FieldRef(k) } => Some(k as int),
            _ => None,
        },
        None => None,
    }
}

/// The count field that array field `i` validly references, if any.
pub open spec fn count_ref(params: Seq<TypeInfo>, i: int) -> Option<int> {
    match params[i].count {
        Count::FieldRef(n) => prior_int_field(params, i, n@),
        _ => None,
    }
}

/// Whether field `i` has a `count` reference that is invalid.
pub open spec fn count_ref_invalid(params: Seq<TypeInfo>, i: int) -> bool {
    params[i].count is FieldRef && count_ref(params, i) is None
}

/// The array fields before position `n` whose count field is `k`, in order.
pub open spec fn count_sources(params: Seq<TypeInfo>, k: int, n: int) -> Seq<usize>
    decreases n,
{
    if n <= 0 {
        seq![]
    } else {
        count_sources(params, k, n - 1) + if count_ref(params, n - 1) == Some(k) {
            seq![(n - 1) as usize]
        } else {
            seq![]
        }
    }
}

/// Whether field `k` carries the length of some binary field.
pub open spec fn is_binary_length_field(params: Seq<TypeInfo>, k: int) -> bool {
    exists|j: int| 0 <= j < params.len() && #[trigger] binary_ref(params, j) == Some(k)
}

/// Whether field `k` carries the count of some array field (and no binary length).
pub open spec fn is_count_field(params: Seq<TypeInfo>, k: int) -> bool {
    !is_binary_length_field(params, k) && count_sources(params, k, params.len() as int).len() > 0
}

/// Whether the caller passes field `k` (it is neither a binary length nor an array count).
pub open spec fn is_exposed(params: Seq<TypeInfo>, k: int) -> bool {
    !is_binary_length_field(params, k) && !is_count_field(params, k)
}

/// Whether an event's field dependencies are rejected: a field with an invalid `length`
/// reference or a length-less binary array, a length field shared by two binary fields, an
/// invalid `count` reference, or a field used as both a binary length and an array count.
pub open spec fn roles_rejected(params: Seq<TypeInfo>) -> bool {
    ||| exists|i: int| 0 <= i < params.len() && #[trigger] spec_value_plan(params, i) is None
    ||| exists|i1: int, i2: int| 0 <= i1 < i2 < params.len() && #[trigger] binary_ref(params, i1) is Some
        && binary_ref(params, i1) == #[trigger] binary_ref(params, i2)
    ||| exists|i: int| 0 <= i < params.len() && #[trigger] count_ref_invalid(params, i)
    ||| exists|i: int, j: int| 0 <= i < params.len() && 0 <= j < params.len() && #[trigger] count_ref(params, i) is Some
        && count_ref(params, i) == #[trigger] binary_ref(params, j)
}

/// Whether every field has a value plan.
pub open spec fn values_planned(params: Seq<TypeInfo>) -> bool {
    forall|i: int| 0 <= i < params.len() ==> (#[trigger] spec_value_plan(params, i)) is Some
}

/// Whether no two binary fields reference the same length field.
pub open spec fn lengths_unshared(params: Seq<TypeInfo>) -> bool {
    forall|a: int, b: int| 0 <= a < b < params.len() && #[trigger] binary_ref(params, a) is Some
        ==> binary_ref(params, a) != #[trigger] binary_ref(params, b)
}

/// Whether binary fields `j1 < j2` are the first pair that share a length field: every field
/// has a value plan, no pair ending before `j2` shares one, and `j1` is the first field that
/// references the length field of `j2`.
pub open spec fn first_shared_length(params: Seq<TypeInfo>, j1: int, j2: int) -> bool {
    &&& values_planned(params)
    &&& 0 <= j1 < j2 < params.len()
    &&& binary_ref(params, j2) is Some
    &&& binary_ref(params, j1) == binary_ref(params, j2)
    &&& forall|a: int| 0 <= a < j1 ==> #[trigger] binary_ref(params, a) != binary_ref(params, j2)
    &&& forall|a: int, b: int| 0 <= a < b < j2 && #[trigger] binary_ref(params, a) is Some
        ==> binary_ref(params, a) != #[trigger] binary_ref(params, b)
}

/// The message for binary fields `j1` and `j2` that share the length field `t`.
pub open spec fn shared_length_message(
    params: Seq<TypeInfo>,
    t: int,
    j1: int,
    j2: int,
    symbol: Seq<char>,
    provider: Seq<char>,
) -> Seq<char> {
    "field "@ + debug_quoted(params[t].name@) + " in event "@ + symbol + " of provider "@ + provider
        + " is referenced by multiple derived values ("@ + params[j1].name@ + " and "@ + params[j2].name@ + ")"@
}

/// Whether the `count` reference of field `i` is invalid or names a binary length field.
pub open spec fn count_conflict(params: Seq<TypeInfo>, i: int) -> bool {
    ||| count_ref_invalid(params, i)
    ||| exists|b: int| 0 <= b < params.len() && count_ref(params, i) is Some && count_ref(params, i)
        == #[trigger] binary_ref(params, b)
}

/// Whether field `i` is the first whose `count` reference is rejected, once every field has a
/// value plan and no length field is shared.
pub open spec fn first_count_failure(params: Seq<TypeInfo>, i: int) -> bool {
    &&& values_planned(params)
    &&& lengths_unshared(params)
    &&& 0 <= i < params.len()
    &&& count_conflict(params, i)
    &&& forall|j: int| 0 <= j < i ==> !#[trigger] count_conflict(params, j)
}

/// The binary field whose length field is the count field of field `i`.
pub open spec fn counted_blob(params: Seq<TypeInfo>, i: int) -> int {
    choose|b: int| 0 <= b < params.len() && #[trigger] binary_ref(params, b) == count_ref(params, i)
}

/// The message for field `i` whose `count` reference is rejected: the reference is invalid, or
/// names the length field of a binary field.
pub open spec fn count_failure_message(params: Seq<TypeInfo>, i: int, symbol: Seq<char>, provider: Seq<char>) -> Seq<char> {
    let name = params[i].count->FieldRef_0@;
    if count_ref_invalid(params, i) {
        prior_int_field_error(params, i, name, symbol, provider, "array field"@, "count"@)
    } else {
        "field "@ + debug_quoted(name) + " in event "@ + symbol + " of provider "@ + provider
            + " is used as both a binary length and an array count ("@ + params[counted_blob(params, i)].name@
            + " and "@ + params[i].name@ + ")"@
    }
}

/// Whether `msg` is the message for rejected field dependencies: that of the first rejected
/// value plan, else of the first pair of binary fields that share a length field, else of the
/// first rejected `count` reference.
pub open spec fn reports_roles(params: Seq<TypeInfo>, symbol: Seq<char>, provider: Seq<char>, msg: Seq<char>) -> bool {
    &&& forall|i: int| #[trigger] first_rejected_value(params, i) ==> msg == value_plan_error(params, i, symbol, provider)
    &&& forall|j1: int, j2: int| #[trigger] first_shared_length(params, j1, j2) ==> msg == shared_length_message(
        params,
        binary_ref(params, j2)->Some_0,
        j1,
        j2,
        symbol,
        provider,
    )
    &&& forall|i: int| #[trigger] first_count_failure(params, i) ==> msg == count_failure_message(params, i, symbol, provider)
}

/// Whether `r` is the role of field `k`: the length of the binary field that references it,
/// else the count of the array fields that reference it, else a caller-provided value.
pub open spec fn is_role_of(r: FieldRole, params: Seq<TypeInfo>, k: int) -> bool {
    if is_binary_length_field(params, k) {
        r matches FieldRole::Derived(DerivedPlan::BinaryLength { from }) && binary_ref(params, from as int) == Some(k)
            && from < params.len()
    } else if is_count_field(params, k) {
        r matches FieldRole::Derived(DerivedPlan::ArrayCount { from }) && from@ == count_sources(params, k, params.len() as int)
    } else {
        spec_value_plan(params, k) matches Some(v) && r == FieldRole::Value(v)
    }
}

proof fn lemma_count_sources(params: Seq<TypeInfo>, k: int, n: int)
    requires
        0 <= n <= params.len(),
        params.len() <= usize::MAX,
    ensures
        forall|m: int| 0 <= m < count_sources(params, k, n).len() ==> {
            let i = #[trigger] count_sources(params, k, n)[m];
            i < n && count_ref(params, i as int) == Some(k)
        },
        (exists|i: int| 0 <= i < n && count_ref(params, i) == Some(k)) ==> count_sources(params, k, n).len() > 0,
        (forall|i: int| 0 <= i < n ==> count_ref(params, i) != Some(k)) ==> count_sources(params, k, n).len() == 0,
    decreases n,
{
    if n > 0 {
        lemma_count_sources(params, k, n - 1);
        let prev = count_sources(params, k, n - 1);
        let cur = count_sources(params, k, n);
        assert forall|m: int| 0 <= m < cur.len() implies {
            let i = #[trigger] cur[m];
            i < n && count_ref(params, i as int) == Some(k)
        } by {
            if m < prev.len() {
                assert(cur[m] == prev[m]);
            } else {
                assert(cur[m] == (n - 1) as usize);
            }
        }
    }
}

/// A binary field's length reference names an earlier single integer field.
pub proof fn lemma_binary_ref_prior(params: Seq<TypeInfo>, i: int)
    requires
        0 <= i < params.len(),
        params.len() <= usize::MAX,
    ensures
        binary_ref(params, i) matches Some(k) ==> 0 <= k < i && spec_is_length_int(params[k].win_type)
            && params[k].count == Count::Single,
{
    if let WinType::Binary(Length::FieldRef(name)) = params[i].win_type {
        lemma_first_named_from(params, name@, 0);
    }
}

/// An array field's count reference names an earlier single integer field.
pub proof fn lemma_count_ref_prior(params: Seq<TypeInfo>, i: int)
    requires
        0 <= i < params.len(),
    ensures
        count_ref(params, i) matches Some(k) ==> 0 <= k < i && spec_is_length_int(params[k].win_type)
            && params[k].count == Count::Single,
{
    if let Count::FieldRef(name) = params[i].count {
        lemma_first_named_from(params, name@, 0);
    }
}

/// Once every field has a value plan and no length field is shared, a field whose `count`
/// reference is the first rejected one is the only first rejected one, and no value plan or
/// pair of binary fields comes first.
proof fn lemma_count_failure_first(params: Seq<TypeInfo>, plans: Seq<ValuePlan>, x: int)
    requires
        0 <= x < params.len(),
        plans.len() == params.len(),
        forall|j: int| 0 <= j < params.len() ==> spec_value_plan(params, j) == Some(#[trigger] plans[j]),
        forall|j1: int, j2: int| 0 <= j1 < j2 < params.len() && #[trigger] binary_ref(params, j1) is Some
            ==> binary_ref(params, j1) != #[trigger] binary_ref(params, j2),
        forall|j: int| 0 <= j < x ==> !#[trigger] count_ref_invalid(params, j),
        forall|j: int, b: int| 0 <= j < x && 0 <= b < params.len() ==> !(#[trigger] count_ref(params, j) is Some
            && count_ref(params, j) == #[trigger] binary_ref(params, b)),
        count_conflict(params, x),
    ensures
        first_count_failure(params, x),
        forall|i: int| #[trigger] first_count_failure(params, i) ==> i == x,
        forall|j1: int, j2: int| !#[trigger] first_shared_length(params, j1, j2),
        forall|i: int| !#[trigger] first_rejected_value(params, i),
{
    assert(values_planned(params)) by {
        assert forall|j: int| 0 <= j < params.len() implies (#[trigger] spec_value_plan(params, j)) is Some by {
            assert(spec_value_plan(params, j) == Some(plans[j]));
        }
    }
    assert forall|j: int| 0 <= j < x implies !#[trigger] count_conflict(params, j) by {
        assert(!count_ref_invalid(params, j));
        assert forall|b: int| 0 <= b < params.len() implies !(count_ref(params, j) is Some && count_ref(params, j)
            == #[trigger] binary_ref(params, b)) by {
            assert(!(count_ref(params, j) is Some && count_ref(params, j) == binary_ref(params, b)));
        }
    }
    assert(first_count_failure(params, x));
    assert forall|j1: int, j2: int| !#[trigger] first_shared_length(params, j1, j2) by {
        if first_shared_length(params, j1, j2) {
            assert(binary_ref(params, j1) is Some && binary_ref(params, j1) == binary_ref(params, j2));
        }
    }
    assert forall|i: int| !#[trigger] first_rejected_value(params, i) by {
        if first_rejected_value(params, i) {
            assert(spec_value_plan(params, i) == Some(plans[i]));
        }
    }
}

/// Resolves which fields are caller-provided values and which are derived: a field named by a
/// binary field's `length` is that blob's length, a field named by array `count`s is their
/// common length. Fails if a field's dependencies are rejected.
pub fn field_roles(ev: &Event, provider: &str) -> (res: Result<Vec<FieldRole>, ManifestError>)
    ensures
        res is Ok <==> !roles_rejected(ev.params@),
        forall|i: int| #[trigger] first_rejected_value(ev.params@, i) ==> (res matches Err(e)
            && e.spec_message() == value_plan_error(ev.params@, i, ev.symbol@, provider@)),
        res matches Err(e) ==> reports_roles(ev.params@, ev.symbol@, provider@, e.spec_message()),
        res matches Ok(roles) ==> roles@.len() == ev.params@.len() && forall|k: int|
            0 <= k < roles@.len() ==> is_role_of(#[trigger] roles@[k], ev.params@, k),
{
    let n = ev.params.len();
    let ghost params = ev.params@;
    let mut plans: Vec<ValuePlan> = Vec::new();
    let mut i: usize = 0;
    while i < n
        invariant
            i <= n == params.len(),
            params == ev.params@,
            plans@.len() == i,
            forall|j: int| 0 <= j < i ==> spec_value_plan(params, j) == Some(#[trigger] plans@[j]),
        decreases n - i,
    {
        let v = match build_value_plan(ev, provider, i) {
            Ok(v) => v,
            Err(e) => {
                assert(spec_value_plan(params, i as int) is None);
                assert forall|i2: int| #[trigger] first_rejected_value(params, i2) implies i2 == i by {
                    if i2 < i {
                        assert(spec_value_plan(params, i2) == Some(plans@[i2]));
                    } else if i2 > i {
                        assert(spec_value_plan(params, i as int) is Some);
                    }
                }
                assert(!values_planned(params));
                return Err(e);
            },
        };
        plans.push(v);
        i = i + 1;
    }
    assert forall|i2: int| !#[trigger] first_rejected_value(params, i2) by {
        if 0 <= i2 < n {
            assert(spec_value_plan(params, i2) == Some(plans@[i2]));
        }
    }
    // A referenced binary length is derived from exactly one binary field.
    let mut bin_from: Vec<Option<usize>> = Vec::new();
    let mut k: usize = 0;
    while k < n
        invariant
            k <= n == params.len(),
            bin_from@.len() == k,
            forall|j: int| 0 <= j < k ==> #[trigger] bin_from@[j] is None,
        decreases n - k,
    {
        bin_from.push(None);
        k = k + 1;
    }
    let mut index: usize = 0;
    while index < n
        invariant
            index <= n == params.len(),
            params == ev.params@,
            forall|i2: int| !#[trigger] first_rejected_value(params, i2),
            plans@.len() == n,
            bin_from@.len() == n,
            forall|j: int| 0 <= j < n ==> spec_value_plan(params, j) == Some(#[trigger] plans@[j]),
            forall|t: int| 0 <= t < n ==> (match #[trigger] bin_from@[t] {
                Some(j) => j < index && binary_ref(params, j as int) == Some(t),
                None => forall|j: int| 0 <= j < index ==> binary_ref(params, j) != Some(t),
            }),
            forall|j1: int, j2: int| 0 <= j1 < j2 < index && #[trigger] binary_ref(params, j1) is Some
                ==> binary_ref(params, j1) != #[trigger] binary_ref(params, j2),
        decreases n - index,
    {
        if let ValueKind::Binary { length: ElementLength::FieldRef(length_field) } = plans[index].kind {
            assert(binary_ref(params, index as int) == Some(length_field as int));
            proof {
                let ghost v = spec_value_plan(params, index as int)->Some_0;
                assert(v == plans@[index as int]);
            }
            proof {
                lemma_binary_ref_prior(params, index as int);
            }
            match bin_from[length_field] {
                Some(other) => {
                    assert(binary_ref(params, other as int) == binary_ref(params, index as int));
                    let mut m = String::from_str("field ");
                    push_str(&mut m, crate::text::debug_quote(ev.params[length_field].name.as_str()).as_str());
                    push_str(&mut m, " in event ");
                    push_str(&mut m, ev.symbol.as_str());
                    push_str(&mut m, " of provider ");
                    push_str(&mut m, provider);
                    push_str(&mut m, " is referenced by multiple derived values (");
                    push_str(&mut m, ev.params[other].name.as_str());
                    push_str(&mut m, " and ");
                    push_str(&mut m, ev.params[index].name.as_str());
                    push_str(&mut m, ")");
                    let e = ManifestError::new(m);
                    proof {
                        let o = other as int;
                        let x = index as int;
                        assert(values_planned(params)) by {
                            assert forall|j: int| 0 <= j < params.len() implies (#[trigger] spec_value_plan(params, j)) is Some by {
                                assert(spec_value_plan(params, j) == Some(plans@[j]));
                            }
                        }
                        assert forall|a: int| 0 <= a < o implies #[trigger] binary_ref(params, a) != binary_ref(params, x) by {
                            if binary_ref(params, a) == binary_ref(params, x) {
                                assert(binary_ref(params, a) is Some && binary_ref(params, a) == binary_ref(params, o));
                            }
                        }
                        assert(first_shared_length(params, o, x));
                        assert forall|j1: int, j2: int| #[trigger] first_shared_length(params, j1, j2) implies j1 == o
                            && j2 == x by {
                            if j2 < x {
                                assert(binary_ref(params, j1) is Some && binary_ref(params, j1) == binary_ref(params, j2));
                            } else if j2 > x {
                                assert(binary_ref(params, o) is Some && binary_ref(params, o) == binary_ref(params, x));
                            } else if j1 < o {
                                assert(binary_ref(params, j1) is Some && binary_ref(params, j1) == binary_ref(params, o));
                            } else if j1 > o {
                                assert(binary_ref(params, o) == binary_ref(params, j2));
                            }
                        }
                        assert(!lengths_unshared(params)) by {
                            assert(binary_ref(params, o) is Some && binary_ref(params, o) == binary_ref(params, x));
                        }
                        assert(e.spec_message() =~= shared_length_message(params, length_field as int, o, x, ev.symbol@, provider@));
                    }
                    return Err(e);
                },
                None => {
                    bin_from.set(length_field, Some(index));
                },
            }
        } else {
            assert(binary_ref(params, index as int) is None) by {
                assert(spec_value_plan(params, index as int) == Some(plans@[index as int]));
            }
        }
        index = index + 1;
    }
    // A count field may describe multiple arrays.
    let mut counts: Vec<(usize, usize)> = Vec::new();
    let mut index: usize = 0;
    while index < n
        invariant
            index <= n == params.len(),
            params == ev.params@,
            forall|i2: int| !#[trigger] first_rejected_value(params, i2),
            plans@.len() == n,
            bin_from@.len() == n,
            forall|j: int| 0 <= j < n ==> spec_value_plan(params, j) == Some(#[trigger] plans@[j]),
            forall|t: int| 0 <= t < n ==> (match #[trigger] bin_from@[t] {
                Some(j) => j < n && binary_ref(params, j as int) == Some(t),
                None => forall|j: int| 0 <= j < n ==> binary_ref(params, j) != Some(t),
            }),
            forall|j1: int, j2: int| 0 <= j1 < j2 < n && #[trigger] binary_ref(params, j1) is Some
                ==> binary_ref(params, j1) != #[trigger] binary_ref(params, j2),
            forall|m: int| 0 <= m < counts@.len() ==> {
                let c = #[trigger] counts@[m];
                c.1 < index && count_ref(params, c.1 as int) == Some(c.0 as int) && c.0 < n
            },
            forall|t: int| 0 <= t < n ==> count_sources(params, t, index as int) == #[trigger] sources_in(counts@, t),
            forall|j: int| 0 <= j < index ==> !#[trigger] count_ref_invalid(params, j),
            forall|j: int, b: int| 0 <= j < index && 0 <= b < n ==> !(#[trigger] count_ref(params, j) is Some
                && count_ref(params, j) == #[trigger] binary_ref(params, b)),
        decreases n - index,
    {
        let field = &ev.params[index];
        let ghost before = counts@;
        if let Count::FieldRef(name) = &field.count {
            let count_field = match resolve_prior_int_field(ev, provider, index, name.as_str(), "array field", "count") {
                Ok(c) => c,
                Err(e) => {
                    assert(count_ref_invalid(params, index as int));
                    proof {
                        lemma_count_failure_first(params, plans@, index as int);
                    }
                    return Err(e);
                },
            };
            assert(count_ref(params, index as int) == Some(count_field as int));
            if let Some(from) = bin_from[count_field] {
                assert(binary_ref(params, from as int) == count_ref(params, index as int));
                let mut m = String::from_str("field ");
                push_str(&mut m, crate::text::debug_quote(name.as_str()).as_str());
                push_str(&mut m, " in event ");
                push_str(&mut m, ev.symbol.as_str());
                push_str(&mut m, " of provider ");
                push_str(&mut m, provider);
                push_str(&mut m, " is used as both a binary length and an array count (");
                push_str(&mut m, ev.params[from].name.as_str());
                push_str(&mut m, " and ");
                push_str(&mut m, field.name.as_str());
                push_str(&mut m, ")");
                let e = ManifestError::new(m);
                proof {
                    assert(count_conflict(params, index as int)) by {
                        assert(binary_ref(params, from as int) == count_ref(params, index as int));
                    }
                    lemma_count_failure_first(params, plans@, index as int);
                    let b = counted_blob(params, index as int);
                    assert(0 <= b < params.len() && binary_ref(params, b) == count_ref(params, index as int));
                    if b < from {
                        assert(binary_ref(params, b) is Some && binary_ref(params, b) == binary_ref(params, from as int));
                    } else if b > from {
                        assert(binary_ref(params, from as int) is Some && binary_ref(params, from as int) == binary_ref(params, b));
                    }
                    assert(e.spec_message() =~= count_failure_message(params, index as int, ev.symbol@, provider@));
                }
                return Err(e);
            }
            counts.push((count_field, index));
            proof {
                lemma_count_ref_prior(params, index as int);
                assert forall|t: int| 0 <= t < n implies count_sources(params, t, index + 1) == #[trigger] sources_in(counts@, t) by {
                    assert(counts@.drop_last() =~= before);
                    assert(counts@.last() == (count_field, index));
                    assert(sources_in(counts@, t) == sources_in(before, t) + if count_field == t {
                        seq![index]
                    } else {
                        seq![]
                    });
                    assert(count_sources(params, t, index + 1) == count_sources(params, t, index as int) + if count_ref(params, index as int) == Some(t) {
                        seq![index]
                    } else {
                        seq![]
                    });
                }
            }
        } else {
            proof {
                assert forall|t: int| 0 <= t < n implies count_sources(params, t, index + 1) == #[trigger] sources_in(counts@, t) by {
                    assert(count_ref(params, index as int) is None);
                }
            }
        }
        index = index + 1;
    }
    proof {
        assert(!roles_rejected(params)) by {
            assert forall|i1: int, i2: int| 0 <= i1 < i2 < params.len() && #[trigger] binary_ref(params, i1) is Some
                implies binary_ref(params, i1) != #[trigger] binary_ref(params, i2) by {}
            assert forall|i: int| 0 <= i < params.len() implies #[trigger] spec_value_plan(params, i) is Some by {
                assert(spec_value_plan(params, i) == Some(plans@[i]));
            }
        }
        assert forall|t: int| 0 <= t < n implies #[trigger] bin_from@[t] is Some == is_binary_length_field(params, t) by {
            if bin_from@[t] is None {
                assert(!is_binary_length_field(params, t));
            }
        }
    }
    let mut roles: Vec<FieldRole> = Vec::new();
    let mut t: usize = 0;
    while t < n
        invariant
            t <= n == params.len(),
            params == ev.params@,
            plans@.len() == n,
            bin_from@.len() == n,
            roles@.len() == t,
            forall|j: int| 0 <= j < n ==> spec_value_plan(params, j) == Some(#[trigger] plans@[j]),
            forall|u: int| 0 <= u < n ==> (match #[trigger] bin_from@[u] {
                Some(j) => j < n && binary_ref(params, j as int) == Some(u),
                None => forall|j: int| 0 <= j < n ==> binary_ref(params, j) != Some(u),
            }),
            forall|u: int| 0 <= u < n ==> #[trigger] bin_from@[u] is Some == is_binary_length_field(params, u),
            forall|u: int| 0 <= u < n ==> count_sources(params, u, n as int) == #[trigger] sources_in(counts@, u),
            forall|j: int| 0 <= j < t ==> is_role_of(#[trigger] roles@[j], params, j),
        decreases n - t,
    {
        let role = match bin_from[t] {
            Some(from) => FieldRole::Derived(DerivedPlan::BinaryLength { from }),
            None => {
                let from = collect_sources(&counts, t);
                if from.len() > 0 {
                    FieldRole::Derived(DerivedPlan::ArrayCount { from })
                } else {
                    FieldRole::Value(plans[t])
                }
            },
        };
        roles.push(role);
        t = t + 1;
    }
    Ok(roles)
}

/// The sources of count field `t` in a list of (count field, array field) pairs, in order.
pub open spec fn sources_in(counts: Seq<(usize, usize)>, t: int) -> Seq<usize>
    decreases counts.len(),
{
    if counts.len() == 0 {
        seq![]
    } else {
        sources_in(counts.drop_last(), t) + if counts.last().0 == t {
            seq![counts.last().1]
        } else {
            seq![]
        }
    }
}

fn collect_sources(counts: &Vec<(usize, usize)>, t: usize) -> (from: Vec<usize>)
    ensures
        from@ == sources_in(counts@, t as int),
{
    let mut from: Vec<usize> = Vec::new();
    let mut m: usize = 0;
    while m < counts.len()
        invariant
            m <= counts@.len(),
            from@ == sources_in(counts@.take(m as int), t as int),
        decreases counts.len() - m,
    {
        assert(counts@.take(m + 1).drop_last() =~= counts@.take(m as int));
        if counts[m].0 == t {
            from.push(counts[m].1);
        }
        m = m + 1;
    }
    assert(counts@.take(m as int) =~= counts@);
    from
}


/// The identifier of field `k` in generated code, given whether the cleaned snake_case form of
/// its name parses as a plain identifier: `__len<k>` for a binary length, `__count<k>` for an
/// array count, otherwise the safe snake_case form of its name.
pub open spec fn field_ident_with(params: Seq<TypeInfo>, k: int, parses: bool) -> Seq<char> {
    if is_binary_length_field(params, k) {
        "__len"@ + decimal_text(k as nat)
    } else if is_count_field(params, k) {
        "__count"@ + decimal_text(k as nat)
    } else {
        safe_ident_with(snake_case_of(params[k].name@), parses)
    }
}

/// Whether `r` is an identifier that field `k` may get, whichever answer the identifier parser
/// gives.
pub open spec fn is_field_ident(params: Seq<TypeInfo>, k: int, r: Seq<char>) -> bool {
    r == field_ident_with(params, k, true) || r == field_ident_with(params, k, false)
}

/// Whether fields `k1` and `k2` may get the same identifier.
pub open spec fn idents_may_meet(params: Seq<TypeInfo>, k1: int, k2: int) -> bool {
    ||| field_ident_with(params, k1, true) == field_ident_with(params, k2, true)
    ||| field_ident_with(params, k1, true) == field_ident_with(params, k2, false)
    ||| field_ident_with(params, k1, false) == field_ident_with(params, k2, true)
    ||| field_ident_with(params, k1, false) == field_ident_with(params, k2, false)
}

/// Whether two caller-provided fields of an event may get the same parameter name.
pub open spec fn idents_may_collide(params: Seq<TypeInfo>) -> bool {
    exists|k1: int, k2: int| 0 <= k1 < k2 < params.len() && is_exposed(params, k1) && is_exposed(params, k2)
        && #[trigger] idents_may_meet(params, k1, k2)
}

/// Whether the caller-provided fields of `ids` all have distinct identifiers.
pub open spec fn exposed_distinct(params: Seq<TypeInfo>, ids: Seq<String>) -> bool {
    forall|k1: int, k2: int| 0 <= k1 < k2 < ids.len() && is_exposed(params, k1) && is_exposed(params, k2)
        ==> (#[trigger] ids[k1])@ != (#[trigger] ids[k2])@
}

/// Whether `ids` names each field of an event by an identifier it may get, with distinct
/// identifiers for the caller-provided fields.
pub open spec fn idents_of(params: Seq<TypeInfo>, ids: Seq<String>) -> bool {
    &&& ids.len() == params.len()
    &&& forall|k: int| 0 <= k < ids.len() ==> is_field_ident(params, k, (#[trigger] ids[k])@)
    &&& exposed_distinct(params, ids)
}

/// The message for two caller-provided fields whose parameter names are the same.
pub open spec fn field_collision_message(
    name: Seq<char>,
    prev: Seq<char>,
    symbol: Seq<char>,
    provider: Seq<char>,
    ident: Seq<char>,
) -> Seq<char> {
    "param name "@ + name + " collides with "@ + prev + " in event "@ + symbol + " of provider "@ + provider
        + " (both transform to: "@ + ident + ")"@
}

/// Whether `msg` reports that caller-provided fields `j < i` of the event got the same
/// identifier `ident`, one that both may get.
pub open spec fn field_collision(
    params: Seq<TypeInfo>,
    j: int,
    i: int,
    ident: Seq<char>,
    symbol: Seq<char>,
    provider: Seq<char>,
    msg: Seq<char>,
) -> bool {
    &&& 0 <= j < i < params.len()
    &&& is_exposed(params, j)
    &&& is_exposed(params, i)
    &&& is_field_ident(params, j, ident)
    &&& is_field_ident(params, i, ident)
    &&& msg == field_collision_message(params[i].name@, params[j].name@, symbol, provider, ident)
}

/// Whether `msg` reports a collision of two caller-provided fields of the event.
pub open spec fn reports_field_collision(params: Seq<TypeInfo>, symbol: Seq<char>, provider: Seq<char>, msg: Seq<char>) -> bool {
    exists|j: int, i: int, ident: Seq<char>| #[trigger] field_collision(params, j, i, ident, symbol, provider, msg)
}

proof fn lemma_roles_exposed(params: Seq<TypeInfo>, roles: Seq<FieldRole>, k: int)
    requires
        0 <= k < params.len(),
        roles.len() == params.len(),
        is_role_of(roles[k], params, k),
    ensures
        roles[k] is Value <==> is_exposed(params, k),
        roles[k] matches FieldRole::Derived(DerivedPlan::BinaryLength { .. }) <==> is_binary_length_field(params, k),
{
}

/// Names every field: derived fields by position, caller-provided fields by their safe
/// snake_case name. Fails if two caller-provided fields get the same name.
fn field_idents(ev: &Event, provider: &str, roles: &Vec<FieldRole>) -> (res: Result<Vec<String>, ManifestError>)
    requires
        roles@.len() == ev.params@.len(),
        forall|k: int| 0 <= k < roles@.len() ==> is_role_of(#[trigger] roles@[k], ev.params@, k),
    ensures
        !idents_may_collide(ev.params@) ==> res is Ok,
        res matches Ok(ids) ==> idents_of(ev.params@, ids@),
        res matches Err(e) ==> reports_field_collision(ev.params@, ev.symbol@, provider@, e.spec_message()),
{
    let ghost params = ev.params@;
    let mut idents: Vec<String> = Vec::new();
    let mut i: usize = 0;
    while i < roles.len()
        invariant
            i <= roles@.len() == params.len(),
            params == ev.params@,
            forall|k: int| 0 <= k < roles@.len() ==> is_role_of(#[trigger] roles@[k], params, k),
            idents@.len() == i,
            forall|k: int| 0 <= k < i ==> is_field_ident(params, k, (#[trigger] idents@[k])@),
            forall|k1: int, k2: int| 0 <= k1 < k2 < i && is_exposed(params, k1) && is_exposed(params, k2)
                ==> (#[trigger] idents@[k1])@ != (#[trigger] idents@[k2])@,
        decreases roles.len() - i,
    {
        proof {
            lemma_roles_exposed(params, roles@, i as int);
        }
        let ident = match &roles[i] {
            FieldRole::Derived(DerivedPlan::BinaryLength { .. }) => {
                let mut s = String::from_str("__len");
                push_decimal(&mut s, i as u64);
                s
            },
            FieldRole::Derived(DerivedPlan::ArrayCount { .. }) => {
                let mut s = String::from_str("__count");
                push_decimal(&mut s, i as u64);
                s
            },
            FieldRole::Value(_) => {
                let snake = to_snake_case(ev.params[i].name.as_str());
                let name = safe_ident(snake.as_str());
                let mut j: usize = 0;
                while j < i
                    invariant
                        j <= i < roles@.len() == params.len(),
                        params == ev.params@,
                        idents@.len() == i,
                        is_field_ident(params, i as int, name@),
                        is_exposed(params, i as int),
                        forall|k: int| 0 <= k < roles@.len() ==> is_role_of(#[trigger] roles@[k], params, k),
                        forall|k: int| 0 <= k < i ==> is_field_ident(params, k, (#[trigger] idents@[k])@),
                        forall|k: int| 0 <= k < j && is_exposed(params, k) ==> (#[trigger] idents@[k])@ != name@,
                    decreases i - j,
                {
                    proof {
                        lemma_roles_exposed(params, roles@, j as int);
                    }
                    let exposed = match &roles[j] {
                        FieldRole::Value(_) => true,
                        _ => false,
                    };
                    if exposed && str_equal(idents[j].as_str(), name.as_str()) {
                        let mut m = String::from_str("param name ");
                        push_str(&mut m, ev.params[i].name.as_str());
                        push_str(&mut m, " collides with ");
                        push_str(&mut m, ev.params[j].name.as_str());
                        push_str(&mut m, " in event ");
                        push_str(&mut m, ev.symbol.as_str());
                        push_str(&mut m, " of provider ");
                        push_str(&mut m, provider);
                        push_str(&mut m, " (both transform to: ");
                        push_str(&mut m, name.as_str());
                        push_str(&mut m, ")");
                        let e = ManifestError::new(m);
                        proof {
                            assert(is_field_ident(params, j as int, idents@[j as int]@));
                            assert(e.spec_message() =~= field_collision_message(
                                params[i as int].name@,
                                params[j as int].name@,
                                ev.symbol@,
                                provider@,
                                name@,
                            ));
                            assert(field_collision(params, j as int, i as int, name@, ev.symbol@, provider@, e.spec_message()));
                            assert(idents_may_meet(params, j as int, i as int));
                        }
                        return Err(e);
                    }
                    j = j + 1;
                }
                name
            },
        };
        proof {
            if is_exposed(params, i as int) {
                assert(forall|k: int| 0 <= k < i && is_exposed(params, k) ==> (#[trigger] idents@[k])@ != ident@);
            }
        }
        let ghost before = idents@;
        idents.push(ident);
        proof {
            assert(forall|k: int| 0 <= k < i ==> #[trigger] idents@[k] == before[k]);
        }
        i = i + 1;
    }
    Ok(idents)
}


/// A string width: a constant, or the value of the field at an index.
#[derive(Clone, Copy, Debug, PartialEq, Eq, Structural)]
pub enum Width {
    Const(usize),
    Field(usize),
}

/// A runtime string encoder.
#[derive(Clone, Copy, Debug, PartialEq, Eq, Structural)]
pub enum EncodeFn {
    /// `field::to_u16cstring`.
    U16CString,
    /// `field::to_u16cstring_fixed_len`.
    U16CStringFixedLen,
    /// `field::to_cstring`.
    CString,
    /// `field::to_cstring_fixed_len`.
    CStringFixedLen,
}

/// A fallible input check run before an event is written. Field `i` is named by its
/// identifier; `value` is the element of a loop over an array.
#[derive(Clone, Copy, Debug, PartialEq, Eq, Structural)]
pub enum Check {
    /// `ensure_len(input.len(), width as usize)?` when `width` is given, then
    /// `ensure_nul_terminated(input)?`.
    AnsiInput { input: usize, width: Option<usize> },
    /// `ensure_nonzero_length(width)?`.
    NonzeroWidth(Width),
    /// The `AnsiInput` checks on every element of the array `input`.
    AnsiEach { input: usize, width: Option<usize> },
    /// `let _: T = checked_len(uniform_len(from)? or from.len())?`.
    DerivedLength { ty: ScalarTy, from: usize, uniform: bool },
    /// `ensure_len(other.len(), first.len())?` for every array counted by `count_field` after
    /// the first, then `let _: T = checked_len(first.len())?`.
    DerivedCount { ty: ScalarTy, count_field: usize },
}

/// How each element of an array parameter is added to its packed buffer.
#[derive(Clone, Copy, Debug, PartialEq, Eq, Structural)]
pub enum Each {
    /// Appends the element encoded by `func` (with the width, if any).
    ExtendEncoded { func: EncodeFn, width: Option<Width> },
    /// Appends the element's bytes.
    ExtendValue,
    /// Appends the SID's bytes.
    ExtendSidBytes,
    /// Pushes the boolean as an `i32`.
    PushBoolAsI32,
}

/// A statement run before the backing helper call that prepares a field's argument.
#[derive(Clone, Copy, Debug, PartialEq, Eq, Structural)]
pub enum Temp {
    /// `let __t<field>: &[elem] = &func(ident[, width]);`
    Encode { field: usize, func: EncodeFn, elem: ScalarTy, width: Option<Width> },
    /// Packs the array into `__t<field>_storage` element by element and borrows it as
    /// `__t<field>`.
    Accumulate { field: usize, elem: ScalarTy, each: Each },
    /// `let __t<field>: &[u8] = ident.as_flattened();`
    Flatten { field: usize },
    /// Binds the derived length as the field's identifier.
    DerivedLength { field: usize, ty: ScalarTy, from: usize, uniform: bool },
    /// Checks the counted arrays and binds their count as the field's identifier.
    DerivedCount { field: usize, ty: ScalarTy },
}

/// What a field passes to the backing helper.
#[derive(Clone, Copy, Debug, PartialEq, Eq, Structural)]
pub enum CallArg {
    /// The field's identifier.
    Field(usize),
    /// The field's prepared temporary `__t<field>`.
    Temp(usize),
}

/// How a message placeholder (`%N`) names a field.
#[derive(Clone, Copy, Debug, PartialEq, Eq, Structural)]
pub enum DocRef {
    /// The field's identifier.
    Field(usize),
    /// `<identifier of the field>.len`.
    LengthOf(usize),
}

/// One template field lowered for code generation: an optional public parameter (named by
/// the field's identifier), an optional check, an optional preparation statement, the
/// argument handed to the backing helper, and the name a message placeholder uses.
#[derive(Clone, Copy, Debug, PartialEq, Eq, Structural)]
pub struct FieldPlan {
    pub param: Option<RustTy>,
    pub validation: Option<Check>,
    pub temp: Option<Temp>,
    pub call: CallArg,
    pub doc_ref: DocRef,
}

/// A plan that passes the parameter straight to the helper.
pub open spec fn direct_plan(k: usize, ty: RustTy) -> FieldPlan {
    FieldPlan { param: Some(ty), validation: None, temp: None, call: CallArg::Field(k), doc_ref: DocRef::Field(k) }
}

/// A plan that prepares the parameter into `__t<k>` first.
pub open spec fn buffered_plan(k: usize, ty: RustTy, temp: Temp) -> FieldPlan {
    FieldPlan { param: Some(ty), validation: None, temp: Some(temp), call: CallArg::Temp(k), doc_ref: DocRef::Field(k) }
}

/// The parameter type of an array of `elem` with the given cardinality.
pub open spec fn array_ty(elem: ElemTy, c: Cardinality) -> RustTy {
    match c {
        Cardinality::Fixed(n) => RustTy::Array(elem, n),
        _ => RustTy::Slice(elem),
    }
}

/// The width of a string with the given element length, if it is fixed.
pub open spec fn width_of(l: ElementLength) -> Option<Width> {
    match l {
        ElementLength::Fixed(n) => Some(Width::Const(n)),
        ElementLength::FieldRef(f) => Some(Width::Field(f)),
        ElementLength::Implicit => None,
    }
}

/// The field carrying a string's width, if one does.
pub open spec fn width_field(l: ElementLength) -> Option<usize> {
    match l {
        ElementLength::FieldRef(f) => Some(f),
        _ => None,
    }
}

/// The encoder and element type for a `&str` string of the given encoding and width, `None`
/// for caller-encoded provider-ANSI bytes.
pub open spec fn encoder_of(e: StringEncoding, width: Option<Width>) -> Option<(EncodeFn, ScalarTy)> {
    match e {
        StringEncoding::ProviderAnsi => None,
        StringEncoding::Unicode => Some((if width is Some { EncodeFn::U16CStringFixedLen } else { EncodeFn::U16CString }, ScalarTy::U16)),
        StringEncoding::Utf8 => Some((if width is Some { EncodeFn::CStringFixedLen } else { EncodeFn::CString }, ScalarTy::U8)),
    }
}


/// The plan of caller-provided string field `k`.
pub open spec fn spec_string_plan(k: usize, encoding: StringEncoding, length: ElementLength, c: Cardinality, spec_ty: RustTy) -> FieldPlan {
    let width = width_of(length);
    let validation = match width {
        Some(w) => Some(Check::NonzeroWidth(w)),
        None => None,
    };
    if c == Cardinality::Single {
        match encoder_of(encoding, width) {
            None => {
                let ty = match length {
                    ElementLength::Fixed(n) => RustTy::Array(ElemTy::Scalar(ScalarTy::U8), n),
                    _ => spec_ty,
                };
                FieldPlan {
                    validation: Some(Check::AnsiInput { input: k, width: width_field(length) }),
                    ..direct_plan(k, ty)
                }
            },
            Some((func, elem)) => FieldPlan {
                validation,
                ..buffered_plan(k, RustTy::Value(ElemTy::Str), Temp::Encode { field: k, func, elem, width })
            },
        }
    } else {
        match encoder_of(encoding, width) {
            Some((func, elem)) => FieldPlan {
                validation,
                ..buffered_plan(k, array_ty(ElemTy::Str, c), Temp::Accumulate {
                    field: k,
                    elem,
                    each: Each::ExtendEncoded { func, width },
                })
            },
            None => {
                let elem_ty = match length {
                    ElementLength::Fixed(n) => ElemTy::ByteArray(n),
                    _ => ElemTy::Bytes,
                };
                FieldPlan {
                    validation: Some(Check::AnsiEach { input: k, width: width_field(length) }),
                    ..buffered_plan(k, array_ty(elem_ty, c), Temp::Accumulate {
                        field: k,
                        elem: ScalarTy::U8,
                        each: Each::ExtendValue,
                    })
                }
            },
        }
    }
}

/// The plan of caller-provided field `k` with value plan `v`: how its parameter is typed,
/// checked and prepared.
pub open spec fn spec_value_field_plan(params: Seq<TypeInfo>, k: usize, v: ValuePlan) -> FieldPlan {
    let spec_ty = spec_classify(params[k as int]).rust_ty;
    let c = v.cardinality;
    match v.kind {
        ValueKind::Scalar => if c == Cardinality::Single {
            direct_plan(k, spec_ty)
        } else {
            direct_plan(k, array_ty(ElemTy::Scalar(spec_scalar_info(params[k as int].win_type)->Some_0.2), c))
        },
        ValueKind::Boolean => if c == Cardinality::Single {
            direct_plan(k, spec_ty)
        } else {
            buffered_plan(k, array_ty(ElemTy::Bool, c), Temp::Accumulate {
                field: k,
                elem: ScalarTy::I32,
                each: Each::PushBoolAsI32,
            })
        },
        ValueKind::String { encoding, length } => spec_string_plan(k, encoding, length, c, spec_ty),
        ValueKind::Binary { length } => if c == Cardinality::Single {
            match length {
                ElementLength::Fixed(n) => direct_plan(k, RustTy::Array(ElemTy::Scalar(ScalarTy::U8), n)),
                _ => direct_plan(k, spec_ty),
            }
        } else {
            match length {
                ElementLength::Fixed(n) => buffered_plan(k, array_ty(ElemTy::ByteArray(n), c), Temp::Flatten { field: k }),
                _ => buffered_plan(k, array_ty(ElemTy::Bytes, c), Temp::Accumulate {
                    field: k,
                    elem: ScalarTy::U8,
                    each: Each::ExtendValue,
                }),
            }
        },
        ValueKind::Sid => if c == Cardinality::Single {
            direct_plan(k, spec_ty)
        } else {
            buffered_plan(k, array_ty(ElemTy::Sid, c), Temp::Accumulate {
                field: k,
                elem: ScalarTy::U8,
                each: Each::ExtendSidBytes,
            })
        },
    }
}

fn array_param_ty(elem: ElemTy, c: Cardinality) -> (t: RustTy)
    ensures
        t == array_ty(elem, c),
{
    match c {
        Cardinality::Fixed(n) => RustTy::Array(elem, n),
        _ => RustTy::Slice(elem),
    }
}

fn string_width(l: ElementLength) -> (w: Option<Width>)
    ensures
        w == width_of(l),
{
    match l {
        ElementLength::Fixed(n) => Some(Width::Const(n)),
        ElementLength::FieldRef(f) => Some(Width::Field(f)),
        ElementLength::Implicit => None,
    }
}

fn string_width_field(l: ElementLength) -> (f: Option<usize>)
    ensures
        f == width_field(l),
{
    match l {
        ElementLength::FieldRef(f) => Some(f),
        _ => None,
    }
}

fn encoder(e: StringEncoding, width: Option<Width>) -> (r: Option<(EncodeFn, ScalarTy)>)
    ensures
        r == encoder_of(e, width),
{
    let fixed = match width {
        Some(_) => true,
        None => false,
    };
    match e {
        StringEncoding::ProviderAnsi => None,
        StringEncoding::Unicode => Some((if fixed { EncodeFn::U16CStringFixedLen } else { EncodeFn::U16CString }, ScalarTy::U16)),
        StringEncoding::Utf8 => Some((if fixed { EncodeFn::CStringFixedLen } else { EncodeFn::CString }, ScalarTy::U8)),
    }
}

/// Plans a caller-provided string field: a `&str` encoded into a buffer of the declared
/// width, or caller-encoded provider-ANSI bytes that are checked instead.
pub fn plan_string_value(k: usize, encoding: StringEncoding, length: ElementLength, c: Cardinality, spec_ty: RustTy) -> (p: FieldPlan)
    ensures
        p == spec_string_plan(k, encoding, length, c, spec_ty),
{
    let width = string_width(length);
    let validation = match width {
        Some(w) => Some(Check::NonzeroWidth(w)),
        None => None,
    };
    let single = c == Cardinality::Single;
    if single {
        match encoder(encoding, width) {
            None => {
                let ty = match length {
                    ElementLength::Fixed(n) => RustTy::Array(ElemTy::Scalar(ScalarTy::U8), n),
                    _ => spec_ty,
                };
                FieldPlan {
                    param: Some(ty),
                    validation: Some(Check::AnsiInput { input: k, width: string_width_field(length) }),
                    temp: None,
                    call: CallArg::Field(k),
                    doc_ref: DocRef::Field(k),
                }
            },
            Some((func, elem)) => FieldPlan {
                param: Some(RustTy::Value(ElemTy::Str)),
                validation,
                temp: Some(Temp::Encode { field: k, func, elem, width }),
                call: CallArg::Temp(k),
                doc_ref: DocRef::Field(k),
            },
        }
    } else {
        match encoder(encoding, width) {
            Some((func, elem)) => FieldPlan {
                param: Some(array_param_ty(ElemTy::Str, c)),
                validation,
                temp: Some(Temp::Accumulate { field: k, elem, each: Each::ExtendEncoded { func, width } }),
                call: CallArg::Temp(k),
                doc_ref: DocRef::Field(k),
            },
            None => {
                let elem_ty = match length {
                    ElementLength::Fixed(n) => ElemTy::ByteArray(n),
                    _ => ElemTy::Bytes,
                };
                FieldPlan {
                    param: Some(array_param_ty(elem_ty, c)),
                    validation: Some(Check::AnsiEach { input: k, width: string_width_field(length) }),
                    temp: Some(Temp::Accumulate { field: k, elem: ScalarTy::U8, each: Each::ExtendValue }),
                    call: CallArg::Temp(k),
                    doc_ref: DocRef::Field(k),
                }
            },
        }
    }
}

/// Plans caller-provided field `k` with value plan `v`.
pub fn plan_value_field(params: &Vec<TypeInfo>, k: usize, v: ValuePlan) -> (p: FieldPlan)
    requires
        k < params@.len(),
        spec_value_plan(params@, k as int) == Some(v),
    ensures
        p == spec_value_field_plan(params@, k, v),
{
    let spec_ty = classify(&params[k]).rust_ty;
    let c = v.cardinality;
    let single = c == Cardinality::Single;
    match v.kind {
        ValueKind::Scalar => if single {
            FieldPlan { param: Some(spec_ty), validation: None, temp: None, call: CallArg::Field(k), doc_ref: DocRef::Field(k) }
        } else {
            let st = match scalar_info(&params[k].win_type) {
                Some((_, _, st)) => st,
                None => ScalarTy::U8,
            };
            proof {
                assert(spec_scalar_info(params@[k as int].win_type) is Some) by {
                    let w = params@[k as int].win_type;
                    assert(!(w is Boolean || w is UnicodeString || w is AnsiString || w is Binary || w is Sid));
                }
            }
            FieldPlan { param: Some(array_param_ty(ElemTy::Scalar(st), c)), validation: None, temp: None, call: CallArg::Field(k), doc_ref: DocRef::Field(k) }
        },
        ValueKind::Boolean => if single {
            FieldPlan { param: Some(spec_ty), validation: None, temp: None, call: CallArg::Field(k), doc_ref: DocRef::Field(k) }
        } else {
            FieldPlan {
                param: Some(array_param_ty(ElemTy::Bool, c)),
                validation: None,
                temp: Some(Temp::Accumulate { field: k, elem: ScalarTy::I32, each: Each::PushBoolAsI32 }),
                call: CallArg::Temp(k),
                doc_ref: DocRef::Field(k),
            }
        },
        ValueKind::String { encoding, length } => plan_string_value(k, encoding, length, c, spec_ty),
        ValueKind::Binary { length } => if single {
            match length {
                ElementLength::Fixed(n) => FieldPlan {
                    param: Some(RustTy::Array(ElemTy::Scalar(ScalarTy::U8), n)),
                    validation: None,
                    temp: None,
                    call: CallArg::Field(k),
                    doc_ref: DocRef::Field(k),
                },
                _ => FieldPlan { param: Some(spec_ty), validation: None, temp: None, call: CallArg::Field(k), doc_ref: DocRef::Field(k) },
            }
        } else {
            match length {
                ElementLength::Fixed(n) => FieldPlan {
                    param: Some(array_param_ty(ElemTy::ByteArray(n), c)),
                    validation: None,
                    temp: Some(Temp::Flatten { field: k }),
                    call: CallArg::Temp(k),
                    doc_ref: DocRef::Field(k),
                },
                _ => FieldPlan {
                    param: Some(array_param_ty(ElemTy::Bytes, c)),
                    validation: None,
                    temp: Some(Temp::Accumulate { field: k, elem: ScalarTy::U8, each: Each::ExtendValue }),
                    call: CallArg::Temp(k),
                    doc_ref: DocRef::Field(k),
                },
            }
        },
        ValueKind::Sid => if single {
            FieldPlan { param: Some(spec_ty), validation: None, temp: None, call: CallArg::Field(k), doc_ref: DocRef::Field(k) }
        } else {
            FieldPlan {
                param: Some(array_param_ty(ElemTy::Sid, c)),
                validation: None,
                temp: Some(Temp::Accumulate { field: k, elem: ScalarTy::U8, each: Each::ExtendSidBytes }),
                call: CallArg::Temp(k),
                doc_ref: DocRef::Field(k),
            }
        },
    }
}


/// The binary field whose length field `k` carries.
pub open spec fn binary_source(params: Seq<TypeInfo>, k: int) -> int {
    choose|j: int| 0 <= j < params.len() && #[trigger] binary_ref(params, j) == Some(k)
}

/// The plan of field `k` of an accepted event: a binary length or array count is derived
/// (hidden, checked, and bound before the call), any other field is a caller-provided value.
pub open spec fn spec_field_plan(params: Seq<TypeInfo>, k: int) -> FieldPlan {
    let ty = spec_scalar_info(params[k].win_type)->Some_0.2;
    if is_binary_length_field(params, k) {
        let from = binary_source(params, k) as usize;
        let uniform = spec_cardinality(params[from as int].count) != Cardinality::Single;
        FieldPlan {
            param: None,
            validation: Some(Check::DerivedLength { ty, from, uniform }),
            temp: Some(Temp::DerivedLength { field: k as usize, ty, from, uniform }),
            call: CallArg::Field(k as usize),
            doc_ref: DocRef::LengthOf(from),
        }
    } else if is_count_field(params, k) {
        FieldPlan {
            param: None,
            validation: Some(Check::DerivedCount { ty, count_field: k as usize }),
            temp: Some(Temp::DerivedCount { field: k as usize, ty }),
            call: CallArg::Field(k as usize),
            doc_ref: DocRef::LengthOf(count_sources(params, k, params.len() as int)[0]),
        }
    } else {
        spec_value_field_plan(params, k as usize, spec_value_plan(params, k)->Some_0)
    }
}

/// The caller passes every field except binary lengths and array counts, which are derived
/// from the values they describe: a field has a parameter exactly when it is exposed. A field
/// that only gives a string's width stays a parameter.
pub proof fn law_only_derived_fields_are_hidden(params: Seq<TypeInfo>, k: int)
    requires
        0 <= k < params.len(),
        !roles_rejected(params),
    ensures
        (spec_field_plan(params, k).param is Some) <==> is_exposed(params, k),
{
    if is_exposed(params, k) {
        assert(spec_value_plan(params, k) is Some);
    }
}

/// An array's count is enforced by its parameter type: a constant count `n` gives an array
/// reference of `n` elements, a count carried by another field gives a slice.
pub proof fn law_array_counts_shape_the_parameter(params: Seq<TypeInfo>, k: int)
    requires
        0 <= k < params.len(),
        !roles_rejected(params),
        is_exposed(params, k),
    ensures
        params[k].count matches Count::Constant(n) ==> spec_field_plan(params, k).param matches Some(
            RustTy::Array(_, m),
        ) && m == n as usize,
        params[k].count is FieldRef ==> spec_field_plan(params, k).param matches Some(RustTy::Slice(_)),
{
    assert(spec_value_plan(params, k) is Some);
}

/// How a fixed-size value lies in an event payload: a signed or unsigned integer or a float of
/// so many bytes, a pointer-sized integer, or one of the Windows record types.
#[derive(Clone, Copy, Debug, PartialEq, Eq, Structural)]
pub enum PayloadLayout {
    Signed(u8),
    Unsigned(u8),
    Float(u8),
    PointerSized,
    GuidRecord,
    FileTimeRecord,
    SystemTimeRecord,
}

/// The payload layout that ETW defines for each fixed-size manifest type: `win:Int8` is one
/// signed byte, `win:HexInt32` four unsigned bytes, `win:Double` an eight-byte float, and so
/// on; variable-size types have none.
pub open spec fn manifest_layout(w: WinType) -> Option<PayloadLayout> {
    match w {
        WinType::Int8 => Some(PayloadLayout::Signed(1)),
        WinType::UInt8 => Some(PayloadLayout::Unsigned(1)),
        WinType::Int16 => Some(PayloadLayout::Signed(2)),
        WinType::UInt16 => Some(PayloadLayout::Unsigned(2)),
        WinType::Int32 => Some(PayloadLayout::Signed(4)),
        WinType::UInt32 => Some(PayloadLayout::Unsigned(4)),
        WinType::HexInt32 => Some(PayloadLayout::Unsigned(4)),
        WinType::Int64 => Some(PayloadLayout::Signed(8)),
        WinType::UInt64 => Some(PayloadLayout::Unsigned(8)),
        WinType::HexInt64 => Some(PayloadLayout::Unsigned(8)),
        WinType::Float => Some(PayloadLayout::Float(4)),
        WinType::Double => Some(PayloadLayout::Float(8)),
        WinType::Pointer => Some(PayloadLayout::PointerSized),
        WinType::Guid => Some(PayloadLayout::GuidRecord),
        WinType::FileTime => Some(PayloadLayout::FileTimeRecord),
        WinType::SystemTime => Some(PayloadLayout::SystemTimeRecord),
        _ => None,
    }
}

/// The payload layout of a Rust scalar type: `i32` is four signed bytes, `f64` an eight-byte
/// float, `usize` pointer-sized, and the record types lie as the Windows records do.
pub open spec fn rust_layout(t: ScalarTy) -> PayloadLayout {
    match t {
        ScalarTy::I8 => PayloadLayout::Signed(1),
        ScalarTy::U8 => PayloadLayout::Unsigned(1),
        ScalarTy::I16 => PayloadLayout::Signed(2),
        ScalarTy::U16 => PayloadLayout::Unsigned(2),
        ScalarTy::I32 => PayloadLayout::Signed(4),
        ScalarTy::U32 => PayloadLayout::Unsigned(4),
        ScalarTy::I64 => PayloadLayout::Signed(8),
        ScalarTy::U64 => PayloadLayout::Unsigned(8),
        ScalarTy::F32 => PayloadLayout::Float(4),
        ScalarTy::F64 => PayloadLayout::Float(8),
        ScalarTy::Usize => PayloadLayout::PointerSized,
        ScalarTy::Guid => PayloadLayout::GuidRecord,
        ScalarTy::FileTime => PayloadLayout::FileTimeRecord,
        ScalarTy::SystemTime => PayloadLayout::SystemTimeRecord,
    }
}

/// The element type of a parameter type.
pub open spec fn elem_of(t: RustTy) -> ElemTy {
    match t {
        RustTy::Value(e) => e,
        RustTy::Slice(e) => e,
        RustTy::Array(e, _) => e,
    }
}

/// Every fixed-size manifest type, and only those, is planned as a Rust scalar, and the scalar
/// has the manifest type's payload layout: its width, signedness and kind.
pub proof fn law_scalar_types_keep_their_layout(w: WinType)
    ensures
        spec_scalar_info(w) is Some <==> manifest_layout(w) is Some,
        spec_scalar_info(w) matches Some((_, _, t)) ==> manifest_layout(w) == Some(rust_layout(t)),
{
}

/// A field of a fixed-size manifest type is passed, alone or as array elements, as a Rust
/// scalar with that type's payload layout, both in the backing helper's signature and in the
/// generated method's parameter.
pub proof fn law_scalar_fields_keep_their_layout(params: Seq<TypeInfo>, k: int)
    requires
        0 <= k < params.len(),
        params.len() <= usize::MAX,
        !roles_rejected(params),
        is_exposed(params, k),
        manifest_layout(params[k].win_type) is Some,
    ensures
        elem_of(spec_classify(params[k]).rust_ty) matches ElemTy::Scalar(t) && Some(rust_layout(t))
            == manifest_layout(params[k].win_type),
        spec_field_plan(params, k).param matches Some(ty) && elem_of(ty) matches ElemTy::Scalar(t)
            && Some(rust_layout(t)) == manifest_layout(params[k].win_type),
{
    assert(spec_value_plan(params, k) is Some);
    let v = spec_value_plan(params, k)->Some_0;
    assert(v.kind == ValueKind::Scalar);
    assert(spec_field_plan(params, k) == spec_value_field_plan(params, k as usize, v));
    assert(params[k as usize as int] == params[k]);
}

fn plan_field(params: &Vec<TypeInfo>, roles: &Vec<FieldRole>, k: usize) -> (p: FieldPlan)
    requires
        !roles_rejected(params@),
        k < params@.len(),
        roles@.len() == params@.len(),
        forall|j: int| 0 <= j < roles@.len() ==> is_role_of(#[trigger] roles@[j], params@, j),
    ensures
        p == spec_field_plan(params@, k as int),
{
    let ghost ps = params@;
    proof {
        assert(ps.len() <= usize::MAX) by {
            assert(ps.len() == params.len());
        }
        lemma_roles_exposed(ps, roles@, k as int);
        assert(is_role_of(roles@[k as int], ps, k as int));
    }
    let ty = match scalar_info(&params[k].win_type) {
        Some((_, _, st)) => st,
        None => ScalarTy::U8,
    };
    match &roles[k] {
        FieldRole::Derived(DerivedPlan::BinaryLength { from }) => {
            let from = *from;
            proof {
                let j = binary_source(ps, k as int);
                assert(binary_ref(ps, from as int) == Some(k as int));
                assert(0 <= j < ps.len() && binary_ref(ps, j) == Some(k as int));
                if j < from {
                    assert(binary_ref(ps, j) == binary_ref(ps, from as int));
                } else if from < j {
                    assert(binary_ref(ps, from as int) == binary_ref(ps, j));
                }
                assert(j == from);
                lemma_binary_ref_prior(ps, from as int);
            }
            let uniform = Cardinality::from_count(&params[from].count).is_array();
            FieldPlan {
                param: None,
                validation: Some(Check::DerivedLength { ty, from, uniform }),
                temp: Some(Temp::DerivedLength { field: k, ty, from, uniform }),
                call: CallArg::Field(k),
                doc_ref: DocRef::LengthOf(from),
            }
        },
        FieldRole::Derived(DerivedPlan::ArrayCount { from }) => {
            proof {
                lemma_count_sources(ps, k as int, ps.len() as int);
                let m = count_sources(ps, k as int, ps.len() as int)[0];
                lemma_count_ref_prior(ps, m as int);
            }
            FieldPlan {
                param: None,
                validation: Some(Check::DerivedCount { ty, count_field: k }),
                temp: Some(Temp::DerivedCount { field: k, ty }),
                call: CallArg::Field(k),
                doc_ref: DocRef::LengthOf(from[0]),
            }
        },
        FieldRole::Value(v) => plan_value_field(params, k, *v),
    }
}

/// The plan of an event's fields: each field's role, identifier and plan.
#[derive(Debug)]
pub struct EventPlan {
    /// Each field's role.
    pub roles: Vec<FieldRole>,
    /// Each field's identifier in generated code.
    pub idents: Vec<String>,
    /// Each field's plan.
    pub plans: Vec<FieldPlan>,
}

/// Resolves field dependencies, then produces the public parameter and serialization plan for
/// each manifest field of `ev` (of the provider named `provider`).
pub fn plan_event(ev: &Event, provider: &str) -> (res: Result<EventPlan, ManifestError>)
    ensures
        res is Ok ==> !roles_rejected(ev.params@),
        !roles_rejected(ev.params@) && !idents_may_collide(ev.params@) ==> res is Ok,
        forall|i: int| #[trigger] first_rejected_value(ev.params@, i) ==> (res matches Err(e)
            && e.spec_message() == value_plan_error(ev.params@, i, ev.symbol@, provider@)),
        res matches Err(e) ==> roles_rejected(ev.params@) ==> reports_roles(
            ev.params@,
            ev.symbol@,
            provider@,
            e.spec_message(),
        ),
        res matches Err(e) ==> !roles_rejected(ev.params@) ==> reports_field_collision(
            ev.params@,
            ev.symbol@,
            provider@,
            e.spec_message(),
        ),
        res matches Ok(p) ==> {
            &&& p.roles@.len() == ev.params@.len()
            &&& p.plans@.len() == ev.params@.len()
            &&& forall|k: int| 0 <= k < ev.params@.len() ==> is_role_of(#[trigger] p.roles@[k], ev.params@, k)
            &&& idents_of(ev.params@, p.idents@)
            &&& forall|k: int| 0 <= k < ev.params@.len() ==> #[trigger] p.plans@[k] == spec_field_plan(ev.params@, k)
        },
{
    let roles = match field_roles(ev, provider) {
        Ok(r) => r,
        Err(e) => {
            return Err(e);
        },
    };
    assert forall|i2: int| !#[trigger] first_rejected_value(ev.params@, i2) by {
        if first_rejected_value(ev.params@, i2) {
            assert(roles_rejected(ev.params@));
        }
    }
    let idents = match field_idents(ev, provider, &roles) {
        Ok(x) => x,
        Err(e) => {
            return Err(e);
        },
    };
    let mut plans: Vec<FieldPlan> = Vec::new();
    let mut k: usize = 0;
    while k < ev.params.len()
        invariant
            k <= ev.params@.len(),
            !roles_rejected(ev.params@),
            roles@.len() == ev.params@.len(),
            forall|j: int| 0 <= j < roles@.len() ==> is_role_of(#[trigger] roles@[j], ev.params@, j),
            plans@.len() == k,
            forall|j: int| 0 <= j < k ==> #[trigger] plans@[j] == spec_field_plan(ev.params@, j),
        decreases ev.params.len() - k,
    {
        plans.push(plan_field(&ev.params, &roles, k));
        k = k + 1;
    }
    Ok(EventPlan { roles, idents, plans })
}


/// The array fields counted by field `k` are earlier fields that name it.
pub proof fn lemma_count_sources_pub(params: Seq<TypeInfo>, k: int, n: int)
    requires
        0 <= n <= params.len(),
        params.len() <= usize::MAX,
    ensures
        forall|m: int| 0 <= m < count_sources(params, k, n).len() ==> {
            let i = #[trigger] count_sources(params, k, n)[m];
            i < n && count_ref(params, i as int) == Some(k)
        },
{
    lemma_count_sources(params, k, n);
}

} // verus!
