//! A resolved model of an ETW manifest.

use vstd::prelude::*;
use vstd::string::StringExecFns;

use crate::eventman::{DataType, EventDefinitionType, InstrumentationManifest, LocalizationType, ProviderType};
use crate::numbers::{
    all_digits, describe_int_error, digits_number, int_error_text, manifest_int, parse_decimal, parse_int,
    unsigned_literal, IntError,
};
use crate::text::{
    chars_of, debug_quote, debug_quoted, push_str, str_equal, string_of, trim_chars, trimmed,
};

verus! {

/// The root of a resolved manifest.
#[derive(Debug, PartialEq, Eq)]
pub struct Manifest {
    /// The manifest's providers, in declaration order.
    pub providers: Vec<Provider>,
}

/// A resolved provider.
#[derive(Debug, PartialEq, Eq)]
pub struct Provider {
    /// The provider's manifest `symbol`.
    pub symbol: String,
    /// The provider GUID in `Guid::from_u128` layout.
    pub guid: u128,
    /// The provider's events, in declaration order.
    pub events: Vec<Event>,
}

/// A resolved event.
#[derive(Debug, PartialEq, Eq)]
pub struct Event {
    /// The event's symbol, or `Event<id>` when the manifest gives none.
    pub symbol: String,
    /// The event identifier.
    pub id: u16,
    /// The event definition version.
    pub version: u8,
    /// The event severity level.
    pub level: u8,
    /// The operation performed by the event.
    pub opcode: u8,
    /// The event task.
    pub task: u16,
    /// The event category bitmask.
    pub keyword: u64,
    /// The event channel.
    pub channel: u8,
    /// The event template's fields, in order.
    pub params: Vec<TypeInfo>,
    /// The event's localized message, resolved from the manifest's string table (English
    /// preferred), with `%N` placeholders left as-is. `None` if the event has no `message` or
    /// the reference can't be resolved.
    pub message: Option<String>,
}

/// The declared length of a string or binary field.
#[derive(Debug, PartialEq, Eq, Hash)]
pub enum Length {
    /// No `length` attribute.
    Implicit,
    /// A constant length.
    Constant(u32),
    /// The name of another field that carries the length.
    FieldRef(String),
}

/// The declared element count of a field.
#[derive(Debug, PartialEq, Eq, Hash)]
pub enum Count {
    /// No `count` attribute: a single value.
    Single,
    /// A constant element count.
    Constant(u16),
    /// The name of another field that carries the count.
    FieldRef(String),
}

/// The encoding of a `win:AnsiString` field.
#[derive(Debug, Clone, Copy, PartialEq, Eq, Hash, Structural)]
pub enum AnsiEncoding {
    /// The provider's ANSI code page, used by the default `xs:string` output type.
    ProviderAnsi,
    /// UTF-8, used by the `win:Utf8`, `win:Json`, and `win:Xml` output types.
    Utf8,
}

/// A manifest `inType`.
#[derive(Debug, PartialEq, Eq, Hash)]
pub enum WinType {
    UnicodeString(Length),
    AnsiString(Length, AnsiEncoding),
    Int8,
    UInt8,
    Int16,
    UInt16,
    Int32,
    UInt32,
    Int64,
    UInt64,
    Float,
    Double,
    Boolean,
    Binary(Length),
    Guid,
    Pointer,
    FileTime,
    SystemTime,
    Sid,
    HexInt32,
    HexInt64,
}

/// One resolved template field.
#[derive(Debug, PartialEq, Eq, Hash)]
pub struct TypeInfo {
    /// The field's manifest name.
    pub name: String,
    /// The field's type.
    pub win_type: WinType,
    /// The field's element count.
    pub count: Count,
}

/// Why a manifest could not be resolved, as a human-readable message whose outer parts give
/// the context of the inner ones.
#[derive(Debug, PartialEq, Eq)]
pub struct ManifestError {
    message: String,
}

impl ManifestError {
    /// The error's message text.
    pub closed spec fn spec_message(&self) -> Seq<char> {
        self.message@
    }

    /// An error with the given message.
    pub fn new(message: String) -> (e: ManifestError)
        ensures
            e.spec_message() == message@,
    {
        ManifestError { message }
    }

    /// An error with the given message text.
    pub fn from_text(text: &str) -> (e: ManifestError)
        ensures
            e.spec_message() == text@,
    {
        ManifestError { message: String::from_str(text) }
    }

    /// The error with `context` and `": "` put in front of its message.
    pub fn context(self, context: String) -> (e: ManifestError)
        ensures
            e.spec_message() == context@ + ": "@ + self.spec_message(),
    {
        let mut message = context;
        push_str(&mut message, ": ");
        push_str(&mut message, self.message.as_str());
        ManifestError { message }
    }

    /// The full message, outer context first.
    pub fn message(&self) -> (m: String)
        ensures
            m@ == self.spec_message(),
    {
        self.message.clone()
    }
}

/// A copy of a string.
pub fn copy_string(s: &String) -> (c: String)
    ensures
        c == *s,
{
    s.clone()
}

/// A copy of an optional string.
pub fn copy_opt_string(s: &Option<String>) -> (c: Option<String>)
    ensures
        c == *s,
{
    match s {
        Some(x) => Some(x.clone()),
        None => None,
    }
}

/// A copy of a declared length.
pub fn copy_length(l: &Length) -> (c: Length)
    ensures
        c == *l,
{
    match l {
        Length::Implicit => Length::Implicit,
        Length::Constant(n) => Length::Constant(*n),
        Length::FieldRef(s) => Length::FieldRef(s.clone()),
    }
}

/// A copy of a declared count.
pub fn copy_count(c: &Count) -> (r: Count)
    ensures
        r == *c,
{
    match c {
        Count::Single => Count::Single,
        Count::Constant(n) => Count::Constant(*n),
        Count::FieldRef(s) => Count::FieldRef(s.clone()),
    }
}

/// A copy of a field type.
pub fn copy_win_type(w: &WinType) -> (r: WinType)
    ensures
        r == *w,
{
    match w {
        WinType::UnicodeString(l) => WinType::UnicodeString(copy_length(l)),
        WinType::AnsiString(l, e) => WinType::AnsiString(copy_length(l), *e),
        WinType::Int8 => WinType::Int8,
        WinType::UInt8 => WinType::UInt8,
        WinType::Int16 => WinType::Int16,
        WinType::UInt16 => WinType::UInt16,
        WinType::Int32 => WinType::Int32,
        WinType::UInt32 => WinType::UInt32,
        WinType::Int64 => WinType::Int64,
        WinType::UInt64 => WinType::UInt64,
        WinType::Float => WinType::Float,
        WinType::Double => WinType::Double,
        WinType::Boolean => WinType::Boolean,
        WinType::Binary(l) => WinType::Binary(copy_length(l)),
        WinType::Guid => WinType::Guid,
        WinType::Pointer => WinType::Pointer,
        WinType::FileTime => WinType::FileTime,
        WinType::SystemTime => WinType::SystemTime,
        WinType::Sid => WinType::Sid,
        WinType::HexInt32 => WinType::HexInt32,
        WinType::HexInt64 => WinType::HexInt64,
    }
}

/// A copy of a template field.
pub fn copy_type_info(t: &TypeInfo) -> (r: TypeInfo)
    ensures
        r == *t,
{
    TypeInfo { name: t.name.clone(), win_type: copy_win_type(&t.win_type), count: copy_count(&t.count) }
}

/// A copy of a list of template fields.
pub fn copy_type_infos(ts: &Vec<TypeInfo>) -> (r: Vec<TypeInfo>)
    ensures
        r@ == ts@,
{
    let mut r: Vec<TypeInfo> = Vec::new();
    let mut i: usize = 0;
    while i < ts.len()
        invariant
            i <= ts@.len(),
            r@ =~= ts@.take(i as int),
        decreases ts.len() - i,
    {
        r.push(copy_type_info(&ts[i]));
        i = i + 1;
    }
    assert(ts@.take(i as int) =~= ts@);
    r
}

/// The declared length that a `length` attribute denotes: a `u32` literal is a constant,
/// anything else names the field that carries the length.
pub open spec fn length_of(attr: Option<String>) -> Length {
    match attr {
        None => Length::Implicit,
        Some(x) => match unsigned_literal(x@, 10) {
            Some(n) => if n <= u32::MAX {
                Length::Constant(n as u32)
            } else {
                Length::FieldRef(x)
            },
            None => Length::FieldRef(x),
        },
    }
}

/// Whether every character is an ASCII decimal digit.
pub open spec fn all_ascii_digits(cs: Seq<char>) -> bool {
    forall|i: int| 0 <= i < cs.len() ==> '0' <= #[trigger] cs[i] <= '9'
}

/// Whether a `count` attribute is an out-of-range constant: trimmed, it is all ASCII digits
/// but not a `u16` literal.
pub open spec fn count_rejected(attr: Option<String>) -> bool {
    match attr {
        None => false,
        Some(raw) => {
            let t = trimmed(raw@);
            all_ascii_digits(t) && !(t.len() > 0 && digits_number(t, 10) <= u16::MAX)
        },
    }
}

/// Whether `c` is the count that an accepted `count` attribute denotes: trimmed digits are a
/// constant, anything else names the count field.
pub open spec fn is_count_of(c: Count, attr: Option<String>) -> bool {
    match attr {
        None => c == Count::Single,
        Some(raw) => {
            let t = trimmed(raw@);
            if all_ascii_digits(t) {
                c == Count::Constant(digits_number(t, 10) as u16)
            } else {
                c matches Count::FieldRef(name) && name@ == t
            }
        },
    }
}


/// The encoding that a `win:AnsiString` field's `outType` selects, `None` for an unsupported
/// output type.
pub open spec fn ansi_encoding_of(out_type: Option<String>) -> Option<AnsiEncoding> {
    match out_type {
        None => Some(AnsiEncoding::ProviderAnsi),
        Some(o) => if o@ == "xs:string"@ {
            Some(AnsiEncoding::ProviderAnsi)
        } else if o@ == "win:Utf8"@ || o@ == "win:Json"@ || o@ == "win:Xml"@ {
            Some(AnsiEncoding::Utf8)
        } else {
            None
        },
    }
}

/// The type of a template data field, `None` for an unknown `inType` or an unsupported
/// `win:AnsiString` output type.
pub open spec fn win_type_of(d: DataType) -> Option<WinType> {
    let t = d.in_type@;
    if t == "win:UnicodeString"@ {
        Some(WinType::UnicodeString(length_of(d.length)))
    } else if t == "win:AnsiString"@ {
        match ansi_encoding_of(d.out_type) {
            Some(e) => Some(WinType::AnsiString(length_of(d.length), e)),
            None => None,
        }
    } else if t == "win:Int8"@ {
        Some(WinType::Int8)
    } else if t == "win:UInt8"@ {
        Some(WinType::UInt8)
    } else if t == "win:Int16"@ {
        Some(WinType::Int16)
    } else if t == "win:UInt16"@ {
        Some(WinType::UInt16)
    } else if t == "win:Int32"@ {
        Some(WinType::Int32)
    } else if t == "win:UInt32"@ {
        Some(WinType::UInt32)
    } else if t == "win:Int64"@ {
        Some(WinType::Int64)
    } else if t == "win:UInt64"@ {
        Some(WinType::UInt64)
    } else if t == "win:Float"@ {
        Some(WinType::Float)
    } else if t == "win:Double"@ {
        Some(WinType::Double)
    } else if t == "win:Boolean"@ {
        Some(WinType::Boolean)
    } else if t == "win:Binary"@ {
        Some(WinType::Binary(length_of(d.length)))
    } else if t == "win:GUID"@ {
        Some(WinType::Guid)
    } else if t == "win:Pointer"@ {
        Some(WinType::Pointer)
    } else if t == "win:FILETIME"@ {
        Some(WinType::FileTime)
    } else if t == "win:SYSTEMTIME"@ {
        Some(WinType::SystemTime)
    } else if t == "win:SID"@ {
        Some(WinType::Sid)
    } else if t == "win:HexInt32"@ {
        Some(WinType::HexInt32)
    } else if t == "win:HexInt64"@ {
        Some(WinType::HexInt64)
    } else {
        None
    }
}

/// The manifest `inType` name of each type.
pub open spec fn in_type_name(w: WinType) -> Seq<char> {
    match w {
        WinType::UnicodeString(_) => "win:UnicodeString"@,
        WinType::AnsiString(_, _) => "win:AnsiString"@,
        WinType::Int8 => "win:Int8"@,
        WinType::UInt8 => "win:UInt8"@,
        WinType::Int16 => "win:Int16"@,
        WinType::UInt16 => "win:UInt16"@,
        WinType::Int32 => "win:Int32"@,
        WinType::UInt32 => "win:UInt32"@,
        WinType::Int64 => "win:Int64"@,
        WinType::UInt64 => "win:UInt64"@,
        WinType::Float => "win:Float"@,
        WinType::Double => "win:Double"@,
        WinType::Boolean => "win:Boolean"@,
        WinType::Binary(_) => "win:Binary"@,
        WinType::Guid => "win:GUID"@,
        WinType::Pointer => "win:Pointer"@,
        WinType::FileTime => "win:FILETIME"@,
        WinType::SystemTime => "win:SYSTEMTIME"@,
        WinType::Sid => "win:SID"@,
        WinType::HexInt32 => "win:HexInt32"@,
        WinType::HexInt64 => "win:HexInt64"@,
    }
}

/// A data field resolves to the type of the same name as its `inType`: `win:Double` gives
/// `WinType::Double`, `win:Float` gives `WinType::Float`, and so on, with the field's `length`
/// and ANSI encoding carried by the string and binary types.
pub proof fn law_in_type_names_their_type(d: DataType)
    ensures
        win_type_of(d) matches Some(w) ==> in_type_name(w) == d.in_type@,
        win_type_of(d) matches Some(WinType::UnicodeString(l)) ==> l == length_of(d.length),
        win_type_of(d) matches Some(WinType::AnsiString(l, e)) ==> l == length_of(d.length)
            && ansi_encoding_of(d.out_type) == Some(e),
        win_type_of(d) matches Some(WinType::Binary(l)) ==> l == length_of(d.length),
{
}

/// Every type's `inType` name is recognised: a data field whose `inType` is the name of a type
/// resolves, except a `win:AnsiString` whose output type is unsupported.
pub proof fn law_in_type_names_are_recognised(d: DataType, w: WinType)
    requires
        d.in_type@ == in_type_name(w),
    ensures
        win_type_of(d) is Some || (w is AnsiString && ansi_encoding_of(d.out_type) is None),
{
    reveal_strlit("win:UnicodeString");
    reveal_strlit("win:AnsiString");
    reveal_strlit("win:Int8");
    reveal_strlit("win:UInt8");
    reveal_strlit("win:Int16");
    reveal_strlit("win:UInt16");
    reveal_strlit("win:Int32");
    reveal_strlit("win:UInt32");
    reveal_strlit("win:Int64");
    reveal_strlit("win:UInt64");
    reveal_strlit("win:Float");
    reveal_strlit("win:Double");
    reveal_strlit("win:Boolean");
    reveal_strlit("win:Binary");
    reveal_strlit("win:GUID");
    reveal_strlit("win:Pointer");
    reveal_strlit("win:FILETIME");
    reveal_strlit("win:SYSTEMTIME");
    reveal_strlit("win:SID");
    reveal_strlit("win:HexInt32");
    reveal_strlit("win:HexInt64");
    if !(w is AnsiString) {
        assert(in_type_name(w) != "win:AnsiString"@) by {
            if w is SystemTime {
                assert("win:SYSTEMTIME"@[4] != "win:AnsiString"@[4]);
            }
        }
    }
}

/// Whether a template data field is rejected: an unknown type, an unsupported ANSI output
/// type, or an out-of-range constant count.
pub open spec fn data_rejected(d: DataType) -> bool {
    win_type_of(d) is None || count_rejected(d.count)
}

/// The message for a constant `count` attribute that is not a `u16`.
pub open spec fn count_error_message(raw: Seq<char>) -> Seq<char> {
    "array count "@ + debug_quoted(raw) + " is not a u16: "@ + (if trimmed(raw).len() == 0 {
        "cannot parse integer from empty string"@
    } else {
        "number too large to fit in target type"@
    })
}

/// The message for a rejected data field: an unsupported ANSI output type or an out-of-range
/// count, both under the field's name, or an unknown type.
pub open spec fn data_error_message(d: DataType) -> Seq<char> {
    if win_type_of(d) is None {
        if d.in_type@ == "win:AnsiString"@ {
            "field "@ + d.name@ + ": "@ + "unsupported outType "@ + debug_quoted(d.out_type->Some_0@)
                + " for win:AnsiString"@
        } else {
            "Unknown type "@ + d.in_type@
        }
    } else {
        "field "@ + d.name@ + ": "@ + count_error_message(d.count->Some_0@)
    }
}

/// Whether `t` is the resolved form of the accepted data field `d`.
pub open spec fn is_type_info_of(t: TypeInfo, d: DataType) -> bool {
    &&& t.name == d.name
    &&& win_type_of(d) == Some(t.win_type)
    &&& is_count_of(t.count, d.count)
}

fn length_from_attr(attr: &Option<String>) -> (l: Length)
    ensures
        l == length_of(*attr),
{
    match attr {
        None => Length::Implicit,
        Some(x) => match parse_decimal(x.as_str(), 0xffff_ffff) {
            Some(n) => Length::Constant(n as u32),
            None => Length::FieldRef(x.clone()),
        },
    }
}

fn count_from_attr(attr: &Option<String>) -> (res: Result<Count, ManifestError>)
    ensures
        res is Err <==> count_rejected(*attr),
        res matches Ok(c) ==> is_count_of(c, *attr),
        res matches Err(e) ==> e.spec_message() == count_error_message(attr->Some_0@),
{
    match attr {
        None => Ok(Count::Single),
        Some(raw) => {
            let cs = chars_of(raw.as_str());
            let t = trim_chars(cs.as_slice());
            let mut i: usize = 0;
            while i < t.len()
                invariant
                    i <= t@.len(),
                    t@ == trimmed(raw@),
                    *attr == Some(*raw),
                    forall|j: int| 0 <= j < i ==> '0' <= #[trigger] t@[j] <= '9',
                decreases t.len() - i,
            {
                if !('0' <= t[i] && t[i] <= '9') {
                    assert(!('0' <= t@[i as int] <= '9'));
                    assert(!all_ascii_digits(t@));
                    return Ok(Count::FieldRef(string_of(t.as_slice())));
                }
                i = i + 1;
            }
            let value = string_of(t.as_slice());
            match parse_decimal(value.as_str(), 0xffff) {
                Some(n) => {
                    proof {
                        assert(t@.len() > 0);
                        assert(t@[0] != '+');
                    }
                    Ok(Count::Constant(n as u16))
                },
                None => {
                    proof {
                        if t@.len() > 0 {
                            assert(t@[0] != '+');
                            assert(all_digits(t@, 10)) by {
                                assert forall|k: int| 0 <= k < t@.len() implies (#[trigger] crate::numbers::digit_value(t@[k], 10)) is Some by {
                                    assert('0' <= t@[k] <= '9');
                                }
                            }
                        }
                    }
                    let mut m = String::from_str("array count ");
                    push_str(&mut m, debug_quote(raw.as_str()).as_str());
                    push_str(&mut m, " is not a u16: ");
                    if t.len() == 0 {
                        push_str(&mut m, "cannot parse integer from empty string");
                    } else {
                        push_str(&mut m, "number too large to fit in target type");
                    }
                    proof {
                        assert(m@ =~= count_error_message(raw@));
                    }
                    Err(ManifestError::new(m))
                },
            }
        },
    }
}

fn ansi_encoding_from_attr(out_type: &Option<String>) -> (res: Result<AnsiEncoding, ManifestError>)
    ensures
        res is Ok <==> ansi_encoding_of(*out_type) is Some,
        res matches Ok(e) ==> ansi_encoding_of(*out_type) == Some(e),
        res matches Err(e) ==> e.spec_message() == "unsupported outType "@ + debug_quoted(out_type->Some_0@)
            + " for win:AnsiString"@,
{
    match out_type {
        None => Ok(AnsiEncoding::ProviderAnsi),
        Some(o) => {
            if str_equal(o.as_str(), "xs:string") {
                Ok(AnsiEncoding::ProviderAnsi)
            } else if str_equal(o.as_str(), "win:Utf8") || str_equal(o.as_str(), "win:Json")
                || str_equal(o.as_str(), "win:Xml") {
                Ok(AnsiEncoding::Utf8)
            } else {
                let mut m = String::from_str("unsupported outType ");
                push_str(&mut m, debug_quote(o.as_str()).as_str());
                push_str(&mut m, " for win:AnsiString");
                proof {
                    assert(m@ =~= "unsupported outType "@ + debug_quoted(o@) + " for win:AnsiString"@);
                }
                Err(ManifestError::new(m))
            }
        },
    }
}

fn field_context(d: &DataType) -> (s: String)
    ensures
        s@ == "field "@ + d.name@,
{
    let mut s = String::from_str("field ");
    push_str(&mut s, d.name.as_str());
    s
}

fn win_type_from_data(d: &DataType) -> (res: Result<WinType, ManifestError>)
    ensures
        res is Ok <==> win_type_of(*d) is Some,
        res matches Ok(w) ==> win_type_of(*d) == Some(w),
        res matches Err(e) ==> e.spec_message() == data_error_message(*d),
{
    let t = d.in_type.as_str();
    if str_equal(t, "win:UnicodeString") {
        Ok(WinType::UnicodeString(length_from_attr(&d.length)))
    } else if str_equal(t, "win:AnsiString") {
        match ansi_encoding_from_attr(&d.out_type) {
            Ok(e) => Ok(WinType::AnsiString(length_from_attr(&d.length), e)),
            Err(e) => {
                let e2 = e.context(field_context(d));
                proof {
                    assert(e2.spec_message() =~= data_error_message(*d));
                }
                Err(e2)
            },
        }
    } else if str_equal(t, "win:Int8") {
        Ok(WinType::Int8)
    } else if str_equal(t, "win:UInt8") {
        Ok(WinType::UInt8)
    } else if str_equal(t, "win:Int16") {
        Ok(WinType::Int16)
    } else if str_equal(t, "win:UInt16") {
        Ok(WinType::UInt16)
    } else if str_equal(t, "win:Int32") {
        Ok(WinType::Int32)
    } else if str_equal(t, "win:UInt32") {
        Ok(WinType::UInt32)
    } else if str_equal(t, "win:Int64") {
        Ok(WinType::Int64)
    } else if str_equal(t, "win:UInt64") {
        Ok(WinType::UInt64)
    } else if str_equal(t, "win:Float") {
        Ok(WinType::Float)
    } else if str_equal(t, "win:Double") {
        Ok(WinType::Double)
    } else if str_equal(t, "win:Boolean") {
        Ok(WinType::Boolean)
    } else if str_equal(t, "win:Binary") {
        Ok(WinType::Binary(length_from_attr(&d.length)))
    } else if str_equal(t, "win:GUID") {
        Ok(WinType::Guid)
    } else if str_equal(t, "win:Pointer") {
        Ok(WinType::Pointer)
    } else if str_equal(t, "win:FILETIME") {
        Ok(WinType::FileTime)
    } else if str_equal(t, "win:SYSTEMTIME") {
        Ok(WinType::SystemTime)
    } else if str_equal(t, "win:SID") {
        Ok(WinType::Sid)
    } else if str_equal(t, "win:HexInt32") {
        Ok(WinType::HexInt32)
    } else if str_equal(t, "win:HexInt64") {
        Ok(WinType::HexInt64)
    } else {
        let mut m = String::from_str("Unknown type ");
        push_str(&mut m, t);
        proof {
            assert(m@ =~= "Unknown type "@ + d.in_type@);
        }
        Err(ManifestError::new(m))
    }
}

/// Resolves a template's data fields into their types, in order. Fails on the first field
/// with an unknown `inType`, an unsupported `win:AnsiString` `outType`, or a constant `count`
/// that is not a `u16`.
pub fn template_data_to_types(data: &[DataType]) -> (res: Result<Vec<TypeInfo>, ManifestError>)
    ensures
        res is Ok <==> forall|i: int| 0 <= i < data@.len() ==> !data_rejected(#[trigger] data@[i]),
        res matches Ok(types) ==> types@.len() == data@.len() && forall|i: int|
            0 <= i < data@.len() ==> is_type_info_of(#[trigger] types@[i], data@[i]),
        res matches Err(e) ==> exists|i: int|
            0 <= i < data@.len() && data_rejected(#[trigger] data@[i]) && (forall|j: int|
                0 <= j < i ==> !data_rejected(#[trigger] data@[j])) && e.spec_message() == data_error_message(data@[i]),
{
    let mut types: Vec<TypeInfo> = Vec::new();
    let mut i: usize = 0;
    while i < data.len()
        invariant
            i <= data@.len(),
            types@.len() == i,
            forall|j: int| 0 <= j < i ==> !data_rejected(#[trigger] data@[j]),
            forall|j: int| 0 <= j < i ==> is_type_info_of(#[trigger] types@[j], data@[j]),
        decreases data.len() - i,
    {
        let d = &data[i];
        let win_type = match win_type_from_data(d) {
            Ok(w) => w,
            Err(e) => {
                return Err(e);
            },
        };
        let count = match count_from_attr(&d.count) {
            Ok(c) => c,
            Err(e) => {
                let e2 = e.context(field_context(d));
                proof {
                    assert(e2.spec_message() =~= data_error_message(*d));
                }
                return Err(e2);
            },
        };
        types.push(TypeInfo { name: d.name.clone(), win_type, count });
        i = i + 1;
    }
    Ok(types)
}


/// A name-keyed lookup table. Entries are kept in insertion order and a lookup finds the
/// last entry with the name, so a later entry overrides an earlier one.
#[derive(Debug)]
pub struct NameTable<T> {
    entries: Vec<(String, T)>,
}

/// The value of the last entry named `key`, `None` if there is none.
pub open spec fn table_get<T>(t: Seq<(Seq<char>, T)>, key: Seq<char>) -> Option<T>
    decreases t.len(),
{
    if t.len() == 0 {
        None
    } else if t.last().0 == key {
        Some(t.last().1)
    } else {
        table_get(t.drop_last(), key)
    }
}

/// A lookup gives what the latest insert of its name wrote: after inserting `name`, looking it
/// up gives the inserted value, and lookups of other names are unchanged.
pub proof fn law_table_read_after_insert<T>(t: Seq<(Seq<char>, T)>, name: Seq<char>, value: T, other: Seq<char>)
    ensures
        table_get(t.push((name, value)), name) == Some(value),
        other != name ==> table_get(t.push((name, value)), other) == table_get(t, other),
{
    assert(t.push((name, value)).drop_last() =~= t);
}

impl<T> View for NameTable<T> {
    type V = Seq<(Seq<char>, T)>;

    closed spec fn view(&self) -> Seq<(Seq<char>, T)> {
        self.entries@.map_values(|e: (String, T)| (e.0@, e.1))
    }
}

impl<T> NameTable<T> {
    /// An empty table.
    pub fn new() -> (t: NameTable<T>)
        ensures
            t@ == Seq::<(Seq<char>, T)>::empty(),
    {
        let t = NameTable { entries: Vec::new() };
        assert(t@ =~= Seq::<(Seq<char>, T)>::empty());
        t
    }

    /// Adds an entry after all the others.
    pub fn insert(&mut self, name: String, value: T)
        ensures
            final(self)@ == old(self)@.push((name@, value)),
    {
        self.entries.push((name, value));
        assert(self@ =~= old(self)@.push((name@, value)));
    }

    /// The number of entries.
    pub fn len(&self) -> (n: usize)
        ensures
            n == self@.len(),
    {
        self.entries.len()
    }

    /// The position of the last entry named `key`.
    pub fn find(&self, key: &str) -> (r: Option<usize>)
        ensures
            r matches Some(i) ==> i < self@.len() && self@[i as int].0 == key@ && table_get(
                self@,
                key@,
            ) == Some(self@[i as int].1),
            r is None ==> table_get(self@, key@) is None,
    {
        let mut i = self.entries.len();
        let ghost v = self@;
        assert(v.take(i as int) =~= v);
        while i > 0
            invariant
                i <= v.len(),
                v == self@,
                table_get(v, key@) == table_get(v.take(i as int), key@),
            decreases i,
        {
            assert(v.take(i as int).drop_last() =~= v.take(i - 1));
            assert(v.take(i as int).last() == v[i - 1]);
            if str_equal(self.entries[i - 1].0.as_str(), key) {
                return Some(i - 1);
            }
            i = i - 1;
        }
        None
    }

    /// The value of the entry at position `i`.
    pub fn value_at(&self, i: usize) -> (v: &T)
        requires
            i < self@.len(),
        ensures
            *v == self@[i as int].1,
    {
        &self.entries[i].1
    }
}

impl<T> NameTable<T> {
    /// A reference to the value of the last entry named `key`.
    pub fn lookup(&self, key: &str) -> (r: Option<&T>)
        ensures
            r matches Some(v) ==> table_get(self@, key@) == Some(*v),
            r is None ==> table_get(self@, key@) is None,
    {
        match self.find(key) {
            Some(i) => Some(&self.entries[i].1),
            None => None,
        }
    }
}

impl<T: Copy> NameTable<T> {
    /// The value of the last entry named `key`.
    pub fn get(&self, key: &str) -> (r: Option<T>)
        ensures
            r == table_get(self@, key@),
    {
        match self.find(key) {
            Some(i) => Some(self.entries[i].1),
            None => None,
        }
    }
}

/// Whether a manifest integer attribute denotes a value no larger than `max`.
pub open spec fn int_fits(s: Seq<char>, max: nat) -> bool {
    manifest_int(s) matches Some(n) && n <= max
}

/// The value of an integer attribute that fits.
pub open spec fn int_value(s: Seq<char>) -> nat {
    manifest_int(s).unwrap_or(0)
}

/// The message for the table entry `what` named `name` whose integer attribute `attr` holds
/// `value`, which does not fit `max`.
pub open spec fn value_error(what: Seq<char>, name: Seq<char>, attr: Seq<char>, value: Seq<char>, max: nat) -> Seq<char> {
    what + " "@ + name + " "@ + attr + " "@ + debug_quoted(value) + ": "@ + int_error_text(value, max)
}

fn int_attr(value: &String, max: u64, what: &str, name: &String, attr: &str) -> (res: Result<u64, ManifestError>)
    ensures
        res is Ok <==> int_fits(value@, max as nat),
        res matches Ok(v) ==> v == int_value(value@),
        res matches Err(e) ==> e.spec_message() == value_error(what@, name@, attr@, value@, max as nat),
{
    match parse_int(value.as_str(), max) {
        Ok(v) => Ok(v),
        Err(e) => {
            assert(e == IntError::Invalid || e == IntError::OutOfRange);
            assert(!int_fits(value@, max as nat));
            let mut m = String::from_str(what);
            push_str(&mut m, " ");
            push_str(&mut m, name.as_str());
            push_str(&mut m, " ");
            push_str(&mut m, attr);
            push_str(&mut m, " ");
            push_str(&mut m, debug_quote(value.as_str()).as_str());
            push_str(&mut m, ": ");
            let why = describe_int_error(value.as_str(), max);
            push_str(&mut m, why.as_str());
            proof {
                assert(m@ =~= value_error(what@, name@, attr@, value@, max as nat));
            }
            Err(ManifestError::new(m))
        },
    }
}

/// Whether declared level `i` is the first whose value is not a `u8`.
pub open spec fn first_bad_level(p: ProviderType, i: int) -> bool {
    &&& 0 <= i < levels_of(p).len()
    &&& !int_fits(levels_of(p)[i].value@, 0xff)
    &&& forall|j: int| 0 <= j < i ==> int_fits((#[trigger] levels_of(p)[j]).value@, 0xff)
}

/// Whether `msg` reports the first declared level whose value is not a `u8`.
pub open spec fn level_error(p: ProviderType, msg: Seq<char>) -> bool {
    exists|i: int| #[trigger] first_bad_level(p, i) && msg == value_error(
        "level"@,
        levels_of(p)[i].name@,
        "value"@,
        levels_of(p)[i].value@,
        0xff,
    )
}

/// Whether declared keyword `i` is the first whose mask is not a `u64`.
pub open spec fn first_bad_keyword(p: ProviderType, i: int) -> bool {
    &&& 0 <= i < keywords_of(p).len()
    &&& !int_fits(keywords_of(p)[i].mask@, 0xffff_ffff_ffff_ffff)
    &&& forall|j: int| 0 <= j < i ==> int_fits((#[trigger] keywords_of(p)[j]).mask@, 0xffff_ffff_ffff_ffff)
}

/// Whether `msg` reports the first declared keyword whose mask is not a `u64`.
pub open spec fn keyword_error(p: ProviderType, msg: Seq<char>) -> bool {
    exists|i: int| #[trigger] first_bad_keyword(p, i) && msg == value_error(
        "keyword"@,
        keywords_of(p)[i].name@,
        "mask"@,
        keywords_of(p)[i].mask@,
        0xffff_ffff_ffff_ffff,
    )
}

/// Whether declared opcode `i` is the first whose value is not a `u8`.
pub open spec fn first_bad_opcode(p: ProviderType, i: int) -> bool {
    &&& 0 <= i < opcodes_of(p).len()
    &&& !int_fits(opcodes_of(p)[i].value@, 0xff)
    &&& forall|j: int| 0 <= j < i ==> int_fits((#[trigger] opcodes_of(p)[j]).value@, 0xff)
}

/// Whether `msg` reports the first declared opcode whose value is not a `u8`.
pub open spec fn opcode_error(p: ProviderType, msg: Seq<char>) -> bool {
    exists|i: int| #[trigger] first_bad_opcode(p, i) && msg == value_error(
        "opcode"@,
        opcodes_of(p)[i].name@,
        "value"@,
        opcodes_of(p)[i].value@,
        0xff,
    )
}

/// Whether declared task `i` is the first whose value is not a `u16`.
pub open spec fn first_bad_task(p: ProviderType, i: int) -> bool {
    &&& 0 <= i < tasks_of(p).len()
    &&& !int_fits(tasks_of(p)[i].value@, 0xffff)
    &&& forall|j: int| 0 <= j < i ==> int_fits((#[trigger] tasks_of(p)[j]).value@, 0xffff)
}

/// Whether `msg` reports the first declared task whose value is not a `u16`.
pub open spec fn task_error(p: ProviderType, msg: Seq<char>) -> bool {
    exists|i: int| #[trigger] first_bad_task(p, i) && msg == value_error(
        "task"@,
        tasks_of(p)[i].name@,
        "value"@,
        tasks_of(p)[i].value@,
        0xffff,
    )
}

/// The levels that every provider has.
pub open spec fn builtin_levels() -> Seq<(Seq<char>, u8)> {
    seq![("win:LogAlways"@, 0u8), ("win:Critical"@, 1u8), ("win:Error"@, 2u8),
        ("win:Warning"@, 3u8), ("win:Informational"@, 4u8), ("win:Verbose"@, 5u8)]
}

/// The opcodes that every provider has.
pub open spec fn builtin_opcodes() -> Seq<(Seq<char>, u8)> {
    seq![("win:Info"@, 0u8), ("win:Start"@, 1u8), ("win:Stop"@, 2u8), ("win:DC_Start"@, 3u8),
        ("win:DC_Stop"@, 4u8), ("win:Extension"@, 5u8), ("win:Reply"@, 6u8), ("win:Resume"@, 7u8),
        ("win:Suspend"@, 8u8), ("win:Send"@, 9u8), ("win:Receive"@, 240u8)]
}

/// A provider's declared levels.
pub open spec fn levels_of(p: ProviderType) -> Seq<crate::eventman::LevelType> {
    match p.levels {
        Some(l) => l.level@,
        None => seq![],
    }
}

/// A provider's declared keywords.
pub open spec fn keywords_of(p: ProviderType) -> Seq<crate::eventman::KeywordType> {
    match p.keywords {
        Some(l) => l.keyword@,
        None => seq![],
    }
}

/// A provider's declared opcodes.
pub open spec fn opcodes_of(p: ProviderType) -> Seq<crate::eventman::OpcodeType> {
    match p.opcodes {
        Some(l) => l.opcode@,
        None => seq![],
    }
}

/// A provider's declared tasks.
pub open spec fn tasks_of(p: ProviderType) -> Seq<crate::eventman::TaskType> {
    match p.tasks {
        Some(l) => l.task@,
        None => seq![],
    }
}

/// A provider's declared channels.
pub open spec fn channels_of(p: ProviderType) -> Seq<crate::eventman::ChannelType> {
    match p.channels {
        Some(l) => l.channel@,
        None => seq![],
    }
}

/// A provider's declared templates.
pub open spec fn templates_of(p: ProviderType) -> Seq<crate::eventman::TemplateType> {
    match p.templates {
        Some(l) => l.template@,
        None => seq![],
    }
}

fn push_builtins(t: &mut NameTable<u8>, names: &[&str], values: &[u8])
    requires
        names@.len() == values@.len(),
    ensures
        final(t)@ == old(t)@ + Seq::new(names@.len(), |i: int| (names@[i]@, values@[i])),
{
    let mut i: usize = 0;
    while i < names.len()
        invariant
            i <= names@.len(),
            names@.len() == values@.len(),
            t@ =~= old(t)@ + Seq::new(i as nat, |k: int| (names@[k]@, values@[k])),
        decreases names.len() - i,
    {
        t.insert(String::from_str(names[i]), values[i]);
        i = i + 1;
    }
}

/// Collects a provider's levels: the built-in levels followed by the declared ones, so a
/// declaration overrides a built-in level of the same name. Fails if a declared value is not
/// a `u8`.
pub fn collect_levels(prov: &ProviderType) -> (res: Result<NameTable<u8>, ManifestError>)
    ensures
        res is Ok <==> forall|i: int| 0 <= i < levels_of(*prov).len() ==> int_fits(
            (#[trigger] levels_of(*prov)[i]).value@,
            0xff,
        ),
        res matches Ok(t) ==> t@ == builtin_levels() + levels_of(*prov).map_values(
            |l: crate::eventman::LevelType| (l.name@, int_value(l.value@) as u8),
        ),
        res matches Err(e) ==> level_error(*prov, e.spec_message()),
{
    let mut map: NameTable<u8> = NameTable::new();
    let names: [&str; 6] = ["win:LogAlways", "win:Critical", "win:Error", "win:Warning",
        "win:Informational", "win:Verbose"];
    let values: [u8; 6] = [0, 1, 2, 3, 4, 5];
    push_builtins(&mut map, names.as_slice(), values.as_slice());
    proof {
        assert(map@ =~= builtin_levels()) by {
            reveal_strlit("win:LogAlways");
        }
    }
    let ghost base = map@;
    if let Some(list) = &prov.levels {
        let mut i: usize = 0;
        while i < list.level.len()
            invariant
                i <= list.level@.len(),
                levels_of(*prov) == list.level@,
                forall|j: int| 0 <= j < i ==> int_fits((#[trigger] list.level@[j]).value@, 0xff),
                map@ =~= base + list.level@.take(i as int).map_values(
                    |l: crate::eventman::LevelType| (l.name@, int_value(l.value@) as u8),
                ),
            decreases list.level.len() - i,
        {
            let l = &list.level[i];
            let value = match int_attr(&l.value, 0xff, "level", &l.name, "value") {
                Ok(v) => v,
                Err(e) => {
                    proof {
                        assert(first_bad_level(*prov, i as int));
                    }
                    return Err(e);
                },
            };
            map.insert(l.name.clone(), value as u8);
            i = i + 1;
        }
        assert(list.level@.take(i as int) =~= list.level@);
    } else {
        assert(map@ =~= base + levels_of(*prov).map_values(
            |l: crate::eventman::LevelType| (l.name@, int_value(l.value@) as u8),
        ));
    }
    Ok(map)
}


/// Collects a provider's keywords, keyed by name. Fails if a declared mask is not a `u64`.
pub fn collect_keywords(prov: &ProviderType) -> (res: Result<NameTable<u64>, ManifestError>)
    ensures
        res is Ok <==> forall|i: int| 0 <= i < keywords_of(*prov).len() ==> int_fits(
            (#[trigger] keywords_of(*prov)[i]).mask@,
            0xffff_ffff_ffff_ffff,
        ),
        res matches Ok(t) ==> t@ == keywords_of(*prov).map_values(
            |l: crate::eventman::KeywordType| (l.name@, int_value(l.mask@) as u64),
        ),
        res matches Err(e) ==> keyword_error(*prov, e.spec_message()),
{
    let mut map: NameTable<u64> = NameTable::new();
    let ghost base = map@;
    if let Some(list) = &prov.keywords {
        let mut i: usize = 0;
        while i < list.keyword.len()
            invariant
                i <= list.keyword@.len(),
                keywords_of(*prov) == list.keyword@,
                forall|j: int| 0 <= j < i ==> int_fits((#[trigger] list.keyword@[j]).mask@, 0xffff_ffff_ffff_ffff),
                map@ =~= base + list.keyword@.take(i as int).map_values(
                    |l: crate::eventman::KeywordType| (l.name@, int_value(l.mask@) as u64),
                ),
            decreases list.keyword.len() - i,
        {
            let l = &list.keyword[i];
            let value = match int_attr(&l.mask, 0xffff_ffff_ffff_ffff, "keyword", &l.name, "mask") {
                Ok(v) => v,
                Err(e) => {
                    proof {
                        assert(first_bad_keyword(*prov, i as int));
                    }
                    return Err(e);
                },
            };
            map.insert(l.name.clone(), value as u64);
            i = i + 1;
        }
        assert(list.keyword@.take(i as int) =~= list.keyword@);
    } else {
        assert(map@ =~= base + keywords_of(*prov).map_values(
            |l: crate::eventman::KeywordType| (l.name@, int_value(l.mask@) as u64),
        ));
    }
    Ok(map)
}

/// Collects a provider's opcodes: the built-in opcodes followed by the declared ones, so a
/// declaration overrides a built-in opcode of the same name. Fails if a declared value is not a `u8`.
pub fn collect_opcodes(prov: &ProviderType) -> (res: Result<NameTable<u8>, ManifestError>)
    ensures
        res is Ok <==> forall|i: int| 0 <= i < opcodes_of(*prov).len() ==> int_fits(
            (#[trigger] opcodes_of(*prov)[i]).value@,
            0xff,
        ),
        res matches Ok(t) ==> t@ == builtin_opcodes() + opcodes_of(*prov).map_values(
            |l: crate::eventman::OpcodeType| (l.name@, int_value(l.value@) as u8),
        ),
        res matches Err(e) ==> opcode_error(*prov, e.spec_message()),
{
    let mut map: NameTable<u8> = NameTable::new();
    let names: [&str; 11] = ["win:Info", "win:Start", "win:Stop", "win:DC_Start", "win:DC_Stop", "win:Extension", "win:Reply", "win:Resume", "win:Suspend", "win:Send", "win:Receive"];
    let values: [u8; 11] = [0, 1, 2, 3, 4, 5, 6, 7, 8, 9, 240];
    push_builtins(&mut map, names.as_slice(), values.as_slice());
    proof {
        assert(map@ =~= builtin_opcodes()) by {
            reveal_strlit("win:Info");
        }
    }
    let ghost base = map@;
    if let Some(list) = &prov.opcodes {
        let mut i: usize = 0;
        while i < list.opcode.len()
            invariant
                i <= list.opcode@.len(),
                opcodes_of(*prov) == list.opcode@,
                forall|j: int| 0 <= j < i ==> int_fits((#[trigger] list.opcode@[j]).value@, 0xff),
                map@ =~= base + list.opcode@.take(i as int).map_values(
                    |l: crate::eventman::OpcodeType| (l.name@, int_value(l.value@) as u8),
                ),
            decreases list.opcode.len() - i,
        {
            let l = &list.opcode[i];
            let value = match int_attr(&l.value, 0xff, "opcode", &l.name, "value") {
                Ok(v) => v,
                Err(e) => {
                    proof {
                        assert(first_bad_opcode(*prov, i as int));
                    }
                    return Err(e);
                },
            };
            map.insert(l.name.clone(), value as u8);
            i = i + 1;
        }
        assert(list.opcode@.take(i as int) =~= list.opcode@);
    } else {
        assert(map@ =~= base + opcodes_of(*prov).map_values(
            |l: crate::eventman::OpcodeType| (l.name@, int_value(l.value@) as u8),
        ));
    }
    Ok(map)
}

/// Collects a provider's tasks, keyed by name. Fails if a declared value is not a `u16`.
pub fn collect_tasks(prov: &ProviderType) -> (res: Result<NameTable<u16>, ManifestError>)
    ensures
        res is Ok <==> forall|i: int| 0 <= i < tasks_of(*prov).len() ==> int_fits(
            (#[trigger] tasks_of(*prov)[i]).value@,
            0xffff,
        ),
        res matches Ok(t) ==> t@ == tasks_of(*prov).map_values(
            |l: crate::eventman::TaskType| (l.name@, int_value(l.value@) as u16),
        ),
        res matches Err(e) ==> task_error(*prov, e.spec_message()),
{
    let mut map: NameTable<u16> = NameTable::new();
    let ghost base = map@;
    if let Some(list) = &prov.tasks {
        let mut i: usize = 0;
        while i < list.task.len()
            invariant
                i <= list.task@.len(),
                tasks_of(*prov) == list.task@,
                forall|j: int| 0 <= j < i ==> int_fits((#[trigger] list.task@[j]).value@, 0xffff),
                map@ =~= base + list.task@.take(i as int).map_values(
                    |l: crate::eventman::TaskType| (l.name@, int_value(l.value@) as u16),
                ),
            decreases list.task.len() - i,
        {
            let l = &list.task[i];
            let value = match int_attr(&l.value, 0xffff, "task", &l.name, "value") {
                Ok(v) => v,
                Err(e) => {
                    proof {
                        assert(first_bad_task(*prov, i as int));
                    }
                    return Err(e);
                },
            };
            map.insert(l.name.clone(), value as u16);
            i = i + 1;
        }
        assert(list.task@.take(i as int) =~= list.task@);
    } else {
        assert(map@ =~= base + tasks_of(*prov).map_values(
            |l: crate::eventman::TaskType| (l.name@, int_value(l.value@) as u16),
        ));
    }
    Ok(map)
}

/// Whether a template's data fields all resolve.
pub open spec fn template_accepted(t: crate::eventman::TemplateType) -> bool {
    forall|i: int| 0 <= i < t.data@.len() ==> !data_rejected(#[trigger] t.data@[i])
}

/// Whether `types` are the resolved data fields of template `t`.
pub open spec fn is_template_types_of(types: Vec<TypeInfo>, t: crate::eventman::TemplateType) -> bool {
    &&& types@.len() == t.data@.len()
    &&& forall|i: int| 0 <= i < t.data@.len() ==> is_type_info_of(#[trigger] types@[i], t.data@[i])
}

/// Whether `msg` reports that template `i` is the first that does not resolve, because of its
/// data field `k`, the first of its fields that does not resolve.
pub open spec fn template_failure(p: ProviderType, i: int, k: int, msg: Seq<char>) -> bool {
    let t = templates_of(p)[i];
    &&& 0 <= i < templates_of(p).len()
    &&& forall|j: int| 0 <= j < i ==> template_accepted(#[trigger] templates_of(p)[j])
    &&& 0 <= k < t.data@.len()
    &&& data_rejected(t.data@[k])
    &&& forall|j: int| 0 <= j < k ==> !data_rejected(#[trigger] t.data@[j])
    &&& msg == "template "@ + t.tid@ + ": "@ + data_error_message(t.data@[k])
}

/// Whether `msg` reports the first template that does not resolve.
pub open spec fn template_error(p: ProviderType, msg: Seq<char>) -> bool {
    exists|i: int, k: int| #[trigger] template_failure(p, i, k, msg)
}

/// Collects a provider's templates, keyed by template id, with each template's data fields
/// resolved. Fails if a template has a field that does not resolve.
pub fn collect_templates(prov: &ProviderType) -> (res: Result<NameTable<Vec<TypeInfo>>, ManifestError>)
    ensures
        res is Ok <==> forall|i: int| 0 <= i < templates_of(*prov).len() ==> template_accepted(
            #[trigger] templates_of(*prov)[i],
        ),
        res matches Ok(t) ==> t@.len() == templates_of(*prov).len() && forall|i: int|
            0 <= i < t@.len() ==> (#[trigger] t@[i]).0 == templates_of(*prov)[i].tid@
                && is_template_types_of(t@[i].1, templates_of(*prov)[i]),
        res matches Err(e) ==> template_error(*prov, e.spec_message()),
{
    let mut map: NameTable<Vec<TypeInfo>> = NameTable::new();
    if let Some(list) = &prov.templates {
        let mut i: usize = 0;
        while i < list.template.len()
            invariant
                i <= list.template@.len(),
                templates_of(*prov) == list.template@,
                map@.len() == i,
                forall|j: int| 0 <= j < i ==> template_accepted(#[trigger] list.template@[j]),
                forall|j: int| 0 <= j < i ==> (#[trigger] map@[j]).0 == list.template@[j].tid@
                    && is_template_types_of(map@[j].1, list.template@[j]),
            decreases list.template.len() - i,
        {
            let t = &list.template[i];
            let types = match template_data_to_types(t.data.as_slice()) {
                Ok(types) => types,
                Err(e) => {
                    let mut c = String::from_str("template ");
                    push_str(&mut c, t.tid.as_str());
                    let ghost inner = e.spec_message();
                    let e2 = e.context(c);
                    proof {
                        let k = choose|k: int| 0 <= k < t.data@.len() && data_rejected(#[trigger] t.data@[k]) && (forall|j: int|
                            0 <= j < k ==> !data_rejected(#[trigger] t.data@[j])) && inner == data_error_message(t.data@[k]);
                        assert(e2.spec_message() =~= "template "@ + t.tid@ + ": "@ + data_error_message(t.data@[k]));
                        assert(template_failure(*prov, i as int, k, e2.spec_message()));
                    }
                    return Err(e2);
                },
            };
            map.insert(t.tid.clone(), types);
            i = i + 1;
        }
    }
    Ok(map)
}

/// The smallest channel id from `lower` to 255 that no explicit channel value claims.
pub open spec fn first_free_channel(explicit: Set<nat>, lower: nat) -> Option<nat>
    decreases 256 - lower,
{
    if lower > 255 {
        None
    } else if !explicit.contains(lower) {
        Some(lower)
    } else {
        first_free_channel(explicit, lower + 1)
    }
}

/// The ids of a provider's channels in declaration order, given each channel's explicit
/// value, if any. A channel without one takes the smallest id, at least `lower`, that no
/// explicit value claims; the next such channel then starts above it. `None` if the ids run
/// out. The first `lower` is 16, where custom channels start.
pub open spec fn channel_ids(values: Seq<Option<nat>>, explicit: Set<nat>, lower: nat) -> Option<Seq<nat>>
    decreases values.len(),
{
    if values.len() == 0 {
        Some(seq![])
    } else {
        match values[0] {
            Some(v) => match channel_ids(values.drop_first(), explicit, lower) {
                Some(rest) => Some(seq![v] + rest),
                None => None,
            },
            None => match first_free_channel(explicit, lower) {
                None => None,
                Some(v) => match channel_ids(values.drop_first(), explicit, v + 1) {
                    Some(rest) => Some(seq![v] + rest),
                    None => None,
                },
            },
        }
    }
}

/// A channel's explicit value, if it declares one.
pub open spec fn channel_value(c: crate::eventman::ChannelType) -> Option<nat> {
    match c.value {
        Some(v) => Some(int_value(v@)),
        None => None,
    }
}

/// The key that `<event>` elements use for a channel: its `chid`, else its `name`.
pub open spec fn channel_key(c: crate::eventman::ChannelType) -> Seq<char> {
    match c.chid {
        Some(id) => id@,
        None => c.name@,
    }
}

/// Whether a channel's explicit value, if any, is a `u8`.
pub open spec fn channel_value_fits(c: crate::eventman::ChannelType) -> bool {
    match c.value {
        Some(v) => int_fits(v@, 0xff),
        None => true,
    }
}

/// The explicit values of a provider's channels.
pub open spec fn explicit_channel_values(cs: Seq<crate::eventman::ChannelType>) -> Set<nat> {
    Set::new(|v: nat| exists|i: int| 0 <= i < cs.len() && channel_value(#[trigger] cs[i]) == Some(v))
}

/// Whether declared channel `i` is the first whose explicit value is not a `u8`.
pub open spec fn first_bad_channel(p: ProviderType, i: int) -> bool {
    &&& 0 <= i < channels_of(p).len()
    &&& !channel_value_fits(channels_of(p)[i])
    &&& forall|j: int| 0 <= j < i ==> channel_value_fits(#[trigger] channels_of(p)[j])
}

/// Whether `msg` reports why a provider's channels do not resolve: the first explicit value
/// that is not a `u8`, else the ids running out.
pub open spec fn channel_error(p: ProviderType, msg: Seq<char>) -> bool {
    ||| exists|i: int| #[trigger] first_bad_channel(p, i) && msg == value_error(
        "channel"@,
        channels_of(p)[i].name@,
        "value"@,
        channels_of(p)[i].value->Some_0@,
        0xff,
    )
    ||| (forall|i: int| 0 <= i < channels_of(p).len() ==> channel_value_fits(#[trigger] channels_of(p)[i]))
        && msg == "too many channels to auto-assign ids"@
}

/// The ids of a provider's channels, `None` if they run out.
pub open spec fn provider_channel_ids(cs: Seq<crate::eventman::ChannelType>) -> Option<Seq<nat>> {
    channel_ids(cs.map_values(|c: crate::eventman::ChannelType| channel_value(c)),
        explicit_channel_values(cs), 16)
}


/// `prefix` followed by the ids of `rest`, `None` if `rest` is.
pub open spec fn prepend_ids(prefix: Seq<nat>, rest: Option<Seq<nat>>) -> Option<Seq<nat>> {
    match rest {
        Some(r) => Some(prefix + r),
        None => None,
    }
}

fn explicit_contains(explicit: &Vec<Option<u8>>, v: u16) -> (b: bool)
    ensures
        b == exists|j: int| 0 <= j < explicit@.len() && explicit@[j] == Some(v as u8) && v <= 255,
{
    if v > 255 {
        return false;
    }
    let mut j: usize = 0;
    while j < explicit.len()
        invariant
            j <= explicit@.len(),
            v <= 255,
            forall|k: int| 0 <= k < j ==> explicit@[k] != Some(v as u8),
        decreases explicit.len() - j,
    {
        if explicit[j] == Some(v as u8) {
            return true;
        }
        j = j + 1;
    }
    false
}

/// Collects a provider's channels keyed by `chid`, falling back to `name`, which is how
/// `<event>` elements reference them. An explicit `value` wins; a channel without one is
/// numbered automatically from 16 in declaration order, skipping ids that explicit values
/// claim, as the ETW compiler does. Fails if an explicit value is not a `u8` or the ids run
/// out.
pub fn collect_channels(prov: &ProviderType) -> (res: Result<NameTable<u8>, ManifestError>)
    ensures
        res is Ok <==> (forall|i: int| 0 <= i < channels_of(*prov).len() ==> channel_value_fits(
            #[trigger] channels_of(*prov)[i],
        )) && provider_channel_ids(channels_of(*prov)) is Some,
        res matches Ok(t) ==> t@.len() == channels_of(*prov).len() && forall|i: int|
            0 <= i < t@.len() ==> #[trigger] t@[i] == (
                channel_key(channels_of(*prov)[i]),
                provider_channel_ids(channels_of(*prov))->Some_0[i] as u8,
            ),
        res matches Err(e) ==> channel_error(*prov, e.spec_message()),
{
    let mut map: NameTable<u8> = NameTable::new();
    let list = match &prov.channels {
        Some(list) => list,
        None => {
            return Ok(map);
        },
    };
    let ghost cs = list.channel@;
    assert(channels_of(*prov) == cs);
    let ghost values = cs.map_values(|c: crate::eventman::ChannelType| channel_value(c));
    let ghost ex = explicit_channel_values(cs);
    let mut explicit: Vec<Option<u8>> = Vec::new();
    let mut i: usize = 0;
    while i < list.channel.len()
        invariant
            i <= cs.len(),
            cs == list.channel@,
            channels_of(*prov) == cs,
            explicit@.len() == i,
            forall|j: int| 0 <= j < i ==> channel_value_fits(#[trigger] cs[j]),
            forall|j: int| 0 <= j < i ==> (match #[trigger] explicit@[j] {
                Some(v) => channel_value(cs[j]) == Some(v as nat),
                None => channel_value(cs[j]) is None,
            }),
        decreases list.channel.len() - i,
    {
        let c = &list.channel[i];
        match &c.value {
            Some(v) => {
                match int_attr(v, 0xff, "channel", &c.name, "value") {
                    Ok(n) => explicit.push(Some(n as u8)),
                    Err(e) => {
                        assert(!channel_value_fits(cs[i as int]));
                        assert(channels_of(*prov) == cs);
                        assert(first_bad_channel(*prov, i as int));
                        return Err(e);
                    },
                }
            },
            None => explicit.push(None),
        }
        i = i + 1;
    }
    assert forall|v: u16| v <= 255 implies (exists|j: int|
        0 <= j < explicit@.len() && explicit@[j] == Some(v as u8)) == ex.contains(v as nat) by {
        if ex.contains(v as nat) {
            let j = choose|j: int| 0 <= j < cs.len() && channel_value(#[trigger] cs[j]) == Some(v as nat);
            assert(explicit@[j] == Some(v as u8));
        }
        if exists|j: int| 0 <= j < explicit@.len() && explicit@[j] == Some(v as u8) {
            let j = choose|j: int| 0 <= j < explicit@.len() && explicit@[j] == Some(v as u8);
            assert(channel_value(cs[j]) == Some(v as nat));
        }
    }
    let mut lower: u16 = 16;
    let mut ids: Vec<u8> = Vec::new();
    let ghost mut ghost_ids: Seq<nat> = seq![];
    assert(values.skip(0) =~= values);
    let mut k: usize = 0;
    while k < list.channel.len()
        invariant
            k <= cs.len(),
            cs == list.channel@,
            channels_of(*prov) == cs,
            forall|j: int| 0 <= j < cs.len() ==> channel_value_fits(#[trigger] cs[j]),
            channels_of(*prov) == cs,
            values == cs.map_values(|c: crate::eventman::ChannelType| channel_value(c)),
            ex == explicit_channel_values(cs),
            explicit@.len() == cs.len(),
            forall|j: int| 0 <= j < cs.len() ==> (match #[trigger] explicit@[j] {
                Some(v) => channel_value(cs[j]) == Some(v as nat),
                None => channel_value(cs[j]) is None,
            }),
            forall|v: u16| v <= 255 ==> (exists|j: int|
                0 <= j < explicit@.len() && explicit@[j] == Some(v as u8)) == ex.contains(v as nat),
            16 <= lower <= 256,
            ghost_ids.len() == k,
            ids@.len() == k,
            forall|j: int| 0 <= j < k ==> ghost_ids[j] == (#[trigger] ids@[j]) as nat,
            forall|j: int| 0 <= j < k ==> #[trigger] map@[j] == (channel_key(cs[j]), ids@[j]),
            map@.len() == k,
            channel_ids(values, ex, 16) == prepend_ids(ghost_ids, channel_ids(values.skip(k as int), ex, lower as nat)),
        decreases cs.len() - k,
    {
        let c = &list.channel[k];
        assert(values.skip(k as int).drop_first() =~= values.skip(k + 1));
        assert(values.skip(k as int)[0] == channel_value(cs[k as int]));
        let value: u8 = match explicit[k] {
            Some(v) => {
                proof {
                    assert(ghost_ids + seq![v as nat] + channel_ids(values.skip(k + 1), ex, lower as nat).unwrap_or(seq![])
                        =~= ghost_ids + (seq![v as nat] + channel_ids(values.skip(k + 1), ex, lower as nat).unwrap_or(seq![])));
                    ghost_ids = ghost_ids.push(v as nat);
                }
                v
            },
            None => {
                let mut v: u16 = lower;
                while v <= 255 && explicit_contains(&explicit, v)
                    invariant
                        lower <= v <= 256,
                        first_free_channel(ex, lower as nat) == first_free_channel(ex, v as nat),
                        forall|w: u16| w <= 255 ==> (exists|j: int|
                            0 <= j < explicit@.len() && explicit@[j] == Some(w as u8)) == ex.contains(w as nat),
                    decreases 256 - v,
                {
                    v = v + 1;
                }
                if v > 255 {
                    assert(first_free_channel(ex, v as nat) is None);
                    assert(channel_ids(values.skip(k as int), ex, lower as nat) is None);
                    assert(channels_of(*prov) == cs);
                    let e = ManifestError::from_text("too many channels to auto-assign ids");
                    proof {
                        assert(forall|j: int| 0 <= j < cs.len() ==> channel_value_fits(#[trigger] channels_of(*prov)[j]));
                    }
                    return Err(e);
                }
                proof {
                    assert(first_free_channel(ex, v as nat) == Some(v as nat));
                    assert(ghost_ids + seq![v as nat] + channel_ids(values.skip(k + 1), ex, (v + 1) as nat).unwrap_or(seq![])
                        =~= ghost_ids + (seq![v as nat] + channel_ids(values.skip(k + 1), ex, (v + 1) as nat).unwrap_or(seq![])));
                    ghost_ids = ghost_ids.push(v as nat);
                }
                lower = v + 1;
                v as u8
            },
        };
        ids.push(value);
        let key = match &c.chid {
            Some(id) => id.clone(),
            None => c.name.clone(),
        };
        map.insert(key, value);
        k = k + 1;
    }
    assert(values.skip(k as int) =~= Seq::<Option<nat>>::empty());
    assert(ghost_ids + seq![] =~= ghost_ids);
    Ok(map)
}


/// A character in ASCII lower case; other characters are unchanged.
pub open spec fn ascii_lower(c: char) -> char {
    if 'A' <= c <= 'Z' {
        (((c as u8) + 32) as u8) as char
    } else {
        c
    }
}

fn to_ascii_lower(c: char) -> (l: char)
    ensures
        l == ascii_lower(c),
{
    if 'A' <= c && c <= 'Z' {
        assert((c as u8) + 32 < 256) by {
            assert(c as u32 <= 'Z' as u32);
        }
        ((c as u8) + 32) as char
    } else {
        c
    }
}

/// Whether a culture name is `en-US`, ignoring ASCII case.
pub open spec fn is_en_us(c: Seq<char>) -> bool {
    c.len() == 5 && ascii_lower(c[0]) == 'e' && ascii_lower(c[1]) == 'n' && c[2] == '-'
        && ascii_lower(c[3]) == 'u' && ascii_lower(c[4]) == 's'
}

/// Whether a culture name starts with `en`, ignoring ASCII case.
pub open spec fn is_english(c: Seq<char>) -> bool {
    c.len() >= 2 && ascii_lower(c[0]) == 'e' && ascii_lower(c[1]) == 'n'
}

/// Whether a culture name is the kind searched for: `en-*` when `english`, `en-US` otherwise.
pub open spec fn culture_matches(c: Seq<char>, english: bool) -> bool {
    if english { is_english(c) } else { is_en_us(c) }
}

/// Whether resources block `i` is the first whose culture is of the kind searched for.
pub open spec fn is_first_culture(rs: Seq<crate::eventman::ResourcesType>, i: int, english: bool) -> bool {
    &&& 0 <= i < rs.len()
    &&& culture_matches(rs[i].culture@, english)
    &&& forall|j: int| 0 <= j < i ==> !culture_matches(#[trigger] rs[j].culture@, english)
}

/// The resources block whose strings resolve messages: the first `en-US` block, otherwise
/// the first English (`en-*`) block, otherwise the first block declared.
pub open spec fn chosen_resources(rs: Seq<crate::eventman::ResourcesType>) -> Option<int> {
    if exists|i: int| #[trigger] is_first_culture(rs, i, false) {
        Some(choose|i: int| #[trigger] is_first_culture(rs, i, false))
    } else if exists|i: int| #[trigger] is_first_culture(rs, i, true) {
        Some(choose|i: int| #[trigger] is_first_culture(rs, i, true))
    } else if rs.len() > 0 {
        Some(0)
    } else {
        None
    }
}

/// The strings of a resources block.
pub open spec fn strings_of(r: crate::eventman::ResourcesType) -> Seq<crate::eventman::StringType> {
    match r.string_table {
        Some(t) => t.string@,
        None => seq![],
    }
}

/// The message table of a manifest's localization: the chosen block's strings by id.
pub open spec fn message_table_of(loc: Option<LocalizationType>) -> Seq<(Seq<char>, String)> {
    match loc {
        None => seq![],
        Some(l) => match chosen_resources(l.resources@) {
            None => seq![],
            Some(i) => strings_of(l.resources@[i]).map_values(
                |s: crate::eventman::StringType| (s.id@, s.value),
            ),
        },
    }
}

fn find_culture(rs: &Vec<crate::eventman::ResourcesType>, english: bool) -> (r: Option<usize>)
    ensures
        r matches Some(i) ==> is_first_culture(rs@, i as int, english),
        r is None ==> !exists|i: int| #[trigger] is_first_culture(rs@, i, english),
{
    let mut i: usize = 0;
    while i < rs.len()
        invariant
            i <= rs@.len(),
            forall|j: int| 0 <= j < i ==> !culture_matches(#[trigger] rs@[j].culture@, english),
        decreases rs.len() - i,
    {
        let c = chars_of(rs[i].culture.as_str());
        let hit = if english {
            c.len() >= 2 && to_ascii_lower(c[0]) == 'e' && to_ascii_lower(c[1]) == 'n'
        } else {
            c.len() == 5 && to_ascii_lower(c[0]) == 'e' && to_ascii_lower(c[1]) == 'n' && c[2] == '-'
                && to_ascii_lower(c[3]) == 'u' && to_ascii_lower(c[4]) == 's'
        };
        if hit {
            return Some(i);
        }
        i = i + 1;
    }
    proof {
        assert forall|k: int| !#[trigger] is_first_culture(rs@, k, english) by {
            if 0 <= k < rs@.len() {
                assert(!culture_matches(rs@[k].culture@, english));
            }
        }
    }
    None
}

/// Builds the ID-to-value message table from a manifest's localized string tables, choosing a
/// single culture: `en-US` if present, otherwise any English (`en-*`) culture, otherwise the
/// first `<resources>` block declared.
pub fn build_message_table(loc: Option<&LocalizationType>) -> (t: NameTable<String>)
    ensures
        t@ == message_table_of(match loc { Some(l) => Some(*l), None => None }),
{
    let mut map: NameTable<String> = NameTable::new();
    let loc = match loc {
        Some(l) => l,
        None => {
            return map;
        },
    };
    let rs = &loc.resources;
    let chosen = match find_culture(rs, false) {
        Some(i) => Some(i),
        None => match find_culture(rs, true) {
            Some(i) => Some(i),
            None => if rs.len() > 0 {
                Some(0)
            } else {
                None
            },
        },
    };
    proof {
        assert forall|a: int, b: int, e: bool|
            #[trigger] is_first_culture(rs@, a, e) && #[trigger] is_first_culture(rs@, b, e) implies a == b by {
            if a < b {
                assert(!culture_matches(rs@[a].culture@, e));
            } else if b < a {
                assert(!culture_matches(rs@[b].culture@, e));
            }
        }
    }
    assert(chosen == match chosen_resources(rs@) {
        Some(i) => Some(i as usize),
        None => None::<usize>,
    });
    match chosen {
        None => {},
        Some(i) => {
            if let Some(table) = &rs[i].string_table {
                let mut k: usize = 0;
                while k < table.string.len()
                    invariant
                        k <= table.string@.len(),
                        map@ =~= table.string@.take(k as int).map_values(
                            |s: crate::eventman::StringType| (s.id@, s.value),
                        ),
                    decreases table.string.len() - k,
                {
                    let st = &table.string[k];
                    map.insert(st.id.clone(), st.value.clone());
                    k = k + 1;
                }
                assert(table.string@.take(k as int) =~= table.string@);
            } else {
                assert(map@ =~= Seq::<(Seq<char>, String)>::empty());
            }
        },
    }
    map
}


/// Whether a `message` attribute is a `$(string.ID)` reference.
pub open spec fn is_string_ref(r: Seq<char>) -> bool {
    r.len() >= 10 && r.take(9) == "$(string."@ && r.last() == ')'
}

/// The `ID` of a `$(string.ID)` reference.
pub open spec fn string_ref_id(r: Seq<char>) -> Seq<char> {
    r.subrange(9, r.len() - 1)
}

/// The display string of an event's `message` attribute: a `$(string.ID)` reference is looked
/// up in the message table (an unresolved one gives `None`), any other value is the message
/// itself.
pub open spec fn message_of(raw: Option<String>, strings: Seq<(Seq<char>, String)>) -> Option<String> {
    match raw {
        None => None,
        Some(r) => if is_string_ref(r@) {
            table_get(strings, string_ref_id(r@))
        } else {
            Some(r)
        },
    }
}

/// Resolves an event's `message` attribute to its display string. A `$(string.ID)` reference
/// is looked up in `strings` (unresolved references yield `None`); any other value is treated
/// as a literal message.
pub fn resolve_message(raw: Option<&String>, strings: &NameTable<String>) -> (m: Option<String>)
    ensures
        m == message_of(match raw { Some(r) => Some(*r), None => None }, strings@),
{
    let raw = match raw {
        Some(r) => r,
        None => {
            return None;
        },
    };
    let cs = chars_of(raw.as_str());
    let prefix = chars_of("$(string.");
    proof {
        reveal_strlit("$(string.");
    }
    let is_ref = cs.len() >= 10 && cs[cs.len() - 1] == ')' && has_prefix(cs.as_slice(), prefix.as_slice());
    if is_ref {
        let mut id: Vec<char> = Vec::new();
        let mut k: usize = 9;
        while k < cs.len() - 1
            invariant
                9 <= k <= cs@.len() - 1,
                id@ =~= cs@.subrange(9, k as int),
            decreases cs.len() - 1 - k,
        {
            id.push(cs[k]);
            k = k + 1;
        }
        let id = string_of(id.as_slice());
        match strings.find(id.as_str()) {
            Some(i) => Some(strings.value_at(i).clone()),
            None => None,
        }
    } else {
        Some(raw.clone())
    }
}

/// The white-space separated words of `s` after the word in progress `cur`, as
/// `str::split_whitespace` gives them.
pub open spec fn words_from(s: Seq<char>, cur: Seq<char>) -> Seq<Seq<char>>
    decreases s.len(),
{
    let done = if cur.len() > 0 { seq![cur] } else { seq![] };
    if s.len() == 0 {
        done
    } else if crate::text::is_white_space(s[0]) {
        done + words_from(s.drop_first(), seq![])
    } else {
        words_from(s.drop_first(), cur.push(s[0]))
    }
}

/// The white-space separated words of `s`.
pub open spec fn words(s: Seq<char>) -> Seq<Seq<char>> {
    words_from(s, seq![])
}

/// The bitwise OR of the keyword masks that `ws` name, `None` if one is undefined.
pub open spec fn keyword_mask(ws: Seq<Seq<char>>, keywords: Seq<(Seq<char>, u64)>) -> Option<u64>
    decreases ws.len(),
{
    if ws.len() == 0 {
        Some(0)
    } else {
        match (keyword_mask(ws.drop_last(), keywords), table_get(keywords, ws.last())) {
            (Some(m), Some(k)) => Some(m | k),
            _ => None,
        }
    }
}

proof fn lemma_keyword_mask_none(a: Seq<Seq<char>>, b: Seq<Seq<char>>, keywords: Seq<(Seq<char>, u64)>)
    requires
        keyword_mask(a, keywords) is None,
    ensures
        keyword_mask(a + b, keywords) is None,
    decreases b.len(),
{
    if b.len() == 0 {
        assert(a + b =~= a);
    } else {
        lemma_keyword_mask_none(a, b.drop_last(), keywords);
        assert((a + b).drop_last() =~= a + b.drop_last());
    }
}

/// Whether `cs` starts with the characters of `p`.
pub fn has_prefix(cs: &[char], p: &[char]) -> (b: bool)
    ensures
        b == (p@.len() <= cs@.len() && cs@.take(p@.len() as int) == p@),
{
    if p.len() > cs.len() {
        return false;
    }
    let mut i: usize = 0;
    while i < p.len()
        invariant
            i <= p@.len() <= cs@.len(),
            forall|j: int| 0 <= j < i ==> cs@[j] == p@[j],
        decreases p.len() - i,
    {
        if cs[i] != p[i] {
            assert(cs@.take(p@.len() as int)[i as int] != p@[i as int]);
            return false;
        }
        i = i + 1;
    }
    assert(cs@.take(p@.len() as int) =~= p@);
    true
}

/// Combines the keywords that an event's space-separated `keyword` list names.
fn keyword_list_mask(list: &String, keywords: &NameTable<u64>) -> (res: Option<u64>)
    ensures
        res == keyword_mask(words(list@), keywords@),
{
    let cs = chars_of(list.as_str());
    let ghost all = cs@;
    let mut cur: Vec<char> = Vec::new();
    let mut mask: u64 = 0;
    let ghost mut done: Seq<Seq<char>> = seq![];
    let mut i: usize = 0;
    assert(all.skip(0) =~= all);
    while i < cs.len()
        invariant
            i <= cs@.len(),
            all == cs@,
            all == list@,
            words(all) == done + words_from(all.skip(i as int), cur@),
            keyword_mask(done, keywords@) == Some(mask),
        decreases cs.len() - i,
    {
        assert(all.skip(i as int).drop_first() =~= all.skip(i + 1));
        assert(all.skip(i as int)[0] == cs@[i as int]);
        if crate::text::white_space(cs[i]) {
            if cur.len() > 0 {
                let word = string_of(cur.as_slice());
                let rest = Ghost(words_from(all.skip(i + 1), seq![]));
                assert(words_from(all.skip(i as int), cur@) == seq![cur@] + rest@);
                assert(done + (seq![cur@] + rest@) =~= done.push(cur@) + rest@);
                assert((done.push(cur@)).drop_last() =~= done);
                match keywords.get(word.as_str()) {
                    Some(k) => {
                        mask = mask | k;
                        proof {
                            done = done.push(cur@);
                        }
                    },
                    None => {
                        proof {
                            lemma_keyword_mask_none(done.push(cur@), rest@, keywords@);
                        }
                        return None;
                    },
                }
                cur = Vec::new();
                assert(cur@ =~= Seq::<char>::empty());
            } else {
                assert(cur@ =~= Seq::<char>::empty());
                assert(words_from(all.skip(i as int), cur@) == Seq::<Seq<char>>::empty() + words_from(all.skip(i + 1), seq![]));
                assert(Seq::<Seq<char>>::empty() + words_from(all.skip(i + 1), seq![])
                    =~= words_from(all.skip(i + 1), seq![]));
            }
        } else {
            let ghost before = cur@;
            cur.push(cs[i]);
            assert(words_from(all.skip(i as int), before) == words_from(all.skip(i + 1), cur@));
        }
        i = i + 1;
    }
    assert(all.skip(i as int) =~= Seq::<char>::empty());
    if cur.len() > 0 {
        let word = string_of(cur.as_slice());
        assert(done + seq![cur@] =~= done.push(cur@));
        assert((done.push(cur@)).drop_last() =~= done);
        match keywords.get(word.as_str()) {
            Some(k) => Some(mask | k),
            None => None,
        }
    } else {
        assert(done + Seq::<Seq<char>>::empty() =~= done);
        Some(mask)
    }
}


/// The position of the last entry named `key`, `None` if there is none.
pub open spec fn last_index_of<T>(t: Seq<(Seq<char>, T)>, key: Seq<char>) -> Option<int>
    decreases t.len(),
{
    if t.len() == 0 {
        None
    } else if t.last().0 == key {
        Some(t.len() - 1)
    } else {
        last_index_of(t.drop_last(), key)
    }
}

/// A lookup finds the value of the entry at the last position with the name.
pub proof fn lemma_table_get_last_index<T>(t: Seq<(Seq<char>, T)>, key: Seq<char>)
    ensures
        table_get(t, key) == (match last_index_of(t, key) {
            Some(i) => Some(t[i].1),
            None => None,
        }),
        last_index_of(t, key) matches Some(i) ==> 0 <= i < t.len() && t[i].0 == key,
    decreases t.len(),
{
    if t.len() > 0 && t.last().0 != key {
        lemma_table_get_last_index(t.drop_last(), key);
    }
}

/// Two tables with the same names in the same order find a name at the same position.
pub proof fn lemma_last_index_same_keys<A, B>(a: Seq<(Seq<char>, A)>, b: Seq<(Seq<char>, B)>, key: Seq<char>)
    requires
        a.len() == b.len(),
        forall|i: int| 0 <= i < a.len() ==> (#[trigger] a[i]).0 == b[i].0,
    ensures
        last_index_of(a, key) == last_index_of(b, key),
    decreases a.len(),
{
    if a.len() > 0 {
        assert(a.last().0 == b.last().0);
        lemma_last_index_same_keys(a.drop_last(), b.drop_last(), key);
    }
}

/// The value that an optional named reference gives: `dflt` when the attribute is absent, the
/// named entry when it is present, `None` when the name is undefined.
pub open spec fn lookup_ref<T>(t: Seq<(Seq<char>, T)>, name: Option<String>, dflt: T) -> Option<T> {
    match name {
        None => Some(dflt),
        Some(n) => table_get(t, n@),
    }
}

/// The name-keyed lookup tables of one provider.
pub struct ProviderLookupTables {
    /// Levels by name.
    pub levels: NameTable<u8>,
    /// Keyword masks by name.
    pub keywords: NameTable<u64>,
    /// Opcodes by name.
    pub opcodes: NameTable<u8>,
    /// Tasks by name.
    pub tasks: NameTable<u16>,
    /// Channels by `chid` or name.
    pub channels: NameTable<u8>,
    /// Resolved template fields by template id.
    pub templates: NameTable<Vec<TypeInfo>>,
}

/// The views of a provider's name-keyed tables, without the templates.
pub struct LookupViews {
    pub levels: Seq<(Seq<char>, u8)>,
    pub keywords: Seq<(Seq<char>, u64)>,
    pub opcodes: Seq<(Seq<char>, u8)>,
    pub tasks: Seq<(Seq<char>, u16)>,
    pub channels: Seq<(Seq<char>, u8)>,
}

impl ProviderLookupTables {
    /// The views of the tables other than the templates.
    pub closed spec fn views(&self) -> LookupViews {
        LookupViews {
            levels: self.levels@,
            keywords: self.keywords@,
            opcodes: self.opcodes@,
            tasks: self.tasks@,
            channels: self.channels@,
        }
    }
}

/// The keyword mask that an event's `keyword` attribute gives.
pub open spec fn event_keyword(ev: EventDefinitionType, keywords: Seq<(Seq<char>, u64)>) -> Option<u64> {
    match ev.keyword {
        Some(k) => keyword_mask(words(k@), keywords),
        None => Some(0),
    }
}

/// Whether an event definition resolves against the tables: its value is a `u16`, its version
/// (if any) a `u8`, and every level, opcode, task, channel, keyword and template it names is
/// defined.
pub open spec fn event_accepted(ev: EventDefinitionType, lk: LookupViews, templates: Seq<Seq<char>>) -> bool {
    &&& int_fits(ev.value@, 0xffff)
    &&& (ev.version matches Some(v) ==> int_fits(v@, 0xff))
    &&& lookup_ref(lk.levels, ev.level, 0u8) is Some
    &&& lookup_ref(lk.opcodes, ev.opcode, 0u8) is Some
    &&& lookup_ref(lk.tasks, ev.task, 0u16) is Some
    &&& lookup_ref(lk.channels, ev.channel, 0u8) is Some
    &&& event_keyword(ev, lk.keywords) is Some
    &&& (ev.template matches Some(t) ==> templates.contains(t@))
}

/// The symbol of an event: its `symbol` attribute, or `Event<id>`.
pub open spec fn event_symbol(ev: EventDefinitionType, id: u16) -> Seq<char> {
    match ev.symbol {
        Some(s) => s@,
        None => "Event"@ + crate::numbers::decimal_text(id as nat),
    }
}

/// Whether `e` holds the descriptor fields, symbol and message that the accepted event
/// definition `ev` resolves to (the template fields are stated separately).
pub open spec fn is_event_header_of(e: Event, ev: EventDefinitionType, lk: LookupViews, strings: Seq<(Seq<char>, String)>) -> bool {
    &&& e.id == int_value(ev.value@)
    &&& e.symbol@ == event_symbol(ev, e.id)
    &&& e.version == (match ev.version {
        Some(v) => int_value(v@) as u8,
        None => 0u8,
    })
    &&& Some(e.level) == lookup_ref(lk.levels, ev.level, 0u8)
    &&& Some(e.opcode) == lookup_ref(lk.opcodes, ev.opcode, 0u8)
    &&& Some(e.task) == lookup_ref(lk.tasks, ev.task, 0u16)
    &&& Some(e.channel) == lookup_ref(lk.channels, ev.channel, 0u8)
    &&& Some(e.keyword) == event_keyword(ev, lk.keywords)
    &&& e.message == message_of(ev.message, strings)
}

/// The message for an event `symbol` whose `what` attribute names `name`, which is not
/// defined.
pub open spec fn undefined_message(symbol: Seq<char>, what: Seq<char>, name: Seq<char>) -> Seq<char> {
    "event "@ + symbol + " references undefined "@ + what + " "@ + debug_quoted(name)
}

/// The message for an event definition that does not resolve, by the first check it fails:
/// its value, its version, then its level, opcode, task, channel, keywords and template.
pub open spec fn event_error(ev: EventDefinitionType, lk: LookupViews, templates: Seq<Seq<char>>) -> Seq<char> {
    if !int_fits(ev.value@, 0xffff) {
        "event value "@ + debug_quoted(ev.value@) + " is not a u16: "@ + int_error_text(ev.value@, 0xffff)
    } else {
        let symbol = event_symbol(ev, int_value(ev.value@) as u16);
        if ev.version is Some && !int_fits(ev.version->Some_0@, 0xff) {
            "event "@ + symbol + " version "@ + debug_quoted(ev.version->Some_0@) + " is not a u8: "@
                + int_error_text(ev.version->Some_0@, 0xff)
        } else if lookup_ref(lk.levels, ev.level, 0u8) is None {
            undefined_message(symbol, "level"@, ev.level->Some_0@)
        } else if lookup_ref(lk.opcodes, ev.opcode, 0u8) is None {
            undefined_message(symbol, "opcode"@, ev.opcode->Some_0@)
        } else if lookup_ref(lk.tasks, ev.task, 0u16) is None {
            undefined_message(symbol, "task"@, ev.task->Some_0@)
        } else if lookup_ref(lk.channels, ev.channel, 0u8) is None {
            undefined_message(symbol, "channel"@, ev.channel->Some_0@)
        } else if event_keyword(ev, lk.keywords) is None {
            "event "@ + symbol + " references an undefined keyword in "@ + debug_quoted(ev.keyword->Some_0@)
        } else {
            undefined_message(symbol, "template"@, ev.template->Some_0@)
        }
    }
}

/// Looks up an event attribute's named reference (`what` describes it in errors), defaulting
/// to `dflt` when the attribute is absent.
pub fn lookup_or_default<T: Copy>(
    map: &NameTable<T>,
    name: &Option<String>,
    dflt: T,
    what: &str,
    symbol: &String,
) -> (res: Result<T, ManifestError>)
    ensures
        res is Ok <==> lookup_ref(map@, *name, dflt) is Some,
        res matches Ok(v) ==> lookup_ref(map@, *name, dflt) == Some(v),
        res matches Err(e) ==> e.spec_message() == undefined_message(symbol@, what@, name->Some_0@),
{
    match name {
        Some(n) => match map.get(n.as_str()) {
            Some(v) => Ok(v),
            None => {
                let mut m = String::from_str("event ");
                push_str(&mut m, symbol.as_str());
                push_str(&mut m, " references undefined ");
                push_str(&mut m, what);
                push_str(&mut m, " ");
                push_str(&mut m, debug_quote(n.as_str()).as_str());
                proof {
                    assert(m@ =~= undefined_message(symbol@, what@, n@));
                }
                Err(ManifestError::new(m))
            },
        },
        None => Ok(dflt),
    }
}

fn undefined_error(symbol: &String, what: &str, name: &String) -> (e: ManifestError)
    ensures
        e.spec_message() == undefined_message(symbol@, what@, name@),
{
    let mut m = String::from_str("event ");
    push_str(&mut m, symbol.as_str());
    push_str(&mut m, " references undefined ");
    push_str(&mut m, what);
    push_str(&mut m, " ");
    push_str(&mut m, debug_quote(name.as_str()).as_str());
    proof {
        assert(m@ =~= undefined_message(symbol@, what@, name@));
    }
    ManifestError::new(m)
}

/// Resolves one event definition against its provider's tables and the message table.
pub fn resolve_event(ev: &EventDefinitionType, lookups: &ProviderLookupTables, strings: &NameTable<String>) -> (res: Result<Event, ManifestError>)
    ensures
        res is Ok <==> event_accepted(*ev, lookups.views(), lookups.templates@.map_values(|e: (Seq<char>, Vec<TypeInfo>)| e.0)),
        res matches Ok(e) ==> is_event_header_of(e, *ev, lookups.views(), strings@) && (match ev.template {
            Some(t) => last_index_of(lookups.templates@, t@) matches Some(i) && e.params@ == lookups.templates@[i].1@,
            None => e.params@.len() == 0,
        }),
        res matches Err(e) ==> e.spec_message() == event_error(
            *ev,
            lookups.views(),
            lookups.templates@.map_values(|e: (Seq<char>, Vec<TypeInfo>)| e.0),
        ),
{
    let ghost lk = lookups.views();
    assert(lk.levels == lookups.levels@);
    let id: u16 = match parse_int(ev.value.as_str(), 0xffff) {
        Ok(v) => v as u16,
        Err(e) => {
            assert(e == IntError::Invalid || e == IntError::OutOfRange);
            assert(!int_fits(ev.value@, 0xffff));
            let mut m = String::from_str("event value ");
            push_str(&mut m, debug_quote(ev.value.as_str()).as_str());
            push_str(&mut m, " is not a u16: ");
            let why = describe_int_error(ev.value.as_str(), 0xffff);
            push_str(&mut m, why.as_str());
            proof {
                assert(m@ =~= "event value "@ + debug_quoted(ev.value@) + " is not a u16: "@ + int_error_text(ev.value@, 0xffff));
            }
            return Err(ManifestError::new(m));
        },
    };
    let symbol = match &ev.symbol {
        Some(s) => s.clone(),
        None => {
            let mut s = String::from_str("Event");
            crate::numbers::push_decimal(&mut s, id as u64);
            s
        },
    };
    let version: u8 = match &ev.version {
        Some(v) => match parse_int(v.as_str(), 0xff) {
            Ok(n) => n as u8,
            Err(e) => {
                assert(e == IntError::Invalid || e == IntError::OutOfRange);
                assert(!int_fits(v@, 0xff));
                let mut m = String::from_str("event ");
                push_str(&mut m, symbol.as_str());
                push_str(&mut m, " version ");
                push_str(&mut m, debug_quote(v.as_str()).as_str());
                push_str(&mut m, " is not a u8: ");
                let why = describe_int_error(v.as_str(), 0xff);
                push_str(&mut m, why.as_str());
                proof {
                    assert(m@ =~= "event "@ + symbol@ + " version "@ + debug_quoted(v@) + " is not a u8: "@ + int_error_text(v@, 0xff));
                }
                return Err(ManifestError::new(m));
            },
        },
        None => 0,
    };
    assert(symbol@ == event_symbol(*ev, int_value(ev.value@) as u16));
    let level = match lookup_or_default(&lookups.levels, &ev.level, 0u8, "level", &symbol) {
        Ok(v) => v,
        Err(e) => {
            return Err(e);
        },
    };
    let opcode = match lookup_or_default(&lookups.opcodes, &ev.opcode, 0u8, "opcode", &symbol) {
        Ok(v) => v,
        Err(e) => {
            return Err(e);
        },
    };
    let task = match lookup_or_default(&lookups.tasks, &ev.task, 0u16, "task", &symbol) {
        Ok(v) => v,
        Err(e) => {
            return Err(e);
        },
    };
    let channel = match lookup_or_default(&lookups.channels, &ev.channel, 0u8, "channel", &symbol) {
        Ok(v) => v,
        Err(e) => {
            return Err(e);
        },
    };
    let keyword: u64 = match &ev.keyword {
        Some(list) => match keyword_list_mask(list, &lookups.keywords) {
            Some(k) => k,
            None => {
                let mut m = String::from_str("event ");
                push_str(&mut m, symbol.as_str());
                push_str(&mut m, " references an undefined keyword in ");
                push_str(&mut m, debug_quote(list.as_str()).as_str());
                proof {
                    assert(m@ =~= "event "@ + symbol@ + " references an undefined keyword in "@ + debug_quoted(list@));
                }
                return Err(ManifestError::new(m));
            },
        },
        None => 0,
    };
    let ghost tids = lookups.templates@.map_values(|e: (Seq<char>, Vec<TypeInfo>)| e.0);
    let params = match &ev.template {
        Some(tid) => match lookups.templates.find(tid.as_str()) {
            Some(i) => {
                proof {
                    lemma_table_get_last_index(lookups.templates@, tid@);
                    assert(tids[i as int] == tid@);
                }
                copy_type_infos(lookups.templates.value_at(i))
            },
            None => {
                proof {
                    lemma_table_get_last_index(lookups.templates@, tid@);
                    if tids.contains(tid@) {
                        let j = choose|j: int| 0 <= j < tids.len() && tids[j] == tid@;
                        lemma_last_index_exists(lookups.templates@, tid@, j);
                    }
                }
                return Err(undefined_error(&symbol, "template", tid));
            },
        },
        None => Vec::new(),
    };
    let message = resolve_message(ev.message.as_ref(), strings);
    Ok(Event { symbol, id, version, level, opcode, task, keyword, channel, params, message })
}

proof fn lemma_last_index_exists<T>(t: Seq<(Seq<char>, T)>, key: Seq<char>, j: int)
    requires
        0 <= j < t.len(),
        t[j].0 == key,
    ensures
        last_index_of(t, key) is Some,
    decreases t.len(),
{
    if t.last().0 != key {
        lemma_last_index_exists(t.drop_last(), key, j);
    }
}


/// A provider's level table: the built-in levels, then the declared ones.
pub open spec fn levels_table(p: ProviderType) -> Seq<(Seq<char>, u8)> {
    builtin_levels() + levels_of(p).map_values(|l: crate::eventman::LevelType| (l.name@, int_value(l.value@) as u8))
}

/// A provider's keyword table.
pub open spec fn keywords_table(p: ProviderType) -> Seq<(Seq<char>, u64)> {
    keywords_of(p).map_values(|l: crate::eventman::KeywordType| (l.name@, int_value(l.mask@) as u64))
}

/// A provider's opcode table: the built-in opcodes, then the declared ones.
pub open spec fn opcodes_table(p: ProviderType) -> Seq<(Seq<char>, u8)> {
    builtin_opcodes() + opcodes_of(p).map_values(|l: crate::eventman::OpcodeType| (l.name@, int_value(l.value@) as u8))
}

/// A provider's task table.
pub open spec fn tasks_table(p: ProviderType) -> Seq<(Seq<char>, u16)> {
    tasks_of(p).map_values(|l: crate::eventman::TaskType| (l.name@, int_value(l.value@) as u16))
}

/// A provider's channel table: each channel's key with its id.
pub open spec fn channels_table(p: ProviderType) -> Seq<(Seq<char>, u8)> {
    Seq::new(channels_of(p).len(), |i: int| (channel_key(channels_of(p)[i]),
        provider_channel_ids(channels_of(p))->Some_0[i] as u8))
}

/// A provider's templates by id.
pub open spec fn templates_table(p: ProviderType) -> Seq<(Seq<char>, crate::eventman::TemplateType)> {
    templates_of(p).map_values(|t: crate::eventman::TemplateType| (t.tid@, t))
}

/// The views of a provider's lookup tables.
pub open spec fn provider_views(p: ProviderType) -> LookupViews {
    LookupViews {
        levels: levels_table(p),
        keywords: keywords_table(p),
        opcodes: opcodes_table(p),
        tasks: tasks_table(p),
        channels: channels_table(p),
    }
}

/// A provider's event definitions.
pub open spec fn events_of(p: ProviderType) -> Seq<EventDefinitionType> {
    match p.events {
        Some(l) => l.event@,
        None => seq![],
    }
}

/// Whether all of a provider's tables resolve: every declared level, keyword, opcode, task
/// and channel value fits its type, channel ids do not run out, and every template resolves.
pub open spec fn tables_accepted(p: ProviderType) -> bool {
    &&& forall|i: int| 0 <= i < levels_of(p).len() ==> int_fits((#[trigger] levels_of(p)[i]).value@, 0xff)
    &&& forall|i: int| 0 <= i < keywords_of(p).len() ==> int_fits((#[trigger] keywords_of(p)[i]).mask@, 0xffff_ffff_ffff_ffff)
    &&& forall|i: int| 0 <= i < opcodes_of(p).len() ==> int_fits((#[trigger] opcodes_of(p)[i]).value@, 0xff)
    &&& forall|i: int| 0 <= i < tasks_of(p).len() ==> int_fits((#[trigger] tasks_of(p)[i]).value@, 0xffff)
    &&& forall|i: int| 0 <= i < channels_of(p).len() ==> channel_value_fits(#[trigger] channels_of(p)[i])
    &&& provider_channel_ids(channels_of(p)) is Some
    &&& forall|i: int| 0 <= i < templates_of(p).len() ==> template_accepted(#[trigger] templates_of(p)[i])
}

/// Whether a provider resolves: a valid GUID, resolving tables, and resolving events.
pub open spec fn provider_accepted(p: ProviderType) -> bool {
    &&& crate::numbers::manifest_guid(p.guid@) is Some
    &&& tables_accepted(p)
    &&& forall|i: int| 0 <= i < events_of(p).len() ==> event_accepted(
        #[trigger] events_of(p)[i],
        provider_views(p),
        templates_table(p).map_values(|e: (Seq<char>, crate::eventman::TemplateType)| e.0),
    )
}

/// Whether `e` is the resolved form of the accepted event definition `ev` of provider `p`.
pub open spec fn is_event_of(e: Event, ev: EventDefinitionType, p: ProviderType, strings: Seq<(Seq<char>, String)>) -> bool {
    &&& is_event_header_of(e, ev, provider_views(p), strings)
    &&& match ev.template {
        Some(t) => table_get(templates_table(p), t@) matches Some(tt) && is_template_types_of(e.params, tt),
        None => e.params@.len() == 0,
    }
}

/// Whether `r` is the resolved form of the accepted provider `p`.
pub open spec fn is_provider_of(r: Provider, p: ProviderType, strings: Seq<(Seq<char>, String)>) -> bool {
    &&& r.symbol == p.symbol
    &&& crate::numbers::manifest_guid(p.guid@) == Some(r.guid as nat)
    &&& r.events@.len() == events_of(p).len()
    &&& forall|i: int| 0 <= i < events_of(p).len() ==> is_event_of(#[trigger] r.events@[i], events_of(p)[i], p, strings)
}

/// Whether event `i` is the first of the provider's events that does not resolve.
pub open spec fn first_rejected_event(p: ProviderType, i: int) -> bool {
    let tids = templates_table(p).map_values(|e: (Seq<char>, crate::eventman::TemplateType)| e.0);
    &&& 0 <= i < events_of(p).len()
    &&& !event_accepted(events_of(p)[i], provider_views(p), tids)
    &&& forall|j: int| 0 <= j < i ==> event_accepted(#[trigger] events_of(p)[j], provider_views(p), tids)
}

/// The message for a provider whose GUID does not parse: it does not hold 32 hexadecimal
/// digits.
pub open spec fn guid_message(p: ProviderType) -> Seq<char> {
    "provider "@ + p.name@ + " has an invalid guid "@ + debug_quoted(p.guid@) + ": expected 32 hex digits, found "@
        + crate::numbers::decimal_text(crate::numbers::hex_digits_of(p.guid@).len())
}

/// Whether every declared level value is a `u8`.
pub open spec fn levels_fit(p: ProviderType) -> bool {
    forall|i: int| 0 <= i < levels_of(p).len() ==> int_fits((#[trigger] levels_of(p)[i]).value@, 0xff)
}

/// Whether every declared keyword mask is a `u64`.
pub open spec fn keywords_fit(p: ProviderType) -> bool {
    forall|i: int| 0 <= i < keywords_of(p).len() ==> int_fits(
        (#[trigger] keywords_of(p)[i]).mask@,
        0xffff_ffff_ffff_ffff,
    )
}

/// Whether every declared opcode value is a `u8`.
pub open spec fn opcodes_fit(p: ProviderType) -> bool {
    forall|i: int| 0 <= i < opcodes_of(p).len() ==> int_fits((#[trigger] opcodes_of(p)[i]).value@, 0xff)
}

/// Whether every declared task value is a `u16`.
pub open spec fn tasks_fit(p: ProviderType) -> bool {
    forall|i: int| 0 <= i < tasks_of(p).len() ==> int_fits((#[trigger] tasks_of(p)[i]).value@, 0xffff)
}

/// Whether the provider's channels resolve: explicit values are `u8`s and the ids do not run
/// out.
pub open spec fn channels_resolve(p: ProviderType) -> bool {
    &&& forall|i: int| 0 <= i < channels_of(p).len() ==> channel_value_fits(#[trigger] channels_of(p)[i])
    &&& provider_channel_ids(channels_of(p)) is Some
}

/// Whether every template of the provider resolves.
pub open spec fn templates_resolve(p: ProviderType) -> bool {
    forall|i: int| 0 <= i < templates_of(p).len() ==> template_accepted(#[trigger] templates_of(p)[i])
}

/// Whether `msg` reports why provider `p` does not resolve, by the first check it fails: its
/// GUID, then its levels, keywords, opcodes, tasks, channels and templates, then its events.
pub open spec fn provider_error(p: ProviderType, msg: Seq<char>) -> bool {
    if crate::numbers::manifest_guid(p.guid@) is None {
        msg == guid_message(p)
    } else if !levels_fit(p) {
        level_error(p, msg)
    } else if !keywords_fit(p) {
        keyword_error(p, msg)
    } else if !opcodes_fit(p) {
        opcode_error(p, msg)
    } else if !tasks_fit(p) {
        task_error(p, msg)
    } else if !channels_resolve(p) {
        channel_error(p, msg)
    } else if !templates_resolve(p) {
        template_error(p, msg)
    } else {
        forall|i: int| #[trigger] first_rejected_event(p, i) ==> msg == event_error(
            events_of(p)[i],
            provider_views(p),
            templates_table(p).map_values(|e: (Seq<char>, crate::eventman::TemplateType)| e.0),
        )
    }
}

/// Resolves one provider: its GUID, its lookup tables, and its events in order.
pub fn resolve_provider(prov: &ProviderType, strings: &NameTable<String>) -> (res: Result<Provider, ManifestError>)
    ensures
        res is Ok <==> provider_accepted(*prov),
        res matches Ok(r) ==> is_provider_of(r, *prov, strings@),
        res matches Err(e) ==> provider_error(*prov, e.spec_message()),
{
    let guid = match crate::numbers::parse_guid(prov.guid.as_str()) {
        Some(g) => g,
        None => {
            let mut m = String::from_str("provider ");
            push_str(&mut m, prov.name.as_str());
            push_str(&mut m, " has an invalid guid ");
            push_str(&mut m, debug_quote(prov.guid.as_str()).as_str());
            push_str(&mut m, ": expected 32 hex digits, found ");
            let n = crate::numbers::hex_digit_count(prov.guid.as_str());
            crate::numbers::push_decimal(&mut m, n as u64);
            proof {
                assert(m@ =~= guid_message(*prov));
            }
            return Err(ManifestError::new(m));
        },
    };
    let levels = match collect_levels(prov) {
        Ok(t) => t,
        Err(e) => {
            return Err(e);
        },
    };
    let keywords = match collect_keywords(prov) {
        Ok(t) => t,
        Err(e) => {
            return Err(e);
        },
    };
    let opcodes = match collect_opcodes(prov) {
        Ok(t) => t,
        Err(e) => {
            return Err(e);
        },
    };
    let tasks = match collect_tasks(prov) {
        Ok(t) => t,
        Err(e) => {
            return Err(e);
        },
    };
    let channels = match collect_channels(prov) {
        Ok(t) => t,
        Err(e) => {
            return Err(e);
        },
    };
    let templates = match collect_templates(prov) {
        Ok(t) => t,
        Err(e) => {
            return Err(e);
        },
    };
    let lookups = ProviderLookupTables { levels, keywords, opcodes, tasks, channels, templates };
    let ghost views = provider_views(*prov);
    let ghost tids = templates_table(*prov).map_values(|e: (Seq<char>, crate::eventman::TemplateType)| e.0);
    proof {
        assert(lookups.channels@ =~= channels_table(*prov));
        assert(lookups.views() == views);
        assert(lookups.templates@.map_values(|e: (Seq<char>, Vec<TypeInfo>)| e.0) =~= tids);
        assert forall|i: int| 0 <= i < lookups.templates@.len() implies
            (#[trigger] lookups.templates@[i]).0 == templates_table(*prov)[i].0 by {}
    }
    let mut events: Vec<Event> = Vec::new();
    if let Some(list) = &prov.events {
        let mut i: usize = 0;
        while i < list.event.len()
            invariant
                i <= list.event@.len(),
                crate::numbers::manifest_guid(prov.guid@) is Some,
                levels_fit(*prov) && keywords_fit(*prov) && opcodes_fit(*prov) && tasks_fit(*prov),
                channels_resolve(*prov) && templates_resolve(*prov),
                events_of(*prov) == list.event@,
                events@.len() == i,
                lookups.views() == views,
                views == provider_views(*prov),
                lookups.templates@.map_values(|e: (Seq<char>, Vec<TypeInfo>)| e.0) == tids,
                tids == templates_table(*prov).map_values(|e: (Seq<char>, crate::eventman::TemplateType)| e.0),
                lookups.templates@.len() == templates_table(*prov).len(),
                forall|k: int| 0 <= k < lookups.templates@.len() ==> (#[trigger] lookups.templates@[k]).0
                    == templates_table(*prov)[k].0 && is_template_types_of(lookups.templates@[k].1, templates_table(*prov)[k].1),
                forall|j: int| 0 <= j < i ==> event_accepted(#[trigger] list.event@[j], views, tids),
                forall|j: int| 0 <= j < i ==> is_event_of(#[trigger] events@[j], list.event@[j], *prov, strings@),
            decreases list.event.len() - i,
        {
            let ev = &list.event[i];
            let e = match resolve_event(ev, &lookups, strings) {
                Ok(e) => e,
                Err(err) => {
                    proof {
                        assert(first_rejected_event(*prov, i as int));
                        assert forall|k: int| #[trigger] first_rejected_event(*prov, k) implies k == i by {
                            if k < i {
                                assert(event_accepted(list.event@[k], views, tids));
                            } else if k > i {
                                assert(event_accepted(events_of(*prov)[i as int], provider_views(*prov), tids));
                            }
                        }
                    }
                    return Err(err);
                },
            };
            proof {
                if let Some(t) = &ev.template {
                    lemma_last_index_same_keys(lookups.templates@, templates_table(*prov), t@);
                    lemma_table_get_last_index(templates_table(*prov), t@);
                    let k = last_index_of(lookups.templates@, t@)->Some_0;
                    assert(is_template_types_of(lookups.templates@[k].1, templates_table(*prov)[k].1));
                }
            }
            events.push(e);
            i = i + 1;
        }
    }
    Ok(Provider { symbol: prov.symbol.clone(), guid, events })
}

/// Whether every provider of a manifest resolves.
pub open spec fn manifest_accepted(man: InstrumentationManifest) -> bool {
    forall|i: int| 0 <= i < man.instrumentation.events.provider@.len() ==> provider_accepted(
        #[trigger] man.instrumentation.events.provider@[i],
    )
}

/// Resolves a parsed manifest into a model: one provider per declared provider, in order,
/// with messages resolved through the chosen culture's string table.
pub fn resolve(man: &InstrumentationManifest) -> (res: Result<Manifest, ManifestError>)
    ensures
        res is Ok <==> manifest_accepted(*man),
        res matches Err(e) ==> exists|i: int| 0 <= i < man.instrumentation.events.provider@.len() && provider_error(
            #[trigger] man.instrumentation.events.provider@[i],
            e.spec_message(),
        ) && !provider_accepted(man.instrumentation.events.provider@[i]) && forall|j: int|
            0 <= j < i ==> provider_accepted(#[trigger] man.instrumentation.events.provider@[j]),
        res matches Ok(m) ==> m.providers@.len() == man.instrumentation.events.provider@.len()
            && forall|i: int| 0 <= i < m.providers@.len() ==> is_provider_of(
                #[trigger] m.providers@[i],
                man.instrumentation.events.provider@[i],
                message_table_of(man.localization),
            ),
{
    let strings = build_message_table(man.localization.as_ref());
    let list = &man.instrumentation.events.provider;
    let mut providers: Vec<Provider> = Vec::new();
    let mut i: usize = 0;
    while i < list.len()
        invariant
            i <= list@.len(),
            list@ == man.instrumentation.events.provider@,
            strings@ == message_table_of(man.localization),
            providers@.len() == i,
            forall|j: int| 0 <= j < i ==> provider_accepted(#[trigger] list@[j]),
            forall|j: int| 0 <= j < i ==> is_provider_of(#[trigger] providers@[j], list@[j], strings@),
        decreases list.len() - i,
    {
        let p = match resolve_provider(&list[i], &strings) {
            Ok(p) => p,
            Err(e) => {
                assert(provider_error(list@[i as int], e.spec_message()));
                return Err(e);
            },
        };
        providers.push(p);
        i = i + 1;
    }
    Ok(Manifest { providers })
}

/// The standard ETW levels by name: `win:LogAlways` 0, `win:Critical` 1, `win:Error` 2,
/// `win:Warning` 3, `win:Informational` 4 and `win:Verbose` 5.
pub open spec fn standard_level(name: Seq<char>) -> Option<u8> {
    if name == "win:LogAlways"@ {
        Some(0u8)
    } else if name == "win:Critical"@ {
        Some(1u8)
    } else if name == "win:Error"@ {
        Some(2u8)
    } else if name == "win:Warning"@ {
        Some(3u8)
    } else if name == "win:Informational"@ {
        Some(4u8)
    } else if name == "win:Verbose"@ {
        Some(5u8)
    } else {
        None
    }
}

/// The standard ETW opcodes by name: `win:Info` 0 through `win:Send` 9, and `win:Receive` 240.
pub open spec fn standard_opcode(name: Seq<char>) -> Option<u8> {
    if name == "win:Info"@ {
        Some(0u8)
    } else if name == "win:Start"@ {
        Some(1u8)
    } else if name == "win:Stop"@ {
        Some(2u8)
    } else if name == "win:DC_Start"@ {
        Some(3u8)
    } else if name == "win:DC_Stop"@ {
        Some(4u8)
    } else if name == "win:Extension"@ {
        Some(5u8)
    } else if name == "win:Reply"@ {
        Some(6u8)
    } else if name == "win:Resume"@ {
        Some(7u8)
    } else if name == "win:Suspend"@ {
        Some(8u8)
    } else if name == "win:Send"@ {
        Some(9u8)
    } else if name == "win:Receive"@ {
        Some(240u8)
    } else {
        None
    }
}

/// Entries appended after a table that do not have the key leave its lookup unchanged.
proof fn lemma_table_get_append<T>(a: Seq<(Seq<char>, T)>, b: Seq<(Seq<char>, T)>, key: Seq<char>)
    requires
        forall|i: int| 0 <= i < b.len() ==> (#[trigger] b[i]).0 != key,
    ensures
        table_get(a + b, key) == table_get(a, key),
    decreases b.len(),
{
    if b.len() == 0 {
        assert(a + b =~= a);
    } else {
        assert((a + b).drop_last() =~= a + b.drop_last());
        assert((a + b).last() == b.last());
        lemma_table_get_append(a, b.drop_last(), key);
    }
}

/// A lookup finds the entry at position `i` when no later entry has its key.
proof fn lemma_table_get_at<T>(t: Seq<(Seq<char>, T)>, key: Seq<char>, i: int)
    requires
        0 <= i < t.len(),
        t[i].0 == key,
        forall|j: int| i < j < t.len() ==> (#[trigger] t[j]).0 != key,
    ensures
        table_get(t, key) == Some(t[i].1),
    decreases t.len(),
{
    if i < t.len() - 1 {
        assert(t.last().0 != key);
        lemma_table_get_at(t.drop_last(), key, i);
    }
}

proof fn lemma_builtin_levels(name: Seq<char>)
    requires
        standard_level(name) is Some,
    ensures
        table_get(builtin_levels(), name) == standard_level(name),
{
    reveal_strlit("win:LogAlways");
    reveal_strlit("win:Critical");
    reveal_strlit("win:Error");
    reveal_strlit("win:Warning");
    reveal_strlit("win:Informational");
    reveal_strlit("win:Verbose");
    assert("win:Warning"@[4] != "win:Verbose"@[4]);
    let t = builtin_levels();
    if name == "win:LogAlways"@ {
        assert("win:LogAlways"@[4] != "win:Critical"@[4]);
        assert(t[1].0 != name);
        assert("win:LogAlways"@[4] != "win:Error"@[4]);
        assert(t[2].0 != name);
        assert("win:LogAlways"@[4] != "win:Warning"@[4]);
        assert(t[3].0 != name);
        assert("win:LogAlways"@[4] != "win:Informational"@[4]);
        assert(t[4].0 != name);
        assert("win:LogAlways"@[4] != "win:Verbose"@[4]);
        assert(t[5].0 != name);
        assert forall|j: int| 0 < j < t.len() implies (#[trigger] t[j]).0 != name by {
            if j == 1 {}
            if j == 2 {}
            if j == 3 {}
            if j == 4 {}
            if j == 5 {}
        }
        lemma_table_get_at(t, name, 0);
    }
    if name == "win:Critical"@ {
        assert("win:Critical"@[4] != "win:Error"@[4]);
        assert(t[2].0 != name);
        assert("win:Critical"@[4] != "win:Warning"@[4]);
        assert(t[3].0 != name);
        assert("win:Critical"@[4] != "win:Informational"@[4]);
        assert(t[4].0 != name);
        assert("win:Critical"@[4] != "win:Verbose"@[4]);
        assert(t[5].0 != name);
        assert forall|j: int| 1 < j < t.len() implies (#[trigger] t[j]).0 != name by {
            if j == 2 {}
            if j == 3 {}
            if j == 4 {}
            if j == 5 {}
        }
        lemma_table_get_at(t, name, 1);
    }
    if name == "win:Error"@ {
        assert("win:Error"@[4] != "win:Warning"@[4]);
        assert(t[3].0 != name);
        assert("win:Error"@[4] != "win:Informational"@[4]);
        assert(t[4].0 != name);
        assert("win:Error"@[4] != "win:Verbose"@[4]);
        assert(t[5].0 != name);
        assert forall|j: int| 2 < j < t.len() implies (#[trigger] t[j]).0 != name by {
            if j == 3 {}
            if j == 4 {}
            if j == 5 {}
        }
        lemma_table_get_at(t, name, 2);
    }
    if name == "win:Warning"@ {
        assert("win:Warning"@[4] != "win:Informational"@[4]);
        assert(t[4].0 != name);
        assert("win:Warning"@[4] != "win:Verbose"@[4]);
        assert(t[5].0 != name);
        assert forall|j: int| 3 < j < t.len() implies (#[trigger] t[j]).0 != name by {
            if j == 4 {}
            if j == 5 {}
        }
        lemma_table_get_at(t, name, 3);
    }
    if name == "win:Informational"@ {
        assert("win:Informational"@[4] != "win:Verbose"@[4]);
        assert(t[5].0 != name);
        assert forall|j: int| 4 < j < t.len() implies (#[trigger] t[j]).0 != name by {
            if j == 5 {}
        }
        lemma_table_get_at(t, name, 4);
    }
    if name == "win:Verbose"@ {
        assert forall|j: int| 5 < j < t.len() implies (#[trigger] t[j]).0 != name by {
        }
        lemma_table_get_at(t, name, 5);
    }
}

proof fn lemma_builtin_opcodes(name: Seq<char>)
    requires
        standard_opcode(name) is Some,
    ensures
        table_get(builtin_opcodes(), name) == standard_opcode(name),
{
    reveal_strlit("win:Info");
    reveal_strlit("win:Start");
    reveal_strlit("win:Stop");
    reveal_strlit("win:DC_Start");
    reveal_strlit("win:DC_Stop");
    reveal_strlit("win:Extension");
    reveal_strlit("win:Reply");
    reveal_strlit("win:Resume");
    reveal_strlit("win:Suspend");
    reveal_strlit("win:Send");
    reveal_strlit("win:Receive");
    assert("win:Info"@[4] != "win:Stop"@[4]);
    assert("win:Info"@[4] != "win:Send"@[4]);
    assert("win:Stop"@[5] != "win:Send"@[5]);
    assert("win:Start"@[4] != "win:Reply"@[4]);
    assert("win:DC_Stop"@[4] != "win:Suspend"@[4]);
    assert("win:DC_Stop"@[4] != "win:Receive"@[4]);
    assert("win:Suspend"@[4] != "win:Receive"@[4]);
    let t = builtin_opcodes();
    if name == "win:Info"@ {
        assert("win:Info"@[4] != "win:Start"@[4]);
        assert(t[1].0 != name);
        assert("win:Info"@[4] != "win:Stop"@[4]);
        assert(t[2].0 != name);
        assert("win:Info"@[4] != "win:DC_Start"@[4]);
        assert(t[3].0 != name);
        assert("win:Info"@[4] != "win:DC_Stop"@[4]);
        assert(t[4].0 != name);
        assert("win:Info"@[4] != "win:Extension"@[4]);
        assert(t[5].0 != name);
        assert("win:Info"@[4] != "win:Reply"@[4]);
        assert("win:Info"@[4] != "win:Reply"@[4]);
        assert(t[6].0 != name);
        assert("win:Info"@[4] != "win:Resume"@[4]);
        assert("win:Info"@[4] != "win:Resume"@[4]);
        assert(t[7].0 != name);
        assert("win:Info"@[4] != "win:Suspend"@[4]);
        assert("win:Info"@[4] != "win:Suspend"@[4]);
        assert(t[8].0 != name);
        assert("win:Info"@[4] != "win:Send"@[4]);
        assert("win:Info"@[4] != "win:Send"@[4]);
        assert(t[9].0 != name);
        assert("win:Info"@[4] != "win:Receive"@[4]);
        assert("win:Info"@[4] != "win:Receive"@[4]);
        assert(t[10].0 != name);
        assert forall|j: int| 0 < j < t.len() implies (#[trigger] t[j]).0 != name by {
            if j == 1 {}
            if j == 2 {}
            if j == 3 {}
            if j == 4 {}
            if j == 5 {}
            if j == 6 {}
            if j == 7 {}
            if j == 8 {}
            if j == 9 {}
            if j == 10 {}
        }
        lemma_table_get_at(t, name, 0);
    }
    if name == "win:Start"@ {
        assert("win:Start"@[6] != "win:Stop"@[6]);
        assert("win:Start"@[6] != "win:Stop"@[6]);
        assert(t[2].0 != name);
        assert("win:Start"@[4] != "win:DC_Start"@[4]);
        assert("win:Start"@[4] != "win:DC_Start"@[4]);
        assert(t[3].0 != name);
        assert("win:Start"@[4] != "win:DC_Stop"@[4]);
        assert("win:Start"@[4] != "win:DC_Stop"@[4]);
        assert(t[4].0 != name);
        assert("win:Start"@[4] != "win:Extension"@[4]);
        assert("win:Start"@[4] != "win:Extension"@[4]);
        assert(t[5].0 != name);
        assert("win:Start"@[4] != "win:Reply"@[4]);
        assert("win:Start"@[4] != "win:Reply"@[4]);
        assert(t[6].0 != name);
        assert("win:Start"@[4] != "win:Resume"@[4]);
        assert("win:Start"@[4] != "win:Resume"@[4]);
        assert(t[7].0 != name);
        assert("win:Start"@[5] != "win:Suspend"@[5]);
        assert("win:Start"@[5] != "win:Suspend"@[5]);
        assert(t[8].0 != name);
        assert("win:Start"@[5] != "win:Send"@[5]);
        assert("win:Start"@[5] != "win:Send"@[5]);
        assert(t[9].0 != name);
        assert("win:Start"@[4] != "win:Receive"@[4]);
        assert("win:Start"@[4] != "win:Receive"@[4]);
        assert(t[10].0 != name);
        assert forall|j: int| 1 < j < t.len() implies (#[trigger] t[j]).0 != name by {
            if j == 2 {}
            if j == 3 {}
            if j == 4 {}
            if j == 5 {}
            if j == 6 {}
            if j == 7 {}
            if j == 8 {}
            if j == 9 {}
            if j == 10 {}
        }
        lemma_table_get_at(t, name, 1);
    }
    if name == "win:Stop"@ {
        assert("win:Stop"@[4] != "win:DC_Start"@[4]);
        assert("win:Stop"@[4] != "win:DC_Start"@[4]);
        assert(t[3].0 != name);
        assert("win:Stop"@[4] != "win:DC_Stop"@[4]);
        assert("win:Stop"@[4] != "win:DC_Stop"@[4]);
        assert(t[4].0 != name);
        assert("win:Stop"@[4] != "win:Extension"@[4]);
        assert("win:Stop"@[4] != "win:Extension"@[4]);
        assert(t[5].0 != name);
        assert("win:Stop"@[4] != "win:Reply"@[4]);
        assert("win:Stop"@[4] != "win:Reply"@[4]);
        assert(t[6].0 != name);
        assert("win:Stop"@[4] != "win:Resume"@[4]);
        assert("win:Stop"@[4] != "win:Resume"@[4]);
        assert(t[7].0 != name);
        assert("win:Stop"@[5] != "win:Suspend"@[5]);
        assert("win:Stop"@[5] != "win:Suspend"@[5]);
        assert(t[8].0 != name);
        assert("win:Stop"@[5] != "win:Send"@[5]);
        assert("win:Stop"@[5] != "win:Send"@[5]);
        assert(t[9].0 != name);
        assert("win:Stop"@[4] != "win:Receive"@[4]);
        assert("win:Stop"@[4] != "win:Receive"@[4]);
        assert(t[10].0 != name);
        assert forall|j: int| 2 < j < t.len() implies (#[trigger] t[j]).0 != name by {
            if j == 3 {}
            if j == 4 {}
            if j == 5 {}
            if j == 6 {}
            if j == 7 {}
            if j == 8 {}
            if j == 9 {}
            if j == 10 {}
        }
        lemma_table_get_at(t, name, 2);
    }
    if name == "win:DC_Start"@ {
        assert("win:DC_Start"@[9] != "win:DC_Stop"@[9]);
        assert("win:DC_Start"@[9] != "win:DC_Stop"@[9]);
        assert(t[4].0 != name);
        assert("win:DC_Start"@[4] != "win:Extension"@[4]);
        assert("win:DC_Start"@[4] != "win:Extension"@[4]);
        assert(t[5].0 != name);
        assert("win:DC_Start"@[4] != "win:Reply"@[4]);
        assert("win:DC_Start"@[4] != "win:Reply"@[4]);
        assert(t[6].0 != name);
        assert("win:DC_Start"@[4] != "win:Resume"@[4]);
        assert("win:DC_Start"@[4] != "win:Resume"@[4]);
        assert(t[7].0 != name);
        assert("win:DC_Start"@[4] != "win:Suspend"@[4]);
        assert("win:DC_Start"@[4] != "win:Suspend"@[4]);
        assert(t[8].0 != name);
        assert("win:DC_Start"@[4] != "win:Send"@[4]);
        assert("win:DC_Start"@[4] != "win:Send"@[4]);
        assert(t[9].0 != name);
        assert("win:DC_Start"@[4] != "win:Receive"@[4]);
        assert("win:DC_Start"@[4] != "win:Receive"@[4]);
        assert(t[10].0 != name);
        assert forall|j: int| 3 < j < t.len() implies (#[trigger] t[j]).0 != name by {
            if j == 4 {}
            if j == 5 {}
            if j == 6 {}
            if j == 7 {}
            if j == 8 {}
            if j == 9 {}
            if j == 10 {}
        }
        lemma_table_get_at(t, name, 3);
    }
    if name == "win:DC_Stop"@ {
        assert("win:DC_Stop"@[4] != "win:Extension"@[4]);
        assert("win:DC_Stop"@[4] != "win:Extension"@[4]);
        assert(t[5].0 != name);
        assert("win:DC_Stop"@[4] != "win:Reply"@[4]);
        assert("win:DC_Stop"@[4] != "win:Reply"@[4]);
        assert(t[6].0 != name);
        assert("win:DC_Stop"@[4] != "win:Resume"@[4]);
        assert("win:DC_Stop"@[4] != "win:Resume"@[4]);
        assert(t[7].0 != name);
        assert("win:DC_Stop"@[4] != "win:Suspend"@[4]);
        assert("win:DC_Stop"@[4] != "win:Suspend"@[4]);
        assert(t[8].0 != name);
        assert("win:DC_Stop"@[4] != "win:Send"@[4]);
        assert("win:DC_Stop"@[4] != "win:Send"@[4]);
        assert(t[9].0 != name);
        assert("win:DC_Stop"@[4] != "win:Receive"@[4]);
        assert("win:DC_Stop"@[4] != "win:Receive"@[4]);
        assert(t[10].0 != name);
        assert forall|j: int| 4 < j < t.len() implies (#[trigger] t[j]).0 != name by {
            if j == 5 {}
            if j == 6 {}
            if j == 7 {}
            if j == 8 {}
            if j == 9 {}
            if j == 10 {}
        }
        lemma_table_get_at(t, name, 4);
    }
    if name == "win:Extension"@ {
        assert("win:Extension"@[4] != "win:Reply"@[4]);
        assert("win:Extension"@[4] != "win:Reply"@[4]);
        assert(t[6].0 != name);
        assert("win:Extension"@[4] != "win:Resume"@[4]);
        assert("win:Extension"@[4] != "win:Resume"@[4]);
        assert(t[7].0 != name);
        assert("win:Extension"@[4] != "win:Suspend"@[4]);
        assert("win:Extension"@[4] != "win:Suspend"@[4]);
        assert(t[8].0 != name);
        assert("win:Extension"@[4] != "win:Send"@[4]);
        assert("win:Extension"@[4] != "win:Send"@[4]);
        assert(t[9].0 != name);
        assert("win:Extension"@[4] != "win:Receive"@[4]);
        assert("win:Extension"@[4] != "win:Receive"@[4]);
        assert(t[10].0 != name);
        assert forall|j: int| 5 < j < t.len() implies (#[trigger] t[j]).0 != name by {
            if j == 6 {}
            if j == 7 {}
            if j == 8 {}
            if j == 9 {}
            if j == 10 {}
        }
        lemma_table_get_at(t, name, 5);
    }
    if name == "win:Reply"@ {
        assert("win:Reply"@[6] != "win:Resume"@[6]);
        assert("win:Reply"@[6] != "win:Resume"@[6]);
        assert(t[7].0 != name);
        assert("win:Reply"@[4] != "win:Suspend"@[4]);
        assert("win:Reply"@[4] != "win:Suspend"@[4]);
        assert(t[8].0 != name);
        assert("win:Reply"@[4] != "win:Send"@[4]);
        assert("win:Reply"@[4] != "win:Send"@[4]);
        assert(t[9].0 != name);
        assert("win:Reply"@[6] != "win:Receive"@[6]);
        assert("win:Reply"@[6] != "win:Receive"@[6]);
        assert(t[10].0 != name);
        assert forall|j: int| 6 < j < t.len() implies (#[trigger] t[j]).0 != name by {
            if j == 7 {}
            if j == 8 {}
            if j == 9 {}
            if j == 10 {}
        }
        lemma_table_get_at(t, name, 6);
    }
    if name == "win:Resume"@ {
        assert("win:Resume"@[4] != "win:Suspend"@[4]);
        assert("win:Resume"@[4] != "win:Suspend"@[4]);
        assert(t[8].0 != name);
        assert("win:Resume"@[4] != "win:Send"@[4]);
        assert("win:Resume"@[4] != "win:Send"@[4]);
        assert(t[9].0 != name);
        assert("win:Resume"@[6] != "win:Receive"@[6]);
        assert("win:Resume"@[6] != "win:Receive"@[6]);
        assert(t[10].0 != name);
        assert forall|j: int| 7 < j < t.len() implies (#[trigger] t[j]).0 != name by {
            if j == 8 {}
            if j == 9 {}
            if j == 10 {}
        }
        lemma_table_get_at(t, name, 7);
    }
    if name == "win:Suspend"@ {
        assert("win:Suspend"@[5] != "win:Send"@[5]);
        assert("win:Suspend"@[5] != "win:Send"@[5]);
        assert(t[9].0 != name);
        assert("win:Suspend"@[4] != "win:Receive"@[4]);
        assert("win:Suspend"@[4] != "win:Receive"@[4]);
        assert(t[10].0 != name);
        assert forall|j: int| 8 < j < t.len() implies (#[trigger] t[j]).0 != name by {
            if j == 9 {}
            if j == 10 {}
        }
        lemma_table_get_at(t, name, 8);
    }
    if name == "win:Send"@ {
        assert("win:Send"@[4] != "win:Receive"@[4]);
        assert("win:Send"@[4] != "win:Receive"@[4]);
        assert(t[10].0 != name);
        assert forall|j: int| 9 < j < t.len() implies (#[trigger] t[j]).0 != name by {
            if j == 10 {}
        }
        lemma_table_get_at(t, name, 9);
    }
    if name == "win:Receive"@ {
        assert forall|j: int| 10 < j < t.len() implies (#[trigger] t[j]).0 != name by {
        }
        lemma_table_get_at(t, name, 10);
    }
}

/// Every provider has the standard levels: a standard level name that the provider does not
/// declare itself looks up to its standard value.
pub proof fn law_builtin_levels_have_standard_values(p: ProviderType, name: Seq<char>)
    requires
        standard_level(name) is Some,
        forall|i: int| 0 <= i < levels_of(p).len() ==> (#[trigger] levels_of(p)[i]).name@ != name,
    ensures
        table_get(levels_table(p), name) == standard_level(name),
{
    let declared = levels_of(p).map_values(|l: crate::eventman::LevelType| (l.name@, int_value(l.value@) as u8));
    assert forall|i: int| 0 <= i < declared.len() implies (#[trigger] declared[i]).0 != name by {
        assert(declared[i].0 == levels_of(p)[i].name@);
    }
    lemma_table_get_append(builtin_levels(), declared, name);
    lemma_builtin_levels(name);
}

/// Every provider has the standard opcodes: a standard opcode name that the provider does not
/// declare itself looks up to its standard value.
pub proof fn law_builtin_opcodes_have_standard_values(p: ProviderType, name: Seq<char>)
    requires
        standard_opcode(name) is Some,
        forall|i: int| 0 <= i < opcodes_of(p).len() ==> (#[trigger] opcodes_of(p)[i]).name@ != name,
    ensures
        table_get(opcodes_table(p), name) == standard_opcode(name),
{
    let declared = opcodes_of(p).map_values(|l: crate::eventman::OpcodeType| (l.name@, int_value(l.value@) as u8));
    assert forall|i: int| 0 <= i < declared.len() implies (#[trigger] declared[i]).0 != name by {
        assert(declared[i].0 == opcodes_of(p)[i].name@);
    }
    lemma_table_get_append(builtin_opcodes(), declared, name);
    lemma_builtin_opcodes(name);
}

/// An event that names a standard level or opcode, which its provider does not redeclare, is
/// resolved with that level's or opcode's standard value.
pub proof fn law_events_take_standard_levels_and_opcodes(
    e: Event,
    ev: EventDefinitionType,
    p: ProviderType,
    strings: Seq<(Seq<char>, String)>,
)
    requires
        is_event_of(e, ev, p, strings),
    ensures
        ev.level is Some && standard_level(ev.level->Some_0@) is Some && (forall|i: int|
            0 <= i < levels_of(p).len() ==> (#[trigger] levels_of(p)[i]).name@ != ev.level->Some_0@)
            ==> Some(e.level) == standard_level(ev.level->Some_0@),
        ev.opcode is Some && standard_opcode(ev.opcode->Some_0@) is Some && (forall|i: int|
            0 <= i < opcodes_of(p).len() ==> (#[trigger] opcodes_of(p)[i]).name@ != ev.opcode->Some_0@)
            ==> Some(e.opcode) == standard_opcode(ev.opcode->Some_0@),
{
    if let Some(n) = ev.level {
        if standard_level(n@) is Some && (forall|i: int|
            0 <= i < levels_of(p).len() ==> (#[trigger] levels_of(p)[i]).name@ != n@) {
            law_builtin_levels_have_standard_values(p, n@);
        }
    }
    if let Some(n) = ev.opcode {
        if standard_opcode(n@) is Some && (forall|i: int|
            0 <= i < opcodes_of(p).len() ==> (#[trigger] opcodes_of(p)[i]).name@ != n@) {
            law_builtin_opcodes_have_standard_values(p, n@);
        }
    }
}


/// The ids of the channels are one per channel.
proof fn lemma_channel_ids_len(values: Seq<Option<nat>>, explicit: Set<nat>, lower: nat)
    ensures
        channel_ids(values, explicit, lower) matches Some(ids) ==> ids.len() == values.len(),
    decreases values.len(),
{
    if values.len() > 0 {
        lemma_channel_ids_len(values.drop_first(), explicit, lower);
        if values[0] is None {
            if let Some(v) = first_free_channel(explicit, lower) {
                lemma_channel_ids_len(values.drop_first(), explicit, v + 1);
            }
        }
    }
}

/// A channel with an explicit value gets that value as its id.
proof fn lemma_channel_ids_explicit(values: Seq<Option<nat>>, explicit: Set<nat>, lower: nat, k: int)
    requires
        0 <= k < values.len(),
        values[k] is Some,
        channel_ids(values, explicit, lower) is Some,
    ensures
        channel_ids(values, explicit, lower)->Some_0[k] == values[k]->Some_0,
    decreases values.len(),
{
    lemma_channel_ids_len(values, explicit, lower);
    if k > 0 {
        assert(values.drop_first()[k - 1] == values[k]);
        match values[0] {
            Some(v) => {
                lemma_channel_ids_explicit(values.drop_first(), explicit, lower, k - 1);
            },
            None => {
                let v = first_free_channel(explicit, lower)->Some_0;
                lemma_channel_ids_explicit(values.drop_first(), explicit, v + 1, k - 1);
            },
        }
    }
}

/// With no explicit values, channels are numbered consecutively from `lower`.
proof fn lemma_channel_ids_consecutive(values: Seq<Option<nat>>, lower: nat)
    requires
        forall|i: int| 0 <= i < values.len() ==> (#[trigger] values[i]) is None,
        lower + values.len() <= 256,
    ensures
        channel_ids(values, Set::empty(), lower) matches Some(ids) && ids.len() == values.len() && forall|i: int|
            0 <= i < values.len() ==> #[trigger] ids[i] == lower + i,
    decreases values.len(),
{
    if values.len() > 0 {
        assert(first_free_channel(Set::empty(), lower) == Some(lower));
        assert forall|i: int| 0 <= i < values.drop_first().len() implies (#[trigger] values.drop_first()[i]) is None by {
            assert(values.drop_first()[i] == values[i + 1]);
        }
        lemma_channel_ids_consecutive(values.drop_first(), lower + 1);
    }
}

/// A channel that declares a `chid` is keyed by it, and otherwise by its name, so an event can
/// reference it that way; a lookup of a channel's key finds an id, that of the channel when no
/// later channel has the same key; and a channel with an explicit value gets that value as its
/// id.
pub proof fn law_channels_are_keyed_by_chid(p: ProviderType, i: int)
    requires
        0 <= i < channels_of(p).len(),
    ensures
        channels_of(p)[i].chid matches Some(id) ==> channels_table(p)[i].0 == id@,
        channels_of(p)[i].chid is None ==> channels_table(p)[i].0 == channels_of(p)[i].name@,
        table_get(channels_table(p), channels_table(p)[i].0) is Some,
        (forall|j: int| i < j < channels_of(p).len() ==> (#[trigger] channels_table(p)[j]).0
            != channels_table(p)[i].0) ==> table_get(channels_table(p), channels_table(p)[i].0) == Some(
            channels_table(p)[i].1,
        ),
        provider_channel_ids(channels_of(p)) is Some && channels_of(p)[i].value is Some
            ==> channels_table(p)[i].1 == int_value(channels_of(p)[i].value->Some_0@) as u8,
{
    let t = channels_table(p);
    let key = t[i].0;
    lemma_last_index_exists(t, key, i);
    lemma_table_get_last_index(t, key);
    if forall|j: int| i < j < channels_of(p).len() ==> (#[trigger] channels_table(p)[j]).0 != key {
        assert forall|j: int| i < j < t.len() implies (#[trigger] t[j]).0 != key by {
            assert(channels_table(p)[j] == t[j]);
        }
        lemma_table_get_at(t, key, i);
    }
    let cs = channels_of(p);
    let values = cs.map_values(|c: crate::eventman::ChannelType| channel_value(c));
    if provider_channel_ids(cs) is Some && cs[i].value is Some {
        assert(values[i] == channel_value(cs[i]));
        lemma_channel_ids_explicit(values, explicit_channel_values(cs), 16, i);
    }
}

/// When no channel declares a value, the channels are numbered from 16 in declaration order,
/// as the ETW compiler numbers them.
pub proof fn law_channels_without_values_count_from_16(p: ProviderType, i: int)
    requires
        0 <= i < channels_of(p).len(),
        channels_of(p).len() <= 240,
        forall|j: int| 0 <= j < channels_of(p).len() ==> (#[trigger] channels_of(p)[j]).value is None,
    ensures
        provider_channel_ids(channels_of(p)) is Some,
        channels_table(p)[i].1 == (16 + i) as u8,
{
    let cs = channels_of(p);
    let values = cs.map_values(|c: crate::eventman::ChannelType| channel_value(c));
    assert forall|j: int| 0 <= j < values.len() implies (#[trigger] values[j]) is None by {
        assert(cs[j].value is None);
    }
    assert(explicit_channel_values(cs) =~= Set::<nat>::empty()) by {
        assert forall|v: nat| !explicit_channel_values(cs).contains(v) by {
            if explicit_channel_values(cs).contains(v) {
                let j = choose|j: int| 0 <= j < cs.len() && channel_value(#[trigger] cs[j]) == Some(v);
                assert(cs[j].value is None);
            }
        }
    }
    lemma_channel_ids_consecutive(values, 16);
}

/// An event that references a channel by its `chid` (or, without one, by its name) resolves
/// with that channel's id, when no later channel has the same key.
pub proof fn law_events_find_channels_by_key(
    e: Event,
    ev: EventDefinitionType,
    p: ProviderType,
    strings: Seq<(Seq<char>, String)>,
    i: int,
)
    requires
        is_event_of(e, ev, p, strings),
        0 <= i < channels_of(p).len(),
        ev.channel is Some,
        channels_of(p)[i].chid matches Some(id) ==> ev.channel->Some_0@ == id@,
        channels_of(p)[i].chid is None ==> ev.channel->Some_0@ == channels_of(p)[i].name@,
        forall|j: int| i < j < channels_of(p).len() ==> (#[trigger] channels_table(p)[j]).0
            != channels_table(p)[i].0,
    ensures
        e.channel == channels_table(p)[i].1,
{
    law_channels_are_keyed_by_chid(p, i);
}


/// The text `$(string.` that opens a message-table reference.
pub open spec fn string_ref_open() -> Seq<char> {
    seq!['$', '(', 's', 't', 'r', 'i', 'n', 'g', '.']
}

/// A `message` attribute that is not of the form `$(string.ID)` is the message itself; one of
/// that form is looked up by `ID` in the message table; no attribute gives no message.
pub proof fn law_literal_messages_are_kept(raw: String, id: Seq<char>, strings: Seq<(Seq<char>, String)>)
    ensures
        !(raw@.len() >= 10 && raw@.take(9) == string_ref_open() && raw@.last() == ')') ==> message_of(
            Some(raw),
            strings,
        ) == Some(raw),
        raw@ == string_ref_open() + id + seq![')'] ==> message_of(Some(raw), strings) == table_get(strings, id),
        message_of(None, strings) is None,
{
    reveal_strlit("$(string.");
    assert("$(string."@ =~= string_ref_open());
    if raw@ == string_ref_open() + id + seq![')'] {
        assert(raw@.take(9) =~= string_ref_open());
        assert(raw@.subrange(9, raw@.len() - 1) =~= id);
    }
}


/// A declared level is found under its name with its declared value, when no later level of
/// the provider has the same name, overriding a standard one.
pub proof fn law_declared_levels_are_found(p: ProviderType, i: int)
    requires
        0 <= i < levels_of(p).len(),
        forall|j: int| i < j < levels_of(p).len() ==> (#[trigger] levels_of(p)[j]).name@ != levels_of(p)[i].name@,
    ensures
        table_get(levels_table(p), levels_of(p)[i].name@) == Some(int_value(levels_of(p)[i].value@) as u8),
{
    let t = levels_table(p);
    let declared = levels_of(p).map_values(|l: crate::eventman::LevelType| (l.name@, int_value(l.value@) as u8));
    assert(t == builtin_levels() + declared);
    let key = levels_of(p)[i].name@;
    assert forall|j: int| 6 + i < j < t.len() implies (#[trigger] t[j]).0 != key by {
        let k = j - 6;
        assert(t[j] == declared[k]);
    }
    assert(t[6 + i] == declared[i]);
    lemma_table_get_at(t, key, 6 + i);
}

/// A declared opcode is found under its name with its declared value, when no later opcode of
/// the provider has the same name, overriding a standard one.
pub proof fn law_declared_opcodes_are_found(p: ProviderType, i: int)
    requires
        0 <= i < opcodes_of(p).len(),
        forall|j: int| i < j < opcodes_of(p).len() ==> (#[trigger] opcodes_of(p)[j]).name@ != opcodes_of(p)[i].name@,
    ensures
        table_get(opcodes_table(p), opcodes_of(p)[i].name@) == Some(int_value(opcodes_of(p)[i].value@) as u8),
{
    let t = opcodes_table(p);
    let declared = opcodes_of(p).map_values(|l: crate::eventman::OpcodeType| (l.name@, int_value(l.value@) as u8));
    assert(t == builtin_opcodes() + declared);
    let key = opcodes_of(p)[i].name@;
    assert forall|j: int| 11 + i < j < t.len() implies (#[trigger] t[j]).0 != key by {
        let k = j - 11;
        assert(t[j] == declared[k]);
    }
    assert(t[11 + i] == declared[i]);
    lemma_table_get_at(t, key, 11 + i);
}

/// A declared task is found under its name with its declared value, when no later task of
/// the provider has the same name.
pub proof fn law_declared_tasks_are_found(p: ProviderType, i: int)
    requires
        0 <= i < tasks_of(p).len(),
        forall|j: int| i < j < tasks_of(p).len() ==> (#[trigger] tasks_of(p)[j]).name@ != tasks_of(p)[i].name@,
    ensures
        table_get(tasks_table(p), tasks_of(p)[i].name@) == Some(int_value(tasks_of(p)[i].value@) as u16),
{
    let t = tasks_table(p);
    let declared = tasks_of(p).map_values(|l: crate::eventman::TaskType| (l.name@, int_value(l.value@) as u16));
    assert(t == declared);
    let key = tasks_of(p)[i].name@;
    assert forall|j: int| i < j < t.len() implies (#[trigger] t[j]).0 != key by {
        let k = j;
        assert(t[j] == declared[k]);
    }
    assert(t[i] == declared[i]);
    lemma_table_get_at(t, key, i);
}

/// A declared keyword is found under its name with its declared mask, when no later keyword of
/// the provider has the same name.
pub proof fn law_declared_keywords_are_found(p: ProviderType, i: int)
    requires
        0 <= i < keywords_of(p).len(),
        forall|j: int| i < j < keywords_of(p).len() ==> (#[trigger] keywords_of(p)[j]).name@ != keywords_of(p)[i].name@,
    ensures
        table_get(keywords_table(p), keywords_of(p)[i].name@) == Some(int_value(keywords_of(p)[i].mask@) as u64),
{
    let t = keywords_table(p);
    let declared = keywords_of(p).map_values(|l: crate::eventman::KeywordType| (l.name@, int_value(l.mask@) as u64));
    assert(t == declared);
    let key = keywords_of(p)[i].name@;
    assert forall|j: int| i < j < t.len() implies (#[trigger] t[j]).0 != key by {
        let k = j;
        assert(t[j] == declared[k]);
    }
    assert(t[i] == declared[i]);
    lemma_table_get_at(t, key, i);
}

} // verus!
