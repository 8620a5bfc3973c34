//! Reading the options of `gen_etw_wrapper!` from its input tokens.
//!
//! The input is a manifest path, then comma-separated items, each either an option
//! (`event_methods_return_unit = <bool>`, `panic_on_input = <bool | cfg(...)>`,
//! `panic_on_write = <bool | cfg(...)>`) or a name override (`SYMBOL -> Name` or
//! `"symbol" -> Name`), with an optional trailing comma.

use vstd::prelude::*;
use vstd::string::StringExecFns;

use crate::method::{EventErrors, PanicPolicy};
use crate::model::copy_string;
use crate::provider::NameOverride;
use crate::text::{push_str, str_equal};

verus! {

/// One token of the macro input.
#[derive(Debug, PartialEq, Eq)]
pub enum ArgToken {
    /// A string literal, by its value.
    Str(String),
    /// `true` or `false`.
    Bool(bool),
    /// An identifier that is not a keyword.
    Ident(String),
    /// A group in parentheses: `Some(i)` when its whole content is an attribute meta item,
    /// which the caller keeps at index `i`.
    Parens(Option<usize>),
    /// `,`
    Comma,
    /// `=`
    Eq,
    /// `->`
    Arrow,
    /// Any other token.
    Other,
}

/// The parsed macro input.
#[derive(Debug, PartialEq, Eq)]
pub struct WrapperArgs {
    /// The manifest path as written.
    pub path: String,
    /// How event methods expose errors.
    pub event_errors: EventErrors,
    /// When input errors panic.
    pub input_panics: PanicPolicy,
    /// When write errors panic.
    pub write_panics: PanicPolicy,
    /// The provider name overrides, in order.
    pub overrides: Vec<NameOverride>,
    /// The index of each override's key token.
    pub override_tokens: Vec<usize>,
}

/// Why the macro input was refused: a message, and the index of the token it is reported at
/// (the number of tokens for the end of the input).
#[derive(Debug, PartialEq, Eq)]
pub struct ArgError {
    pub at: usize,
    pub message: String,
}

/// The options and overrides read so far; an option is `Some` once it has been set.
pub struct ArgsModel {
    pub errors: Option<EventErrors>,
    pub input: Option<PanicPolicy>,
    pub write: Option<PanicPolicy>,
    pub overrides: Seq<(Seq<char>, Seq<char>)>,
    pub override_at: Seq<int>,
}

/// The message for a panic option whose value is not `true`, `false` or a `cfg(...)`.
pub open spec fn panic_value_message(option: Seq<char>) -> Seq<char> {
    "`"@ + option + "` must be `true`, `false`, or a `cfg(...)` predicate"@
}

/// The value of a panic option at token `j`, and the index after it.
pub open spec fn spec_panic_value(ts: Seq<ArgToken>, j: int, option: Seq<char>) -> Result<(int, PanicPolicy), (int, Seq<char>)> {
    if j < ts.len() && ts[j] is Bool {
        Ok((j + 1, PanicPolicy { enabled: ts[j]->Bool_0, when: None }))
    } else if j + 1 < ts.len() && ts[j] is Ident && ts[j]->Ident_0@ == "cfg"@ && ts[j + 1] is Parens
        && ts[j + 1]->Parens_0 is Some {
        Ok((j + 2, PanicPolicy { enabled: true, when: ts[j + 1]->Parens_0 }))
    } else {
        Err((j, panic_value_message(option)))
    }
}

/// An override whose key, `key`, is token `i`: `->` and a name must follow.
pub open spec fn spec_override(ts: Seq<ArgToken>, i: int, key: Seq<char>, st: ArgsModel) -> Result<(int, ArgsModel), (int, Seq<char>)> {
    if !(i + 1 < ts.len() && ts[i + 1] is Arrow) {
        Err((i + 1, "expected `->`"@))
    } else if !(i + 2 < ts.len() && ts[i + 2] is Ident) {
        Err((i + 2, "expected identifier"@))
    } else {
        Ok((i + 3, ArgsModel {
            errors: st.errors,
            input: st.input,
            write: st.write,
            overrides: st.overrides.push((key, ts[i + 2]->Ident_0@)),
            override_at: st.override_at.push(i),
        }))
    }
}

/// An option named `key` at token `i`, whose `=` is token `i + 1`.
pub open spec fn spec_option(ts: Seq<ArgToken>, i: int, key: Seq<char>, st: ArgsModel) -> Result<(int, ArgsModel), (int, Seq<char>)> {
    if key == "event_methods_return_unit"@ {
        if st.errors is Some {
            Err((i, "duplicate `event_methods_return_unit` option"@))
        } else if i + 2 < ts.len() && ts[i + 2] is Bool {
            Ok((i + 3, ArgsModel {
                errors: Some(if ts[i + 2]->Bool_0 { EventErrors::Ignore } else { EventErrors::Propagate }),
                input: st.input,
                write: st.write,
                overrides: st.overrides,
                override_at: st.override_at,
            }))
        } else {
            Err((i + 2, "expected boolean literal"@))
        }
    } else if key == "panic_on_input"@ {
        if st.input is Some {
            Err((i, "duplicate `panic_on_input` option"@))
        } else {
            match spec_panic_value(ts, i + 2, "panic_on_input"@) {
                Ok((j, p)) => Ok((j, ArgsModel { input: Some(p), ..st })),
                Err(e) => Err(e),
            }
        }
    } else if key == "panic_on_write"@ {
        if st.write is Some {
            Err((i, "duplicate `panic_on_write` option"@))
        } else {
            match spec_panic_value(ts, i + 2, "panic_on_write"@) {
                Ok((j, p)) => Ok((j, ArgsModel { write: Some(p), ..st })),
                Err(e) => Err(e),
            }
        }
    } else {
        Err((i, "unknown gen_etw_wrapper option `"@ + key + "`"@))
    }
}

/// The item that starts at token `i`, and the index after it.
pub open spec fn spec_item(ts: Seq<ArgToken>, i: int, st: ArgsModel) -> Result<(int, ArgsModel), (int, Seq<char>)> {
    match ts[i] {
        ArgToken::Str(k) => spec_override(ts, i, k@, st),
        ArgToken::Ident(k) => if i + 1 < ts.len() && ts[i + 1] is Eq {
            spec_option(ts, i, k@, st)
        } else {
            spec_override(ts, i, k@, st)
        },
        _ => Err((i, "expected identifier"@)),
    }
}

/// The items from token `i` on, each after a comma.
pub open spec fn spec_items(ts: Seq<ArgToken>, i: int, st: ArgsModel) -> Result<ArgsModel, (int, Seq<char>)>
    decreases ts.len() - i,
{
    if i >= ts.len() {
        Ok(st)
    } else if !(ts[i] is Comma) {
        Err((i, "unexpected token"@))
    } else if i + 1 == ts.len() {
        Ok(st)
    } else {
        match spec_item(ts, i + 1, st) {
            Ok((j, st2)) => if i < j <= ts.len() {
                spec_items(ts, j, st2)
            } else {
                Ok(st2)
            },
            Err(e) => Err(e),
        }
    }
}

/// The model of the whole input: the options and overrides, or where and why it is refused.
pub open spec fn spec_args(ts: Seq<ArgToken>) -> Result<ArgsModel, (int, Seq<char>)> {
    if ts.len() > 0 && ts[0] is Str {
        spec_items(ts, 1, ArgsModel { errors: None, input: None, write: None, overrides: Seq::empty(), override_at: Seq::empty() })
    } else {
        Err((0, "expected string literal"@))
    }
}

/// The panic policy of an option that may not have been set.
pub open spec fn policy_or_default(p: Option<PanicPolicy>) -> PanicPolicy {
    match p {
        Some(p) => p,
        None => PanicPolicy { enabled: false, when: None },
    }
}

/// Whether `a` holds the options and overrides of `m`, and the path of `ts`.
pub open spec fn is_args_of(a: WrapperArgs, m: ArgsModel, ts: Seq<ArgToken>) -> bool {
    &&& a.path@ == ts[0]->Str_0@
    &&& a.event_errors == (match m.errors {
        Some(e) => e,
        None => EventErrors::Propagate,
    })
    &&& a.input_panics == policy_or_default(m.input)
    &&& a.write_panics == policy_or_default(m.write)
    &&& a.overrides@.map_values(|o: NameOverride| (o.key@, o.name@)) == m.overrides
    &&& a.override_tokens@.map_values(|t: usize| t as int) == m.override_at
}

/// The exec state while reading the items.
struct ArgState {
    errors: Option<EventErrors>,
    input: Option<PanicPolicy>,
    write: Option<PanicPolicy>,
    overrides: Vec<NameOverride>,
    override_at: Vec<usize>,
}

impl ArgState {
    spec fn model(&self) -> ArgsModel {
        ArgsModel {
            errors: self.errors,
            input: self.input,
            write: self.write,
            overrides: self.overrides@.map_values(|o: NameOverride| (o.key@, o.name@)),
            override_at: self.override_at@.map_values(|t: usize| t as int),
        }
    }
}

fn arg_error(at: usize, message: &str) -> (e: ArgError)
    ensures
        e.at == at,
        e.message@ == message@,
{
    ArgError { at, message: String::from_str(message) }
}

fn panic_value(ts: &[ArgToken], j: usize, option: &str) -> (r: Result<(usize, PanicPolicy), ArgError>)
    requires
        j <= ts@.len(),
    ensures
        match spec_panic_value(ts@, j as int, option@) {
            Ok((j2, p)) => r matches Ok((k, q)) && k == j2 && q == p,
            Err((at, msg)) => r matches Err(e) && e.at == at && e.message@ == msg,
        },
{
    if j < ts.len() {
        if let ArgToken::Bool(b) = &ts[j] {
            return Ok((j + 1, PanicPolicy { enabled: *b, when: None }));
        }
        if ts.len() - j > 1 {
            if let ArgToken::Ident(c) = &ts[j] {
                if str_equal(c.as_str(), "cfg") {
                    if let ArgToken::Parens(Some(m)) = &ts[j + 1] {
                        return Ok((j + 2, PanicPolicy { enabled: true, when: Some(*m) }));
                    }
                }
            }
        }
    }
    let mut message = String::from_str("`");
    push_str(&mut message, option);
    push_str(&mut message, "` must be `true`, `false`, or a `cfg(...)` predicate");
    proof {
        assert(message@ =~= panic_value_message(option@));
    }
    Err(ArgError { at: j, message })
}

fn read_override(ts: &[ArgToken], i: usize, key: &String, st: &mut ArgState) -> (r: Result<usize, ArgError>)
    requires
        i < ts@.len(),
    ensures
        match spec_override(ts@, i as int, key@, old(st).model()) {
            Ok((j, m)) => r matches Ok(k) && k == j && final(st).model() == m,
            Err((at, msg)) => r matches Err(e) && e.at == at && e.message@ == msg,
        },
{
    if !(ts.len() - i > 1 && matches!(ts[i + 1], ArgToken::Arrow)) {
        return Err(arg_error(i + 1, "expected `->`"));
    }
    if ts.len() - i > 2 {
        if let ArgToken::Ident(name) = &ts[i + 2] {
            let ghost before = st.overrides@;
            let ghost before_at = st.override_at@;
            st.overrides.push(NameOverride { key: copy_string(key), name: copy_string(name) });
            st.override_at.push(i);
            proof {
                assert(st.override_at@.map_values(|t: usize| t as int) =~= before_at.map_values(
                    |t: usize| t as int,
                ).push(i as int));
                assert(st.overrides@.map_values(|o: NameOverride| (o.key@, o.name@)) =~= before.map_values(
                    |o: NameOverride| (o.key@, o.name@),
                ).push((key@, name@)));
            }
            return Ok(i + 3);
        }
    }
    Err(arg_error(i + 2, "expected identifier"))
}

fn read_option(ts: &[ArgToken], i: usize, key: &String, st: &mut ArgState) -> (r: Result<usize, ArgError>)
    requires
        i + 1 < ts@.len(),
    ensures
        match spec_option(ts@, i as int, key@, old(st).model()) {
            Ok((j, m)) => r matches Ok(k) && k == j && final(st).model() == m,
            Err((at, msg)) => r matches Err(e) && e.at == at && e.message@ == msg,
        },
{
    let n = ts.len();
    assert(i + 2 <= n);
    if str_equal(key.as_str(), "event_methods_return_unit") {
        if st.errors.is_some() {
            return Err(arg_error(i, "duplicate `event_methods_return_unit` option"));
        }
        if ts.len() - i > 2 {
            if let ArgToken::Bool(b) = &ts[i + 2] {
                st.errors = Some(if *b { EventErrors::Ignore } else { EventErrors::Propagate });
                return Ok(i + 3);
            }
        }
        Err(arg_error(i + 2, "expected boolean literal"))
    } else if str_equal(key.as_str(), "panic_on_input") {
        if st.input.is_some() {
            return Err(arg_error(i, "duplicate `panic_on_input` option"));
        }
        let (j, p) = panic_value(ts, i + 2, "panic_on_input")?;
        st.input = Some(p);
        Ok(j)
    } else if str_equal(key.as_str(), "panic_on_write") {
        if st.write.is_some() {
            return Err(arg_error(i, "duplicate `panic_on_write` option"));
        }
        let (j, p) = panic_value(ts, i + 2, "panic_on_write")?;
        st.write = Some(p);
        Ok(j)
    } else {
        let mut message = String::from_str("unknown gen_etw_wrapper option `");
        push_str(&mut message, key.as_str());
        push_str(&mut message, "`");
        proof {
            assert(message@ =~= "unknown gen_etw_wrapper option `"@ + key@ + "`"@);
        }
        Err(ArgError { at: i, message })
    }
}

fn read_item(ts: &[ArgToken], i: usize, st: &mut ArgState) -> (r: Result<usize, ArgError>)
    requires
        i < ts@.len(),
    ensures
        match spec_item(ts@, i as int, old(st).model()) {
            Ok((j, m)) => r matches Ok(k) && k == j && final(st).model() == m,
            Err((at, msg)) => r matches Err(e) && e.at == at && e.message@ == msg,
        },
{
    match &ts[i] {
        ArgToken::Str(k) => read_override(ts, i, k, st),
        ArgToken::Ident(k) => {
            if ts.len() - i > 1 && matches!(ts[i + 1], ArgToken::Eq) {
                read_option(ts, i, k, st)
            } else {
                read_override(ts, i, k, st)
            }
        },
        _ => Err(arg_error(i, "expected identifier")),
    }
}

/// Reads the macro input: the manifest path, then the options and overrides. An option that is
/// not given keeps its default: errors are propagated and nothing panics.
pub fn parse_wrapper_args(ts: &[ArgToken]) -> (res: Result<WrapperArgs, ArgError>)
    ensures
        match spec_args(ts@) {
            Ok(m) => res matches Ok(a) && is_args_of(a, m, ts@),
            Err((at, msg)) => res matches Err(e) && e.at == at && e.message@ == msg,
        },
{
    if ts.len() == 0 {
        return Err(arg_error(0, "expected string literal"));
    }
    let path = match &ts[0] {
        ArgToken::Str(p) => copy_string(p),
        _ => {
            return Err(arg_error(0, "expected string literal"));
        },
    };
    let mut st = ArgState { errors: None, input: None, write: None, overrides: Vec::new(), override_at: Vec::new() };
    let ghost init = st.model();
    assert(init.overrides =~= Seq::empty());
    assert(init.override_at =~= Seq::empty());
    assert(spec_args(ts@) == spec_items(ts@, 1, init));
    let mut i: usize = 1;
    while i < ts.len()
        invariant
            1 <= i <= ts@.len(),
            ts@[0] is Str,
            spec_args(ts@) == spec_items(ts@, i as int, st.model()),
        ensures
            spec_items(ts@, i as int, st.model()) == Ok::<ArgsModel, (int, Seq<char>)>(st.model()),
        decreases ts.len() - i,
    {
        if !matches!(ts[i], ArgToken::Comma) {
            return Err(arg_error(i, "unexpected token"));
        }
        if ts.len() - i == 1 {
            break;
        }
        let ghost before = st.model();
        let j = match read_item(ts, i + 1, &mut st) {
            Ok(j) => j,
            Err(e) => {
                return Err(e);
            },
        };
        proof {
            assert(spec_item(ts@, i + 1, before) == Ok::<(int, ArgsModel), (int, Seq<char>)>((j as int, st.model())));
            assert(i < j <= ts@.len());
        }
        i = j;
    }
    let args = WrapperArgs {
        path,
        event_errors: match st.errors {
            Some(e) => e,
            None => EventErrors::Propagate,
        },
        input_panics: match st.input {
            Some(p) => p,
            None => PanicPolicy { enabled: false, when: None },
        },
        write_panics: match st.write {
            Some(p) => p,
            None => PanicPolicy { enabled: false, when: None },
        },
        overrides: st.overrides,
        override_tokens: st.override_at,
    };
    Ok(args)
}

} // verus!
