use etw_wrapper::args::{parse_wrapper_args, ArgError, ArgToken};
use etw_wrapper::idents::{clean_ident, safe_ident, safe_ident_from};
use etw_wrapper::message::render_message;
use etw_wrapper::method::{
    event_error_handler, plan_method, ErrorHandler, EventErrors, EventPolicy, PanicPolicy,
};
use etw_wrapper::model::{
    AnsiEncoding, Count, Event, Length, Manifest, ManifestError, Provider, TypeInfo, WinType,
};
use etw_wrapper::plan::{
    backing_name, build_value_plan, classify, plan_event, CallArg, Cardinality, Check, DerivedPlan,
    ElemTy, ElementLength, EncodeFn, EventPlan, FieldRole, RustTy, ScalarTy, StringEncoding, Temp,
    ValueKind,
};
use etw_wrapper::provider::{plan_provider, plan_wrapper, NameOverride, WrapperError};

fn event(params: Vec<(&str, WinType)>) -> Event {
    Event {
        symbol: "E".into(),
        id: 1,
        version: 0,
        level: 0,
        opcode: 0,
        task: 0,
        keyword: 0,
        channel: 0,
        params: params
            .into_iter()
            .map(|(name, win_type)| TypeInfo {
                name: name.into(),
                win_type,
                count: Count::Single,
            })
            .collect(),
        message: None,
    }
}

fn named_event(symbol: &str, params: Vec<(&str, WinType)>) -> Event {
    let mut e = event(params);
    e.symbol = symbol.into();
    e
}

fn plan(e: &Event) -> Result<EventPlan, ManifestError> {
    plan_event(e, "P")
}

fn exposed_count(plans: &EventPlan) -> usize {
    plans.plans.iter().filter(|fp| fp.param.is_some()).count()
}

fn quiet() -> EventPolicy {
    EventPolicy {
        errors: EventErrors::Propagate,
        input_panics: PanicPolicy { enabled: false, when: None },
        write_panics: PanicPolicy { enabled: false, when: None },
    }
}

fn str_tok(s: &str) -> ArgToken {
    ArgToken::Str(s.into())
}

fn ident(s: &str) -> ArgToken {
    ArgToken::Ident(s.into())
}

#[test]
fn wrapper_args_default_to_propagating_event_errors() {
    let args = parse_wrapper_args(&[
        str_tok("manifest.man"),
        ArgToken::Comma,
        ident("PROVIDER"),
        ArgToken::Arrow,
        ident("Logger"),
    ])
    .unwrap();

    assert_eq!(args.event_errors, EventErrors::Propagate);
    assert!(!args.input_panics.enabled);
    assert!(!args.write_panics.enabled);
    assert_eq!(args.overrides.len(), 1);
    assert_eq!(args.path, "manifest.man");
    assert_eq!(
        args.overrides[0],
        NameOverride { key: "PROVIDER".into(), name: "Logger".into() }
    );
}

#[test]
fn wrapper_args_parse_unit_return_setting() {
    let args = parse_wrapper_args(&[
        str_tok("manifest.man"),
        ArgToken::Comma,
        ident("event_methods_return_unit"),
        ArgToken::Eq,
        ArgToken::Bool(true),
        ArgToken::Comma,
        ident("PROVIDER"),
        ArgToken::Arrow,
        ident("Logger"),
    ])
    .unwrap();

    assert_eq!(args.event_errors, EventErrors::Ignore);
    assert_eq!(args.overrides.len(), 1);

    let args = parse_wrapper_args(&[
        str_tok("manifest.man"),
        ArgToken::Comma,
        ident("event_methods_return_unit"),
        ArgToken::Eq,
        ArgToken::Bool(false),
    ])
    .unwrap();
    assert_eq!(args.event_errors, EventErrors::Propagate);
}

#[test]
fn wrapper_args_reject_invalid_or_duplicate_unit_return_setting() {
    assert!(parse_wrapper_args(&[
        str_tok("manifest.man"),
        ArgToken::Comma,
        ident("event_methods_return_unit"),
        ArgToken::Eq,
        ident("cfg"),
        ArgToken::Parens(Some(0)),
    ])
    .is_err());

    let duplicate = parse_wrapper_args(&[
        str_tok("manifest.man"),
        ArgToken::Comma,
        ident("event_methods_return_unit"),
        ArgToken::Eq,
        ArgToken::Bool(true),
        ArgToken::Comma,
        ident("event_methods_return_unit"),
        ArgToken::Eq,
        ArgToken::Bool(false),
    ])
    .err()
    .expect("duplicate option should fail");
    assert!(duplicate
        .message
        .contains("duplicate `event_methods_return_unit` option"));
    assert_eq!(duplicate.at, 6);
}

#[test]
fn wrapper_args_parse_independent_panic_settings() {
    let args = parse_wrapper_args(&[
        str_tok("manifest.man"),
        ArgToken::Comma,
        ident("panic_on_input"),
        ArgToken::Eq,
        ident("cfg"),
        ArgToken::Parens(Some(0)),
        ArgToken::Comma,
        ident("panic_on_write"),
        ArgToken::Eq,
        ArgToken::Bool(true),
    ])
    .unwrap();

    assert!(args.input_panics.enabled);
    assert!(args.write_panics.enabled);
    let input = args
        .input_panics
        .when
        .expect("input cfg predicate should be retained");
    assert!(args.write_panics.when.is_none());
    assert_eq!(input, 0);
}

#[test]
fn wrapper_args_parse_false_and_reject_invalid_panic_settings() {
    let args = parse_wrapper_args(&[
        str_tok("manifest.man"),
        ArgToken::Comma,
        ident("panic_on_input"),
        ArgToken::Eq,
        ArgToken::Bool(false),
    ])
    .unwrap();
    assert!(!args.input_panics.enabled);
    assert!(args.input_panics.when.is_none());

    let error = parse_wrapper_args(&[
        str_tok("manifest.man"),
        ArgToken::Comma,
        ident("panic_on_write"),
        ArgToken::Eq,
        ident("sometimes"),
    ])
    .err()
    .expect("invalid panic setting should fail");

    assert!(error
        .message
        .contains("must be `true`, `false`, or a `cfg(...)` predicate"));
}

#[test]
fn wrapper_args_errors_name_the_offending_token() {
    assert_eq!(
        parse_wrapper_args(&[]),
        Err(ArgError { at: 0, message: "expected string literal".into() })
    );
    assert_eq!(
        parse_wrapper_args(&[str_tok("m"), ident("X")]),
        Err(ArgError { at: 1, message: "unexpected token".into() })
    );
    assert_eq!(
        parse_wrapper_args(&[str_tok("m"), ArgToken::Comma, ident("verbose"), ArgToken::Eq, ArgToken::Bool(true)]),
        Err(ArgError { at: 2, message: "unknown gen_etw_wrapper option `verbose`".into() })
    );
    assert_eq!(
        parse_wrapper_args(&[str_tok("m"), ArgToken::Comma, ident("X"), ArgToken::Comma]),
        Err(ArgError { at: 3, message: "expected `->`".into() })
    );
    assert_eq!(
        parse_wrapper_args(&[str_tok("m"), ArgToken::Comma, str_tok("A.B"), ArgToken::Arrow]),
        Err(ArgError { at: 4, message: "expected identifier".into() })
    );
    assert_eq!(
        parse_wrapper_args(&[str_tok("m"), ArgToken::Comma, ArgToken::Other]),
        Err(ArgError { at: 2, message: "expected identifier".into() })
    );
    assert_eq!(
        parse_wrapper_args(&[str_tok("m"), ArgToken::Comma, ident("panic_on_input"), ArgToken::Eq, ident("cfg"), ArgToken::Parens(None)]),
        Err(ArgError {
            at: 4,
            message: "`panic_on_input` must be `true`, `false`, or a `cfg(...)` predicate".into()
        })
    );
}

#[test]
fn wrapper_args_accept_a_trailing_comma_and_quoted_symbols() {
    let args = parse_wrapper_args(&[
        str_tok("providers.man"),
        ArgToken::Comma,
        str_tok("Contoso.WidgetService"),
        ArgToken::Arrow,
        ident("WidgetLogger"),
        ArgToken::Comma,
        ident("PROVIDER_DATABASE"),
        ArgToken::Arrow,
        ident("DatabaseLogger"),
        ArgToken::Comma,
    ])
    .unwrap();
    assert_eq!(
        args.overrides,
        vec![
            NameOverride { key: "Contoso.WidgetService".into(), name: "WidgetLogger".into() },
            NameOverride { key: "PROVIDER_DATABASE".into(), name: "DatabaseLogger".into() },
        ]
    );
    assert_eq!(args.override_tokens, vec![2, 6]);
}

#[test]
fn safe_ident_transforms() {
    // Ordinary identifiers pass through untouched
    assert_eq!(safe_ident("version"), "version");
    // Escape eligible keywords with the "r#" prefix
    assert_eq!(safe_ident("type"), "r#type");
    // Give ineligible keywords and the lone underscore an underscore suffix
    assert_eq!(safe_ident("crate"), "crate_");
    assert_eq!(safe_ident("self"), "self_");
    assert_eq!(safe_ident("_"), "__");
    // Replace invalid characters, a leading non-XID_Start character gains an underscore
    assert_eq!(safe_ident("worker-count"), "worker_count");
    assert_eq!(safe_ident("3d"), "_3d");
    assert_eq!(safe_ident(""), "__");
}

#[test]
fn clean_ident_replaces_invalid_characters() {
    assert_eq!(clean_ident("a b-c"), "a_b_c");
    assert_eq!(clean_ident("9lives"), "_9lives");
}

#[test]
fn event_method_carries_message_doc() {
    let mut e = event(vec![("A", WinType::UInt32)]);
    e.message = Some("Hello %1 world".into());
    let m = plan_method(&e, "P", quiet()).unwrap();
    // The summary line and resolved message become doc lines with "%1" rewritten to the
    // parameter name
    assert!(m.summary.contains("Writes the"));
    assert_eq!(m.summary, "Writes the `E` event.");
    assert_eq!(m.message_doc.as_deref(), Some("> Hello {a} world"));
    assert_eq!(m.name, "e");
    assert_eq!(m.helper, "__write_q");
}

#[test]
fn ignored_event_errors_generate_unit_returning_method() {
    let e = event(vec![("A", WinType::UInt32)]);
    let policy = EventPolicy { errors: EventErrors::Ignore, ..quiet() };
    let m = plan_method(&e, "P", policy).unwrap();

    assert_eq!(m.name, "e");
    // The method returns unit and discards the errors that it does not panic on
    assert!(m.returns_unit);
    assert_eq!(m.input_handler, ErrorHandler::Fallback);
    assert_eq!(m.write_handler, ErrorHandler::Fallback);
    assert_eq!(m.prevalidation, None);
    assert_eq!(m.message_doc, None);

    let propagating = plan_method(&e, "P", quiet()).unwrap();
    assert!(!propagating.returns_unit);
}

#[test]
fn panic_policy_distinguishes_input_and_write_errors() {
    let e = event(vec![("A", WinType::UInt32)]);
    let input_policy = EventPolicy {
        errors: EventErrors::Ignore,
        input_panics: PanicPolicy { enabled: true, when: Some(0) },
        write_panics: PanicPolicy { enabled: false, when: None },
    };
    let m = plan_method(&e, "P", input_policy).unwrap();
    assert_eq!(m.input_handler, ErrorHandler::PanicWhen(0));
    assert_eq!(m.write_handler, ErrorHandler::Fallback);

    let write_policy = EventPolicy {
        errors: EventErrors::Ignore,
        input_panics: PanicPolicy { enabled: false, when: None },
        write_panics: PanicPolicy { enabled: true, when: Some(1) },
    };
    let m = plan_method(&e, "P", write_policy).unwrap();
    assert_eq!(m.input_handler, ErrorHandler::Fallback);
    assert_eq!(m.write_handler, ErrorHandler::PanicWhen(1));

    assert_eq!(
        event_error_handler(PanicPolicy { enabled: true, when: None }),
        ErrorHandler::Panic
    );
    assert_eq!(
        event_error_handler(PanicPolicy { enabled: false, when: Some(3) }),
        ErrorHandler::Fallback
    );
}

#[test]
fn prevalidation_runs_only_for_checked_fields_under_an_input_panic() {
    let e = event(vec![("Name", WinType::UnicodeString(Length::Constant(4)))]);
    let policy = EventPolicy {
        errors: EventErrors::Propagate,
        input_panics: PanicPolicy { enabled: true, when: Some(2) },
        write_panics: PanicPolicy { enabled: false, when: None },
    };
    assert_eq!(plan_method(&e, "P", policy).unwrap().prevalidation, Some(Some(2)));
    let plain = event(vec![("A", WinType::UInt32)]);
    assert_eq!(plan_method(&plain, "P", policy).unwrap().prevalidation, None);
    assert_eq!(plan_method(&e, "P", quiet()).unwrap().prevalidation, None);
}

#[test]
fn render_message_rewrites_placeholders() {
    let refs = vec!["version".to_string(), "worker_count".to_string()];
    assert_eq!(
        render_message("Started %1 with %2 workers", &refs),
        "Started {version} with {worker_count} workers"
    );
    // "%%" collapses to "%", an out-of-range placeholder remains literal text
    assert_eq!(render_message("100%% done %9", &refs), "100% done %9");
    // A digit run too long for usize is out of range like any other
    assert_eq!(
        render_message("%99999999999999999999999999 done", &refs),
        "%99999999999999999999999999 done"
    );
    // An "!..!" format specifier after the number is dropped
    assert_eq!(render_message("%1!s! done", &refs), "{version} done");
    // A hidden length field surfaces as blob.len
    let len_refs = vec!["blob.len".to_string(), "blob".to_string()];
    assert_eq!(
        render_message("%1 bytes in %2", &len_refs),
        "{blob.len} bytes in {blob}"
    );
}

#[test]
fn render_message_escapes_markdown() {
    let refs = vec!["x".to_string()];
    // Inline formatting characters are escaped, incidental "(" and ")" characters are not
    // and the inserted "{...}" field reference is emitted verbatim
    assert_eq!(
        render_message("*b* _u_ [l](h) <t> %1", &refs),
        "\\*b\\* \\_u\\_ \\[l\\](h) \\<t> {x}"
    );
}

#[test]
fn render_message_keeps_lone_percent_and_zero_placeholder() {
    let refs = vec!["x".to_string()];
    assert_eq!(render_message("50% of %a", &refs), "50% of %a");
    assert_eq!(render_message("%0 and %", &refs), "%0 and %");
    assert_eq!(render_message("%1!unterminated", &refs), "{x}!unterminated");
    assert_eq!(render_message("", &refs), "");
}

#[test]
fn fieldref_hides_and_derives_length() {
    let e = event(vec![
        ("BlobSize", WinType::UInt32),
        ("Blob", WinType::Binary(Length::FieldRef("BlobSize".into()))),
    ]);
    let plans = plan(&e).unwrap();
    // BlobSize is hidden and derived with a temporary before the call
    assert!(plans.plans[0].param.is_none(), "BlobSize should be hidden");
    assert!(plans.plans[0].temp.is_some(), "BlobSize should be derived");
    assert_eq!(plans.plans[0].call, CallArg::Field(0));
    assert!(plans.idents[0].starts_with("__len"));
    // Blob stays exposed
    assert!(plans.plans[1].param.is_some());
    assert_eq!(exposed_count(&plans), 1);
    assert_eq!(plans.roles[0], FieldRole::Derived(DerivedPlan::BinaryLength { from: 1 }));
}

#[test]
fn fieldref_length_keeps_scalar_strings_at_the_declared_width() {
    for (win_type, encoder) in [
        (
            WinType::UnicodeString(Length::FieldRef("NameLength".into())),
            EncodeFn::U16CStringFixedLen,
        ),
        (
            WinType::AnsiString(Length::FieldRef("NameLength".into()), AnsiEncoding::Utf8),
            EncodeFn::CStringFixedLen,
        ),
    ] {
        let e = event(vec![("NameLength", WinType::UInt16), ("Name", win_type)]);
        let plans = plan(&e).unwrap();
        // Unlike a binary length, a string length sets the field width rather than being
        // derived from the value, so it stays a parameter
        assert!(plans.plans[0].param.is_some(), "NameLength should stay exposed");
        assert!(plans.plans[0].temp.is_none());
        assert_eq!(exposed_count(&plans), 2);
        let temp = plans.plans[1].temp.expect("expected a fixed-length temp");
        match temp {
            Temp::Encode { func, width, .. } => {
                assert_eq!(func, encoder);
                assert_eq!(width, Some(etw_wrapper::plan::Width::Field(0)));
            }
            other => panic!("unexpected temp {other:?}"),
        }
        assert_eq!(plans.idents[0], "name_length");
    }
}

#[test]
fn fieldref_length_checks_caller_encoded_scalar_strings() {
    let e = event(vec![
        ("NameLength", WinType::UInt16),
        (
            "Name",
            WinType::AnsiString(Length::FieldRef("NameLength".into()), AnsiEncoding::ProviderAnsi),
        ),
    ]);
    let plans = plan(&e).unwrap();
    // Provider-ANSI bytes arrive already encoded, so the width is validated instead
    assert!(plans.plans[1].temp.is_none());
    let validation = plans.plans[1].validation.expect("expected a length check");
    assert_eq!(validation, Check::AnsiInput { input: 1, width: Some(0) });
    assert_eq!(plans.idents[0], "name_length");
}

#[test]
fn fieldref_length_on_a_scalar_string_validates_its_target() {
    let e = event(vec![(
        "Name",
        WinType::UnicodeString(Length::FieldRef("Nope".into())),
    )]);
    assert!(plan(&e).is_err(), "unknown length field should be rejected");

    let e = event(vec![
        (
            "Name",
            WinType::UnicodeString(Length::FieldRef("NameLength".into())),
        ),
        ("NameLength", WinType::UInt16),
    ]);
    assert!(plan(&e).is_err(), "forward reference should be rejected");
}

#[test]
fn constant_binary_becomes_fixed_array() {
    let e = event(vec![("Blob", WinType::Binary(Length::Constant(16)))]);
    let plans = plan(&e).unwrap();
    let ty = plans.plans[0].param.expect("Blob should be exposed");
    assert_eq!(ty, RustTy::Array(ElemTy::Scalar(ScalarTy::U8), 16));
    assert!(plans.plans[0].temp.is_none());
}

#[test]
fn constant_unicode_becomes_fixed_len() {
    let e = event(vec![("Name", WinType::UnicodeString(Length::Constant(4)))]);
    let plans = plan(&e).unwrap();
    let ty = plans.plans[0].param.expect("Name should be exposed");
    assert_eq!(ty, RustTy::Value(ElemTy::Str));
    // A fixed-length temporary is emitted and passed in place of the raw parameter
    let temp = plans.plans[0].temp.expect("expected a fixed-length temp");
    assert!(matches!(temp, Temp::Encode { func: EncodeFn::U16CStringFixedLen, .. }));
    assert_eq!(plans.plans[0].call, CallArg::Temp(0));
}

#[test]
fn utf8_ansi_string_is_converted() {
    let e = event(vec![(
        "Name",
        WinType::AnsiString(Length::Implicit, AnsiEncoding::Utf8),
    )]);
    let plans = plan(&e).unwrap();
    let ty = plans.plans[0].param.expect("Name should be exposed");
    assert_eq!(ty, RustTy::Value(ElemTy::Str));
    let temp = plans.plans[0].temp.expect("expected a UTF-8 temp");
    assert!(matches!(temp, Temp::Encode { func: EncodeFn::CString, .. }));
    assert_eq!(plans.plans[0].call, CallArg::Temp(0));
}

#[test]
fn provider_ansi_string_remains_encoded_bytes() {
    let e = event(vec![(
        "Name",
        WinType::AnsiString(Length::Implicit, AnsiEncoding::ProviderAnsi),
    )]);
    let plans = plan(&e).unwrap();
    let ty = plans.plans[0].param.expect("Name should be exposed");
    assert_eq!(ty, RustTy::Slice(ElemTy::Scalar(ScalarTy::U8)));
    assert!(plans.plans[0].temp.is_none());
}

#[test]
fn constant_provider_ansi_becomes_fixed_byte_array() {
    let e = event(vec![(
        "Name",
        WinType::AnsiString(Length::Constant(4), AnsiEncoding::ProviderAnsi),
    )]);
    let plans = plan(&e).unwrap();
    let ty = plans.plans[0].param.expect("Name should be exposed");
    assert_eq!(ty, RustTy::Array(ElemTy::Scalar(ScalarTy::U8), 4));
    assert!(plans.plans[0].temp.is_none());
}

#[test]
fn constant_utf8_ansi_becomes_fixed_len() {
    let e = event(vec![(
        "Name",
        WinType::AnsiString(Length::Constant(4), AnsiEncoding::Utf8),
    )]);
    let plans = plan(&e).unwrap();
    let ty = plans.plans[0].param.expect("Name should be exposed");
    assert_eq!(ty, RustTy::Value(ElemTy::Str));
    let temp = plans.plans[0].temp.expect("expected a fixed-length ANSI temp");
    assert!(matches!(temp, Temp::Encode { func: EncodeFn::CStringFixedLen, .. }));
    assert_eq!(plans.plans[0].call, CallArg::Temp(0));
}

#[test]
fn fieldref_unknown_target_errors() {
    let e = event(vec![(
        "Blob",
        WinType::Binary(Length::FieldRef("Nope".into())),
    )]);
    assert!(plan(&e).is_err());
}

#[test]
fn fieldref_forward_reference_errors() {
    let e = event(vec![
        ("Blob", WinType::Binary(Length::FieldRef("BlobSize".into()))),
        ("BlobSize", WinType::UInt32),
    ]);
    assert!(plan(&e).is_err());
}

#[test]
fn fieldref_non_integer_length_errors() {
    let e = event(vec![
        ("NotAnInt", WinType::Float),
        ("Blob", WinType::Binary(Length::FieldRef("NotAnInt".into()))),
    ]);
    assert!(plan(&e).is_err());
}

#[test]
fn fieldref_64_bit_length_errors() {
    for ty in [WinType::UInt64, WinType::HexInt64] {
        let e = event(vec![
            ("TooWide", ty),
            ("Blob", WinType::Binary(Length::FieldRef("TooWide".into()))),
        ]);
        assert!(plan(&e).is_err());
    }
}

#[test]
fn fieldref_shared_by_two_blobs_errors() {
    let e = event(vec![
        ("Size", WinType::UInt32),
        ("A", WinType::Binary(Length::FieldRef("Size".into()))),
        ("B", WinType::Binary(Length::FieldRef("Size".into()))),
    ]);
    assert!(plan(&e).is_err());
}

#[test]
fn fixed_count_scalar_becomes_array_reference() {
    let mut e = event(vec![("Values", WinType::UInt32)]);
    e.params[0].count = Count::Constant(3);

    let plans = plan(&e).unwrap();
    let ty = plans.plans[0].param.expect("Values should be exposed");
    assert_eq!(ty, RustTy::Array(ElemTy::Scalar(ScalarTy::U32), 3));
    assert!(plans.plans[0].temp.is_none());
}

#[test]
fn value_plan_keeps_array_dimensions_orthogonal() {
    let mut e = event(vec![("Names", WinType::UnicodeString(Length::Constant(4)))]);
    e.params[0].count = Count::Constant(2);

    let value = build_value_plan(&e, "P", 0).unwrap();

    assert!(matches!(value.cardinality, Cardinality::Fixed(2)));
    assert!(matches!(
        value.kind,
        ValueKind::String {
            encoding: StringEncoding::Unicode,
            length: ElementLength::Fixed(4),
        }
    ));
}

#[test]
fn implicit_binary_array_must_declare_a_length() {
    let mut e = event(vec![("Blobs", WinType::Binary(Length::Implicit))]);
    e.params[0].count = Count::Constant(2);
    assert!(build_value_plan(&e, "P", 0).is_err());
}

#[test]
fn count_field_is_hidden_and_derived() {
    let mut e = event(vec![
        ("ValueCount", WinType::UInt16),
        ("Values", WinType::UInt32),
    ]);
    e.params[1].count = Count::FieldRef("ValueCount".into());

    let plans = plan(&e).unwrap();
    assert!(plans.plans[0].param.is_none(), "ValueCount should be hidden");
    assert!(plans.plans[0].temp.is_some(), "ValueCount should be derived");
    let ty = plans.plans[1].param.expect("Values should be exposed");
    assert_eq!(ty, RustTy::Slice(ElemTy::Scalar(ScalarTy::U32)));
    assert!(plans.idents[0].starts_with("__count"));
}

#[test]
fn shared_count_field_checks_array_lengths() {
    let mut e = event(vec![
        ("ValueCount", WinType::UInt16),
        ("Primary", WinType::UInt32),
        ("Secondary", WinType::UInt16),
    ]);
    e.params[1].count = Count::FieldRef("ValueCount".into());
    e.params[2].count = Count::FieldRef("ValueCount".into());

    let plans = plan(&e).unwrap();
    let temp = plans.plans[0].temp.expect("ValueCount should be derived");
    assert!(matches!(temp, Temp::DerivedCount { field: 0, .. }));
    // Both counted arrays are checked against each other before the count is derived
    assert_eq!(plans.roles[0], FieldRole::Derived(DerivedPlan::ArrayCount { from: vec![1, 2] }));
    assert_eq!(exposed_count(&plans), 2);
}

#[test]
fn count_field_reference_is_validated() {
    let mut unknown = event(vec![("Values", WinType::UInt32)]);
    unknown.params[0].count = Count::FieldRef("Missing".into());
    assert!(plan(&unknown).is_err());

    let mut forward = event(vec![
        ("Values", WinType::UInt32),
        ("ValueCount", WinType::UInt16),
    ]);
    forward.params[0].count = Count::FieldRef("ValueCount".into());
    assert!(plan(&forward).is_err());

    let mut non_integer = event(vec![
        ("ValueCount", WinType::Float),
        ("Values", WinType::UInt32),
    ]);
    non_integer.params[1].count = Count::FieldRef("ValueCount".into());
    assert!(plan(&non_integer).is_err());
}

#[test]
fn colliding_parameter_names_are_rejected() {
    let e = event(vec![("Worker-Count", WinType::UInt32), ("worker_count", WinType::UInt32)]);
    assert!(plan(&e).is_err());
}

#[test]
fn backing_helpers_are_named_by_field_kinds() {
    let e = event(vec![
        ("A", WinType::UInt32),
        ("B", WinType::UnicodeString(Length::Implicit)),
        ("C", WinType::Boolean),
    ]);
    let specs: Vec<_> = e.params.iter().map(classify).collect();
    assert_eq!(backing_name(&specs), "__write_qzt");
    assert_eq!(backing_name(&[]), "__write");
}

#[test]
fn provider_plan_names_struct_methods_and_helpers() {
    let p = Provider {
        symbol: "PROVIDER_WIDGETSERVICE".into(),
        guid: 7,
        events: vec![
            named_event("SERVICE_STARTED", vec![("Version", WinType::UInt32)]),
            named_event("REQUEST_FAILED", vec![("Status", WinType::UInt32)]),
            named_event("SHUTDOWN", vec![]),
        ],
    };
    let plan = plan_provider(&p, None, quiet()).unwrap();
    assert_eq!(plan.struct_name, "ProviderWidgetserviceLogger");
    assert_eq!(plan.guid, 7);
    let names: Vec<&str> = plan.methods.iter().map(|m| m.name.as_str()).collect();
    assert_eq!(names, ["service_started", "request_failed", "shutdown"]);
    // One helper per distinct signature, ordered by name, each named by its first user
    let helpers: Vec<&str> = plan.helpers.iter().map(|&i| plan.methods[i].helper.as_str()).collect();
    assert_eq!(helpers, ["__write", "__write_q"]);
    assert_eq!(plan.helpers, vec![2, 0]);

    let renamed = plan_provider(&p, Some("WidgetLogger"), quiet()).unwrap();
    assert_eq!(renamed.struct_name, "WidgetLogger");
}

#[test]
fn colliding_method_names_are_rejected() {
    let p = Provider {
        symbol: "P".into(),
        guid: 0,
        events: vec![named_event("DoThing", vec![]), named_event("DO_THING", vec![])],
    };
    let err = plan_provider(&p, None, quiet()).unwrap_err();
    assert_eq!(
        err.message(),
        "event name DO_THING collides with DoThing in provider P (both transform to: do_thing)"
    );
}

#[test]
fn overrides_must_match_a_provider_and_name_it_once() {
    let man = Manifest {
        providers: vec![
            Provider { symbol: "PROVIDER_A".into(), guid: 1, events: vec![] },
            Provider { symbol: "PROVIDER_B".into(), guid: 2, events: vec![] },
        ],
    };
    let overrides = vec![NameOverride { key: "PROVIDER_B".into(), name: "Second".into() }];
    let plans = plan_wrapper(&man, &overrides, quiet()).unwrap();
    assert_eq!(plans.len(), 2);
    assert_eq!(plans[0].struct_name, "ProviderALogger");
    assert_eq!(plans[1].struct_name, "Second");

    let duplicated = vec![
        NameOverride { key: "PROVIDER_A".into(), name: "First".into() },
        NameOverride { key: "PROVIDER_B".into(), name: "Other".into() },
        NameOverride { key: "PROVIDER_A".into(), name: "Again".into() },
    ];
    assert_eq!(
        plan_wrapper(&man, &duplicated, quiet()).unwrap_err(),
        WrapperError::DuplicateOverride {
            index: 2,
            message: "duplicate name override for provider symbol \"PROVIDER_A\"".into(),
        }
    );

    let unmatched = vec![
        NameOverride { key: "PROVIDER_A".into(), name: "A".into() },
        NameOverride { key: "Contoso.Missing".into(), name: "B".into() },
        NameOverride { key: "PROVIDER_A".into(), name: "C".into() },
    ];
    assert_eq!(
        plan_wrapper(&man, &unmatched, quiet()).unwrap_err(),
        WrapperError::UnmatchedOverride {
            index: 1,
            message: "name override \"Contoso.Missing\" does not match any provider symbol in the manifest".into(),
        }
    );
}

#[test]
fn constant_zero_length_strings_are_rejected() {
    let unicode = event(vec![("Name", WinType::UnicodeString(Length::Constant(0)))]);
    assert_eq!(
        plan(&unicode).unwrap_err().message(),
        "string field Name in event E of provider P declares a constant length of 0"
    );
    let ansi = event(vec![("Name", WinType::AnsiString(Length::Constant(0), AnsiEncoding::Utf8))]);
    assert_eq!(
        build_value_plan(&ansi, "P", 0).unwrap_err().message(),
        "string field Name in event E of provider P declares a constant length of 0"
    );
    let binary = event(vec![("Blob", WinType::Binary(Length::Constant(0)))]);
    assert!(plan(&binary).is_ok());
    let one = event(vec![("Name", WinType::UnicodeString(Length::Constant(1)))]);
    assert!(plan(&one).is_ok());
}

#[test]
fn safe_ident_from_escapes_by_the_parser_answer() {
    assert_eq!(safe_ident_from("type", false), "r#type");
    assert_eq!(safe_ident_from("type", true), "type");
    assert_eq!(safe_ident_from("self", false), "self_");
    assert_eq!(safe_ident_from("_", true), "__");
    assert_eq!(safe_ident_from("version", true), "version");
}

#[test]
fn wrapper_planning_reports_the_first_provider_that_fails() {
    let man = Manifest {
        providers: vec![
            Provider { symbol: "PROVIDER_A".into(), guid: 1, events: vec![named_event("OK", vec![])] },
            Provider {
                symbol: "PROVIDER_B".into(),
                guid: 2,
                events: vec![named_event("Same", vec![]), named_event("SAME", vec![])],
            },
        ],
    };
    match plan_wrapper(&man, &[], quiet()) {
        Err(WrapperError::Manifest(e)) => assert_eq!(
            e.message(),
            "event name SAME collides with Same in provider PROVIDER_B (both transform to: same)"
        ),
        other => panic!("unexpected result {other:?}"),
    }
}

#[test]
fn invalid_length_references_name_the_field_and_the_event() {
    let unknown = event(vec![("Blob", WinType::Binary(Length::FieldRef("Nope".into())))]);
    assert_eq!(
        plan(&unknown).unwrap_err().message(),
        "binary field Blob in event E of provider P references unknown length field \"Nope\""
    );
    let forward = event(vec![
        ("Blob", WinType::Binary(Length::FieldRef("BlobSize".into()))),
        ("BlobSize", WinType::UInt32),
    ]);
    assert_eq!(
        plan(&forward).unwrap_err().message(),
        "binary field Blob in event E of provider P references length field \"BlobSize\", which must appear before it"
    );
    let wide = event(vec![
        ("NotAnInt", WinType::Float),
        ("Blob", WinType::Binary(Length::FieldRef("NotAnInt".into()))),
    ]);
    assert_eq!(
        plan(&wide).unwrap_err().message(),
        "length field \"NotAnInt\" for binary field Blob in event E of provider P must be a scalar win:UInt8, win:UInt16, win:UInt32, or win:HexInt32"
    );
    let string = event(vec![("Name", WinType::UnicodeString(Length::FieldRef("Nope".into())))]);
    assert_eq!(
        plan(&string).unwrap_err().message(),
        "string field Name in event E of provider P references unknown length field \"Nope\""
    );
    let mut blobs = event(vec![("Blobs", WinType::Binary(Length::Implicit))]);
    blobs.params[0].count = Count::Constant(2);
    assert_eq!(
        build_value_plan(&blobs, "P", 0).unwrap_err().message(),
        "binary array field Blobs in event E of provider P must declare a length"
    );
}

#[test]
fn ordinary_ascii_names_pass_through_safe_ident() {
    assert_eq!(safe_ident("version"), "version");
    assert_eq!(safe_ident("worker_count"), "worker_count");
    assert_eq!(safe_ident("union"), "union");
    assert_eq!(safe_ident("_private"), "__private");
    assert_eq!(safe_ident("yield"), "r#yield");
    assert_eq!(safe_ident("super"), "super_");
}
