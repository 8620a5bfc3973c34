use etw_wrapper::model::{resolve_event, NameTable, ProviderLookupTables};
use etw_wrapper::eventman::{
    KeywordListType, KeywordType,
    DataType, EventDefinitionListType, EventDefinitionType, EventsType, InstrumentationManifest,
    InstrumentationType, LevelListType, LevelType, LocalizationType, ProviderType, ResourcesType,
    StringTableType, StringType, TemplateListType, TemplateType,
};
use etw_wrapper::model::{
    build_message_table, resolve, template_data_to_types, AnsiEncoding, Count, Length, WinType,
};
use etw_wrapper::numbers::{parse_guid, parse_int, IntError};

fn data(name: &str, in_type: &str) -> DataType {
    DataType {
        name: name.into(),
        in_type: in_type.into(),
        out_type: None,
        length: None,
        count: None,
    }
}

fn event_definition(value: &str) -> EventDefinitionType {
    EventDefinitionType {
        value: value.into(),
        symbol: None,
        version: None,
        channel: None,
        level: None,
        opcode: None,
        task: None,
        keyword: None,
        template: None,
        message: None,
    }
}

fn provider(symbol: &str, events: Vec<EventDefinitionType>) -> ProviderType {
    ProviderType {
        name: "Contoso-Test".into(),
        guid: "{11111111-2222-3333-4444-555555555555}".into(),
        symbol: symbol.into(),
        channels: None,
        levels: None,
        keywords: None,
        opcodes: None,
        tasks: None,
        templates: None,
        events: Some(EventDefinitionListType { event: events }),
    }
}

fn manifest(providers: Vec<ProviderType>, localization: Option<LocalizationType>) -> InstrumentationManifest {
    InstrumentationManifest {
        instrumentation: InstrumentationType {
            events: EventsType { provider: providers },
        },
        localization,
    }
}

#[test]
fn parses_guid_from_string() {
    let g = parse_guid("{8B3A1F42-6C7D-4E9A-9F21-3D5E0A7C1B84}").unwrap();
    assert_eq!(g, 0x8B3A1F42_6C7D_4E9A_9F21_3D5E0A7C1B84);
}

#[test]
fn guid_needs_exactly_32_hex_digits() {
    assert_eq!(parse_guid("{8B3A1F42-6C7D-4E9A-9F21-3D5E0A7C1B8}"), None);
    assert_eq!(parse_guid("{8B3A1F42-6C7D-4E9A-9F21-3D5E0A7C1B845}"), None);
    assert_eq!(parse_guid("00000000000000000000000000000001"), Some(1));
}

#[test]
fn parses_decimal_and_hex_integers() {
    assert_eq!(parse_int("42", 255), Ok(42));
    assert_eq!(parse_int(" 0x10 ", 255), Ok(16));
    assert_eq!(parse_int("0XfF", 255), Ok(255));
    assert_eq!(parse_int("256", 255), Err(IntError::OutOfRange));
    assert_eq!(parse_int("12a", 255), Err(IntError::Invalid));
    assert_eq!(parse_int("", 255), Err(IntError::Invalid));
    assert_eq!(parse_int("0x", 255), Err(IntError::Invalid));
}

#[test]
fn resolves_hex_event_value_and_version() {
    let mut hex = event_definition("0x10");
    hex.version = Some("0x2".into());
    hex.symbol = Some("HEX_EVENT".into());
    let man = manifest(vec![provider("PROVIDER_HEX", vec![hex])], None);

    let resolved = resolve(&man).unwrap();
    let event = &resolved.providers[0].events[0];

    assert_eq!(event.id, 0x10);
    assert_eq!(event.version, 0x2);
}

#[test]
fn resolves_provider_guid_symbol_and_event_defaults() {
    let man = manifest(vec![provider("PROVIDER_TEST", vec![event_definition("7")])], None);
    let resolved = resolve(&man).unwrap();
    assert_eq!(resolved.providers.len(), 1);
    let p = &resolved.providers[0];
    assert_eq!(p.symbol, "PROVIDER_TEST");
    assert_eq!(p.guid, 0x11111111_2222_3333_4444_555555555555);
    let e = &p.events[0];
    assert_eq!(e.symbol, "Event7");
    assert_eq!((e.id, e.version, e.level, e.opcode, e.task, e.keyword, e.channel), (7, 0, 0, 0, 0, 0, 0));
    assert!(e.params.is_empty());
    assert_eq!(e.message, None);
}

#[test]
fn resolves_levels_templates_and_messages() {
    let mut p = provider("PROVIDER_TEST", vec![]);
    p.levels = Some(LevelListType {
        level: vec![LevelType { name: "custom:Chatty".into(), value: "16".into() }],
    });
    p.templates = Some(TemplateListType {
        template: vec![TemplateType {
            tid: "T".into(),
            data: vec![data("Version", "win:UnicodeString"), data("WorkerCount", "win:UInt32")],
        }],
    });
    let mut started = event_definition("1");
    started.symbol = Some("SERVICE_STARTED".into());
    started.level = Some("win:Informational".into());
    started.template = Some("T".into());
    started.message = Some("$(string.Started)".into());
    let mut chatty = event_definition("2");
    chatty.level = Some("custom:Chatty".into());
    p.events = Some(EventDefinitionListType { event: vec![started, chatty] });
    let loc = LocalizationType {
        resources: vec![ResourcesType {
            culture: "en-US".into(),
            string_table: Some(StringTableType {
                string: vec![StringType {
                    id: "Started".into(),
                    value: "WidgetService %1 started with %2 workers.".into(),
                }],
            }),
        }],
    };
    let resolved = resolve(&manifest(vec![p], Some(loc))).unwrap();
    let events = &resolved.providers[0].events;
    assert_eq!(events[0].level, 4);
    assert_eq!(events[0].params.len(), 2);
    assert_eq!(events[0].params[0].win_type, WinType::UnicodeString(Length::Implicit));
    assert_eq!(events[0].params[1].win_type, WinType::UInt32);
    assert_eq!(
        events[0].message.as_deref(),
        Some("WidgetService %1 started with %2 workers.")
    );
    assert_eq!(events[1].level, 16);
}

#[test]
fn rejects_unknown_level_reference() {
    let mut e = event_definition("1");
    e.level = Some("custom:Missing".into());
    let man = manifest(vec![provider("PROVIDER_TEST", vec![e])], None);
    assert!(resolve(&man).is_err());
}

#[test]
fn rejects_malformed_provider_guid() {
    let mut p = provider("PROVIDER_TEST", vec![]);
    p.guid = "{1234}".into();
    assert!(resolve(&manifest(vec![p], None)).is_err());
}

#[test]
fn picks_english_culture() {
    let string = |id: &str, value: &str| StringType {
        id: id.into(),
        value: value.into(),
    };
    let res = |culture: &str, id: &str, value: &str| ResourcesType {
        culture: culture.into(),
        string_table: Some(StringTableType {
            string: vec![string(id, value)],
        }),
    };
    // de-DE first and en-US second, en-US must still win
    let loc = LocalizationType {
        resources: vec![
            res("de-DE", "Event.X", "German"),
            res("en-US", "Event.X", "English"),
        ],
    };
    let table = build_message_table(Some(&loc));
    assert_eq!(table.lookup("Event.X").map(String::as_str), Some("English"));

    // No English is available, fall back to the first block
    let loc = LocalizationType {
        resources: vec![
            res("fr-FR", "Event.X", "French"),
            res("de-DE", "Event.X", "German"),
        ],
    };
    let table = build_message_table(Some(&loc));
    assert_eq!(table.lookup("Event.X").map(String::as_str), Some("French"));
}

#[test]
fn prefers_en_us_over_other_english_cultures() {
    let res = |culture: &str, value: &str| ResourcesType {
        culture: culture.into(),
        string_table: Some(StringTableType {
            string: vec![StringType { id: "X".into(), value: value.into() }],
        }),
    };
    let loc = LocalizationType {
        resources: vec![res("fr-FR", "French"), res("en-GB", "British"), res("EN-us", "American")],
    };
    let table = build_message_table(Some(&loc));
    assert_eq!(table.lookup("X").map(String::as_str), Some("American"));

    let loc = LocalizationType {
        resources: vec![res("fr-FR", "French"), res("en-GB", "British")],
    };
    let table = build_message_table(Some(&loc));
    assert_eq!(table.lookup("X").map(String::as_str), Some("British"));

    let table = build_message_table(None);
    assert_eq!(table.lookup("X"), None);
}

#[test]
fn resolves_ansi_encoding_from_out_type() {
    let field = |out_type: Option<&str>| DataType {
        name: "Text".into(),
        in_type: "win:AnsiString".into(),
        out_type: out_type.map(str::to_owned),
        length: None,
        count: None,
    };

    let default = template_data_to_types(&[field(None)]).unwrap();
    assert_eq!(
        default[0].win_type,
        WinType::AnsiString(Length::Implicit, AnsiEncoding::ProviderAnsi)
    );

    for out_type in ["win:Utf8", "win:Json", "win:Xml"] {
        let resolved = template_data_to_types(&[field(Some(out_type))]).unwrap();
        assert_eq!(
            resolved[0].win_type,
            WinType::AnsiString(Length::Implicit, AnsiEncoding::Utf8)
        );
    }
}

#[test]
fn rejects_unsupported_ansi_out_type() {
    let field = DataType {
        name: "Text".into(),
        in_type: "win:AnsiString".into(),
        out_type: Some("win:HexInt32".into()),
        length: None,
        count: None,
    };

    assert!(template_data_to_types(&[field]).is_err());
}

#[test]
fn rejects_unknown_in_type() {
    assert!(template_data_to_types(&[data("X", "win:Nope")]).is_err());
}

#[test]
fn resolves_constant_and_referenced_lengths() {
    let mut fixed = data("Name", "win:UnicodeString");
    fixed.length = Some("16".into());
    let mut referenced = data("Blob", "win:Binary");
    referenced.length = Some("BlobSize".into());
    let resolved = template_data_to_types(&[fixed, referenced]).unwrap();
    assert_eq!(resolved[0].win_type, WinType::UnicodeString(Length::Constant(16)));
    assert_eq!(
        resolved[1].win_type,
        WinType::Binary(Length::FieldRef("BlobSize".into()))
    );
}

#[test]
fn resolves_fixed_and_field_reference_array_counts() {
    let field = |name: &str, count: Option<&str>| DataType {
        name: name.into(),
        in_type: "win:UInt32".into(),
        out_type: None,
        length: None,
        count: count.map(str::to_owned),
    };

    let resolved = template_data_to_types(&[
        field("Single", None),
        field("Fixed", Some("3")),
        field("Variable", Some("ElementCount")),
    ])
    .unwrap();

    assert_eq!(resolved[0].count, Count::Single);
    assert_eq!(resolved[1].count, Count::Constant(3));
    assert_eq!(resolved[2].count, Count::FieldRef("ElementCount".into()));
}

#[test]
fn rejects_out_of_range_fixed_array_count() {
    let field = DataType {
        name: "Values".into(),
        in_type: "win:UInt32".into(),
        out_type: None,
        length: None,
        count: Some("65536".into()),
    };

    let err = template_data_to_types(&[field]).unwrap_err();
    assert!(
        err.message().contains("array count \"65536\" is not a u16"),
        "{}",
        err.message()
    );
}

#[test]
fn rejected_fields_report_their_name_and_reason() {
    assert_eq!(
        template_data_to_types(&[data("X", "win:Nope")]).unwrap_err().message(),
        "Unknown type win:Nope"
    );
    let mut ansi = data("Text", "win:AnsiString");
    ansi.out_type = Some("win:HexInt32".into());
    assert_eq!(
        template_data_to_types(&[ansi]).unwrap_err().message(),
        "field Text: unsupported outType \"win:HexInt32\" for win:AnsiString"
    );
    let mut blank = data("Values", "win:UInt32");
    blank.count = Some("  ".into());
    assert_eq!(
        template_data_to_types(&[blank]).unwrap_err().message(),
        "field Values: array count \"  \" is not a u16: cannot parse integer from empty string"
    );
}

#[test]
fn undefined_references_name_the_event_and_the_reference() {
    let table: etw_wrapper::model::NameTable<u8> = etw_wrapper::model::NameTable::new();
    let err = etw_wrapper::model::lookup_or_default(
        &table,
        &Some("custom:Missing".to_string()),
        0u8,
        "level",
        &"E".to_string(),
    )
    .unwrap_err();
    assert_eq!(err.message(), "event E references undefined level \"custom:Missing\"");
    assert_eq!(
        etw_wrapper::model::lookup_or_default(&table, &None, 7u8, "level", &"E".to_string()),
        Ok(7)
    );
}

#[test]
fn unresolved_events_report_the_first_failing_attribute() {
    let lookups = ProviderLookupTables {
        levels: NameTable::new(),
        keywords: NameTable::new(),
        opcodes: NameTable::new(),
        tasks: NameTable::new(),
        channels: NameTable::new(),
        templates: NameTable::new(),
    };
    let strings: NameTable<String> = NameTable::new();

    let mut bad_value = event_definition("70000");
    bad_value.version = Some("300".to_string());
    assert_eq!(
        resolve_event(&bad_value, &lookups, &strings).unwrap_err().message(),
        "event value \"70000\" is not a u16: value \"70000\" out of range: out of range integral type conversion attempted"
    );

    let mut bad_version = event_definition("7");
    bad_version.version = Some("300".to_string());
    bad_version.level = Some("win:Nope".to_string());
    assert_eq!(
        resolve_event(&bad_version, &lookups, &strings).unwrap_err().message(),
        "event Event7 version \"300\" is not a u8: value \"300\" out of range: out of range integral type conversion attempted"
    );

    let mut bad_keyword = event_definition("7");
    bad_keyword.symbol = Some("Started".to_string());
    bad_keyword.keyword = Some("Missing".to_string());
    bad_keyword.template = Some("T1".to_string());
    assert_eq!(
        resolve_event(&bad_keyword, &lookups, &strings).unwrap_err().message(),
        "event Started references an undefined keyword in \"Missing\""
    );

    let mut bad_template = event_definition("7");
    bad_template.template = Some("T1".to_string());
    assert_eq!(
        resolve_event(&bad_template, &lookups, &strings).unwrap_err().message(),
        "event Event7 references undefined template \"T1\""
    );

    let ok = resolve_event(&event_definition("7"), &lookups, &strings).unwrap();
    assert_eq!(ok.symbol, "Event7");
    assert_eq!(ok.id, 7);
}

fn resolve_message_of(p: ProviderType) -> String {
    resolve(&manifest(vec![p], None)).unwrap_err().message()
}

#[test]
fn table_errors_name_the_entry_and_the_reason() {
    let std_reason = |text: &str| text.parse::<u64>().unwrap_err().to_string();
    let range_reason = u8::try_from(300u64).unwrap_err().to_string();

    let mut p = provider("PROVIDER_TEST", vec![]);
    p.guid = "{1234}".into();
    assert_eq!(
        resolve_message_of(p),
        "provider Contoso-Test has an invalid guid \"{1234}\": expected 32 hex digits, found 4"
    );

    let mut p = provider("PROVIDER_TEST", vec![]);
    p.levels = Some(LevelListType {
        level: vec![
            LevelType { name: "custom:Ok".into(), value: "16".into() },
            LevelType { name: "custom:Bad".into(), value: "abc".into() },
            LevelType { name: "custom:Worse".into(), value: "".into() },
        ],
    });
    assert_eq!(
        resolve_message_of(p),
        format!("level custom:Bad value \"abc\": invalid integer \"abc\": {}", std_reason("abc"))
    );

    let mut p = provider("PROVIDER_TEST", vec![]);
    p.levels = Some(LevelListType {
        level: vec![LevelType { name: "custom:Hex".into(), value: "0x1G".into() }],
    });
    assert_eq!(
        resolve_message_of(p),
        "level custom:Hex value \"0x1G\": invalid hex \"0x1G\": invalid digit found in string"
    );

    let mut p = provider("PROVIDER_TEST", vec![]);
    p.levels = Some(LevelListType {
        level: vec![LevelType { name: "custom:High".into(), value: " 300 ".into() }],
    });
    assert_eq!(
        resolve_message_of(p),
        format!("level custom:High value \" 300 \": value \"300\" out of range: {range_reason}")
    );

    let mut p = provider("PROVIDER_TEST", vec![]);
    p.levels = Some(LevelListType {
        level: vec![LevelType { name: "custom:Empty".into(), value: "  ".into() }],
    });
    assert_eq!(
        resolve_message_of(p),
        format!("level custom:Empty value \"  \": invalid integer \"\": {}", std_reason(""))
    );

    let mut p = provider("PROVIDER_TEST", vec![]);
    p.keywords = Some(KeywordListType {
        keyword: vec![KeywordType { name: "Big".into(), mask: "99999999999999999999".into() }],
    });
    assert_eq!(
        resolve_message_of(p),
        format!(
            "keyword Big mask \"99999999999999999999\": invalid integer \"99999999999999999999\": {}",
            std_reason("99999999999999999999")
        )
    );

    let mut p = provider("PROVIDER_TEST", vec![]);
    p.templates = Some(TemplateListType {
        template: vec![TemplateType { tid: "T1".into(), data: vec![data("A", "win:Nope")] }],
    });
    assert_eq!(resolve_message_of(p), "template T1: Unknown type win:Nope");
}

#[test]
fn integer_reasons_follow_the_standard_parser() {
    use_reason("+", "invalid integer \"+\"");
    use_reason("0x", "invalid hex \"0x\"");
    use_reason("12a", "invalid integer \"12a\"");
}

fn use_reason(text: &str, prefix: &str) {
    let digits = text.strip_prefix("0x").unwrap_or(text);
    let radix = if digits.len() == text.len() { 10 } else { 16 };
    let reason = u64::from_str_radix(digits, radix).unwrap_err().to_string();
    let mut p = provider("PROVIDER_TEST", vec![]);
    p.levels = Some(LevelListType { level: vec![LevelType { name: "L".into(), value: text.into() }] });
    assert_eq!(
        resolve_message_of(p),
        format!("level L value {text:?}: {prefix}: {reason}")
    );
}
