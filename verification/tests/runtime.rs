use etw_wrapper::context::{
    EtwContext, EVENT_CONTROL_CODE_DISABLE_PROVIDER, EVENT_CONTROL_CODE_ENABLE_PROVIDER,
};
use etw_wrapper::error::{win32_result, Error, ERROR_ARITHMETIC_OVERFLOW, ERROR_INVALID_DATA};
use etw_wrapper::field::{
    bytes, checked_len, ensure_len, ensure_nonzero_length, ensure_nul_terminated,
    ensure_wide_nul_terminated, scalar, slice, str16, str8, to_cstring, to_cstring_fixed_len,
    to_u16cstring, to_u16cstring_fixed_len, uniform_len, EventDataDescriptor, LengthType,
};
use etw_wrapper::types::{EventDescriptor, FileTime, Guid, SystemTime};

// 6ba7b810-9dad-11d1-80b4-00c04fd430c8, the RFC 4122 DNS namespace UUID. Every field differs,
// so a byte-order mistake in `from_u128` cannot go unnoticed.
const SAMPLE: u128 = 0x6ba7b810_9dad_11d1_80b4_00c04fd430c8;

#[test]
fn win32_result_maps_zero_to_success() {
    assert_eq!(win32_result(0), Ok(()));
    assert_eq!(win32_result(5), Err(Error::Windows(5)));
}

#[test]
fn io_error_conversion_preserves_the_win32_code() {
    // ERROR_ACCESS_DENIED
    let io: std::io::Error = Error::Windows(5).into();
    assert_eq!(io.raw_os_error(), Some(5));

    let io: std::io::Error = Error::LengthOverflow.into();
    assert_eq!(io.raw_os_error(), Some(ERROR_ARITHMETIC_OVERFLOW as i32));
}

#[test]
fn windows_errors_display_the_os_message() {
    let message = Error::Windows(5).message();
    assert!(!message.is_empty());
    assert!(!message.contains("Windows"));
}

#[test]
fn validation_errors_have_fixed_messages_and_codes() {
    assert_eq!(
        Error::LengthOverflow.message(),
        "length does not fit in the declared length type"
    );
    assert_eq!(
        Error::LengthMismatch.message(),
        "value length does not match the declared length field"
    );
    assert_eq!(
        Error::MismatchedArrayLengths.message(),
        "array elements sharing a length field have differing lengths"
    );
    assert_eq!(Error::MissingNulTerminator.message(), "string is not NUL terminated");
    assert_eq!(
        Error::EmptyFixedLengthString.message(),
        "fixed-length string has no room for a NUL terminator"
    );
    assert_eq!(Error::LengthOverflow.win32_code(), ERROR_ARITHMETIC_OVERFLOW);
    assert_eq!(Error::LengthMismatch.win32_code(), ERROR_INVALID_DATA);
    assert_eq!(Error::MismatchedArrayLengths.win32_code(), ERROR_INVALID_DATA);
    assert_eq!(Error::MissingNulTerminator.win32_code(), ERROR_INVALID_DATA);
    assert_eq!(Error::EmptyFixedLengthString.win32_code(), ERROR_INVALID_DATA);
    assert_eq!(Error::Windows(1234).win32_code(), 1234);
}

#[test]
fn to_u16cstring_replaces_interior_nul_with_space() {
    assert_eq!(
        to_u16cstring("a\0b"),
        vec![b'a' as u16, b' ' as u16, b'b' as u16, 0]
    );
    assert_eq!(to_u16cstring("hi"), vec![b'h' as u16, b'i' as u16, 0]);
}

#[test]
fn to_u16cstring_encodes_surrogate_pairs() {
    assert_eq!(to_u16cstring("\u{1F600}"), vec![0xD83D, 0xDE00, 0]);
    assert_eq!(to_u16cstring(""), vec![0]);
}

#[test]
fn to_u16cstring_fixed_len_matches_etw_layout() {
    assert_eq!(
        to_u16cstring_fixed_len("hello", 3),
        Ok(vec![b'h' as u16, b'e' as u16, 0])
    );
    assert_eq!(
        to_u16cstring_fixed_len("hello", 10),
        Ok(vec![
            b'h' as u16,
            b'e' as u16,
            b'l' as u16,
            b'l' as u16,
            b'o' as u16,
            b' ' as u16,
            b' ' as u16,
            b' ' as u16,
            b' ' as u16,
            0,
        ])
    );
    assert_eq!(
        to_u16cstring_fixed_len("a\u{1F600}b", 3),
        Ok(vec![b'a' as u16, b' ' as u16, 0])
    );
    assert_eq!(
        to_u16cstring_fixed_len("a\u{1F600}b", 4),
        Ok(vec![b'a' as u16, 0xD83D, 0xDE00, 0])
    );
    assert_eq!(
        to_u16cstring_fixed_len("a\0b", 3),
        Ok(vec![b'a' as u16, b' ' as u16, 0])
    );
    assert_eq!(to_u16cstring_fixed_len("ignored", 1), Ok(vec![0]));
}

#[test]
#[should_panic(expected = "len must include space for the NUL terminator")]
fn to_u16cstring_fixed_len_rejects_zero_length() {
    to_u16cstring_fixed_len("", 0).expect("len must include space for the NUL terminator");
}

#[test]
fn fixed_len_encoders_reject_zero_length_with_an_error() {
    assert_eq!(
        to_u16cstring_fixed_len("abc", 0),
        Err(Error::EmptyFixedLengthString)
    );
    assert_eq!(to_cstring_fixed_len("abc", 0), Err(Error::EmptyFixedLengthString));
}

#[test]
fn to_cstring_replaces_interior_nul_with_space() {
    assert_eq!(to_cstring("a\0b"), b"a b\0");
    assert_eq!(to_cstring("hi"), b"hi\0");
}

#[test]
fn to_cstring_keeps_multibyte_characters() {
    assert_eq!(to_cstring("\u{00E9}"), b"\xC3\xA9\0");
    assert_eq!(to_cstring(""), b"\0");
}

#[test]
fn to_cstring_fixed_len_matches_etw_layout() {
    assert_eq!(to_cstring_fixed_len("hello", 3), Ok(b"he\0".to_vec()));
    assert_eq!(to_cstring_fixed_len("hello", 10), Ok(b"hello    \0".to_vec()));
    assert_eq!(to_cstring_fixed_len("a\u{00E9}b", 3), Ok(b"a \0".to_vec()));
    assert_eq!(to_cstring_fixed_len("a\u{00E9}b", 4), Ok(b"a\xC3\xA9\0".to_vec()));
    assert_eq!(to_cstring_fixed_len("a\0b", 3), Ok(b"a \0".to_vec()));
    assert_eq!(to_cstring_fixed_len("ignored", 1), Ok(b"\0".to_vec()));
}

#[test]
#[should_panic(expected = "len must include space for the NUL terminator")]
fn to_cstring_fixed_len_rejects_zero_length() {
    to_cstring_fixed_len("", 0).expect("len must include space for the NUL terminator");
}

#[test]
fn fixed_len_output_always_has_the_declared_length() {
    for len in 1..12usize {
        for s in ["", "x", "hello world", "a\u{1F600}b", "\u{00E9}\u{00E9}\u{00E9}"] {
            let wide = to_u16cstring_fixed_len(s, len).unwrap();
            assert_eq!(wide.len(), len);
            assert_eq!(wide[len - 1], 0);
            let narrow = to_cstring_fixed_len(s, len).unwrap();
            assert_eq!(narrow.len(), len);
            assert_eq!(narrow[len - 1], 0);
        }
    }
}

#[test]
fn slice_uses_the_full_contiguous_size() {
    let values = [1u32, 2, 3];
    let descriptor = slice(&values);
    assert_eq!(descriptor.size(), 3 * std::mem::size_of::<u32>() as u32);
    assert_eq!(descriptor.ptr(), values.as_ptr() as u64);
}

#[test]
fn scalar_and_bytes_cover_their_values() {
    let value = 7u64;
    assert_eq!(scalar(&value).size(), 8);
    let time = FileTime::default();
    let descriptor = scalar(&time);
    assert_eq!(descriptor.size(), 8);
    let blob = [1u8, 2, 3, 4, 5];
    assert_eq!(bytes(&blob).size(), 5);
    assert_eq!(bytes(&blob).ptr(), blob.as_ptr() as u64);
}

#[test]
fn str8_and_str16_require_a_terminator() {
    assert_eq!(str8(b"ab\0").map(|d| d.size()), Ok(3));
    assert_eq!(str8(b"ab").map(|d| d.size()), Err(Error::MissingNulTerminator));
    assert_eq!(str8(b"").map(|d| d.size()), Err(Error::MissingNulTerminator));
    let wide = to_u16cstring("ab");
    assert_eq!(str16(&wide).map(|d| d.size()), Ok(6));
    assert_eq!(str16(&[0x61, 0x62]).map(|d| d.size()), Err(Error::MissingNulTerminator));
}

#[test]
fn uniform_len_accepts_empty_and_equal_slices() {
    let empty: [&[u8]; 0] = [];
    assert_eq!(uniform_len(&empty).unwrap(), 0);
    assert_eq!(
        uniform_len(&[b"abc".as_slice(), b"def".as_slice()]).unwrap(),
        3
    );
}

#[test]
fn uniform_len_rejects_mixed_lengths() {
    assert!(uniform_len(&[b"a".as_slice(), b"bc".as_slice()]).is_err());
    assert_eq!(
        uniform_len(&[b"a".as_slice(), b"bc".as_slice()]),
        Err(Error::MismatchedArrayLengths)
    );
}

#[test]
fn ensure_len_rejects_mismatches() {
    assert!(ensure_len(3, 3).is_ok());
    assert!(ensure_len(2, 3).is_err());
    assert_eq!(ensure_len(2, 3), Err(Error::LengthMismatch));
}

#[test]
fn checked_len_fits_the_length_type() {
    assert_eq!(checked_len(255, LengthType::U8), Ok(255));
    assert_eq!(checked_len(256, LengthType::U8), Err(Error::LengthOverflow));
    assert_eq!(checked_len(65535, LengthType::U16), Ok(65535));
    assert_eq!(checked_len(65536, LengthType::U16), Err(Error::LengthOverflow));
    assert_eq!(checked_len(65536, LengthType::U32), Ok(65536));
}

#[test]
fn terminator_and_width_checks() {
    assert_eq!(ensure_nul_terminated(b"a\0"), Ok(()));
    assert_eq!(ensure_nul_terminated(b"a"), Err(Error::MissingNulTerminator));
    assert_eq!(ensure_wide_nul_terminated(&[1, 0]), Ok(()));
    assert_eq!(ensure_wide_nul_terminated(&[]), Err(Error::MissingNulTerminator));
    assert_eq!(ensure_nonzero_length(1), Ok(()));
    assert_eq!(ensure_nonzero_length(0), Err(Error::EmptyFixedLengthString));
}

#[test]
fn guid_round_trips_through_u128() {
    for value in [0, u128::MAX, SAMPLE, 1, 1 << 64] {
        assert_eq!(Guid::from_u128(value).to_u128(), value);
    }
}

#[test]
fn guid_debug_uses_the_canonical_text_form() {
    assert_eq!(
        Guid::from_u128(SAMPLE).to_canonical_string(),
        "6BA7B810-9DAD-11D1-80B4-00C04FD430C8"
    );
}

#[test]
fn guid_canonical_text_pads_every_field() {
    assert_eq!(
        Guid::default().to_canonical_string(),
        "00000000-0000-0000-0000-000000000000"
    );
    assert_eq!(
        Guid::from_u128(1).to_canonical_string(),
        "00000000-0000-0000-0000-000000000001"
    );
}

#[test]
fn guid_from_values_matches_from_u128() {
    let expected = Guid::from_u128(SAMPLE);
    let actual = Guid::from_values(
        0x6ba7b810,
        0x9dad,
        0x11d1,
        [0x80, 0xb4, 0x00, 0xc0, 0x4f, 0xd4, 0x30, 0xc8],
    );
    assert_eq!(actual, expected);
}

#[test]
fn guid_default_is_zero() {
    assert_eq!(Guid::default().to_u128(), 0);
    assert_eq!(Guid::default(), Guid::from_values(0, 0, 0, [0; 8]));
}

#[test]
fn value_types_default_to_zero() {
    let d = EventDescriptor::default();
    assert_eq!((d.id, d.version, d.channel, d.level, d.opcode, d.task, d.keyword), (0, 0, 0, 0, 0, 0, 0));
    assert_eq!(FileTime::default(), FileTime { low_date_time: 0, high_date_time: 0 });
    assert_eq!(SystemTime::default().year, 0);
}

#[test]
fn event_data_descriptor_default_selects_the_plain_payload_type() {
    let descriptor = EventDataDescriptor::default();
    assert_eq!(descriptor.reserved(), 0);
}

#[test]
fn new_context_accepts_nothing() {
    let ctx = EtwContext::new();
    assert!(!ctx.enabled(0, 0));
    assert!(!ctx.enabled(5, 1));
    assert!(!ctx.needs_unregister());
}

#[test]
fn enable_sets_the_level_and_keyword_filter() {
    let mut ctx = EtwContext::new();
    ctx.on_control(EVENT_CONTROL_CODE_ENABLE_PROVIDER, 4, 0b0110, 0b0010);
    assert!(ctx.enabled(4, 0));
    assert!(ctx.enabled(2, 0b0010));
    assert!(!ctx.enabled(5, 0));
    // Shares a bit with the any-mask but lacks the all-mask bit
    assert!(!ctx.enabled(4, 0b0100));
    // Has the all-mask bit and shares a bit with the any-mask
    assert!(ctx.enabled(4, 0b0110));
    // Shares no bit with the any-mask
    assert!(!ctx.enabled(4, 0b1000));
}

#[test]
fn level_zero_session_accepts_every_level() {
    let mut ctx = EtwContext::new();
    ctx.on_control(EVENT_CONTROL_CODE_ENABLE_PROVIDER, 0, u64::MAX, 0);
    assert!(ctx.enabled(255, 1));
    assert!(ctx.enabled(1, 0));
}

#[test]
fn disable_clears_the_filter() {
    let mut ctx = EtwContext::new();
    ctx.on_control(EVENT_CONTROL_CODE_ENABLE_PROVIDER, 5, u64::MAX, 0);
    assert!(ctx.enabled(1, 1));
    ctx.on_control(EVENT_CONTROL_CODE_DISABLE_PROVIDER, 5, u64::MAX, 0);
    assert!(!ctx.enabled(1, 1));
    assert!(!ctx.enabled(0, 0));
    assert_eq!((ctx.is_enabled, ctx.level, ctx.match_any_keyword, ctx.match_all_keyword), (0, 0, 0, 0));
}

#[test]
fn other_control_codes_change_nothing() {
    let mut ctx = EtwContext::new();
    ctx.on_control(EVENT_CONTROL_CODE_ENABLE_PROVIDER, 3, 1, 1);
    let before = ctx;
    ctx.on_control(2, 0, 0, 0);
    assert_eq!(ctx, before);
}

#[test]
fn registration_keeps_the_handle_or_reports_the_status() {
    let ctx = EtwContext::new().register(0, 42).unwrap();
    assert_eq!(ctx.registration_handle, 42);
    assert!(ctx.needs_unregister());
    assert_eq!(EtwContext::new().register(87, 42), Err(Error::Windows(87)));
}

#[test]
fn guid_converts_to_and_from_u128() {
    let g: Guid = SAMPLE.into();
    assert_eq!(g, Guid::from_u128(SAMPLE));
    assert_eq!(u128::from(g), SAMPLE);
    assert_eq!(u128::from(Guid::from(0u128)), 0);
}

#[test]
fn canonical_text_parses_back_as_a_manifest_guid() {
    for value in [0, u128::MAX, SAMPLE, 1, 1 << 64] {
        let text = Guid::from_u128(value).to_canonical_string();
        assert_eq!(etw_wrapper::numbers::parse_guid(&text), Some(value));
    }
}

#[test]
fn a_disable_after_any_callbacks_leaves_the_provider_disabled() {
    let mut ctx = EtwContext::new();
    assert!(!ctx.enabled(0, 0));
    ctx.on_control(EVENT_CONTROL_CODE_ENABLE_PROVIDER, 5, 0xff, 0);
    ctx.on_control(2, 0, 0, 0);
    assert!(ctx.enabled(4, 1));
    ctx.on_control(EVENT_CONTROL_CODE_DISABLE_PROVIDER, 5, 0xff, 0);
    ctx.on_control(2, 5, 0xff, 0);
    ctx.on_control(7, 0, 0, 0);
    for level in [0u8, 1, 5, 255] {
        for keyword in [0u64, 1, 0xff, u64::MAX] {
            assert!(!ctx.enabled(level, keyword));
        }
    }
}
