use native_sidecar::errors::LayoutError;
use native_sidecar::guid::Guid;
use native_sidecar::ident::{
    classify, decode_composite, encode_composite, encode_legacy, parse_legacy_handle, IdKind,
};
use native_sidecar::namer::identify_ime_by_guid;

fn g1() -> Guid {
    Guid { data1: 0x81D4E9C9, data2: 0x1D3B, data3: 0x41BC, data4a: 0x9E6C, data4b: 0x4B40BF79E35E }
}

fn g2() -> Guid {
    Guid { data1: 0x12345678, data2: 0x1234, data3: 0x5678, data4a: 0x9ABC, data4b: 0xDEF012345678 }
}

#[test]
fn classify_composite_prefix() {
    assert_eq!(classify("TSF:2052:a:b"), IdKind::Composite);
    assert_eq!(classify("TSF:"), IdKind::Composite);
}

#[test]
fn classify_everything_else_is_legacy() {
    assert_eq!(classify("00000409"), IdKind::Legacy);
    assert_eq!(classify(""), IdKind::Legacy);
    assert_eq!(classify("TSF"), IdKind::Legacy);
    assert_eq!(classify("tsf:2052:a:b"), IdKind::Legacy);
    assert_eq!(classify("xTSF:"), IdKind::Legacy);
}

#[test]
fn encode_legacy_zero_pads() {
    assert_eq!(encode_legacy(0x409).as_str(), "00000409");
    assert_eq!(encode_legacy(0xF0C00804).as_str(), "f0c00804");
}

#[test]
fn parse_legacy_accepts_hex_u32() {
    assert_eq!(parse_legacy_handle("00000409"), Ok(0x409));
    assert_eq!(parse_legacy_handle("f0c00804"), Ok(0xF0C00804));
}

#[test]
fn parse_legacy_rejects_bad_input() {
    assert_eq!(parse_legacy_handle(""), Err(LayoutError::InvalidHex));
    assert_eq!(parse_legacy_handle("xyz"), Err(LayoutError::InvalidHex));
    assert_eq!(parse_legacy_handle("123456789"), Err(LayoutError::InvalidHex));
    assert_eq!(parse_legacy_handle("0000 0409"), Err(LayoutError::InvalidHex));
    // Exactly eight hex digits: shorter or wider tokens are rejected even
    // when their value would fit a handle.
    assert_eq!(parse_legacy_handle("409"), Err(LayoutError::InvalidHex));
    assert_eq!(parse_legacy_handle("f"), Err(LayoutError::InvalidHex));
    assert_eq!(parse_legacy_handle("0000000409"), Err(LayoutError::InvalidHex));
    assert_eq!(parse_legacy_handle("0040940"), Err(LayoutError::InvalidHex));
}

#[test]
fn encode_composite_canonical_text() {
    let id = encode_composite(2052, &g1(), &g2());
    assert_eq!(
        id.as_str(),
        "TSF:2052:81d4e9c9-1d3b-41bc-9e6c-4b40bf79e35e:12345678-1234-5678-9abc-def012345678"
    );
}

#[test]
fn decode_composite_roundtrip() {
    let id = encode_composite(2052, &g1(), &g2());
    let c = decode_composite(id.as_str()).unwrap();
    assert_eq!(c.langid, 2052);
    assert_eq!(c.clsid, g1());
    assert_eq!(c.profile, g2());
}

#[test]
fn decode_composite_accepts_braced_guids() {
    let c = decode_composite(
        "TSF:1033:{81D4E9C9-1D3B-41BC-9E6C-4B40BF79E35E}:{12345678-1234-5678-9ABC-DEF012345678}",
    )
    .unwrap();
    assert_eq!(c.langid, 1033);
    assert_eq!(c.clsid, g1());
}

#[test]
fn decode_composite_wrong_field_count() {
    assert_eq!(decode_composite("TSF:2052:onlyone"), Err(LayoutError::InvalidFormat));
    assert_eq!(
        decode_composite("TSF:2052:a:b:c"),
        Err(LayoutError::InvalidFormat)
    );
}

#[test]
fn decode_composite_bad_langid() {
    assert_eq!(
        decode_composite("TSF:20x2:{81D4E9C9-1D3B-41BC-9E6C-4B40BF79E35E}:{12345678-1234-5678-9ABC-DEF012345678}"),
        Err(LayoutError::InvalidLangId)
    );
    assert_eq!(
        decode_composite("TSF:70000:{81D4E9C9-1D3B-41BC-9E6C-4B40BF79E35E}:{12345678-1234-5678-9ABC-DEF012345678}"),
        Err(LayoutError::InvalidLangId)
    );
}

#[test]
fn decode_composite_bad_guid() {
    assert_eq!(
        decode_composite("TSF:2052:notaguid:{12345678-1234-5678-9ABC-DEF012345678}"),
        Err(LayoutError::InvalidGuid)
    );
    assert_eq!(
        decode_composite("TSF:2052:{81D4E9C9-1D3B-41BC-9E6C-4B40BF79E35E}:short"),
        Err(LayoutError::InvalidGuid)
    );
}

#[test]
fn namer_matches_known_signature_any_case() {
    assert_eq!(identify_ime_by_guid("81d4e9c9-1d3b").as_str(), "Microsoft Pinyin");
    assert_eq!(identify_ime_by_guid("E7EA138E").as_str(), "Sogou Pinyin");
    assert_eq!(identify_ime_by_guid("xx170462e1yy").as_str(), "Baidu Pinyin");
    assert_eq!(identify_ime_by_guid("f3ba9077").as_str(), "WeChat Keyboard");
    assert_eq!(identify_ime_by_guid("a028af").as_str(), "QQ Pinyin");
    assert_eq!(identify_ime_by_guid("6a498709").as_str(), "Google Pinyin");
}

#[test]
fn namer_earlier_table_entry_wins() {
    // Both the Sogou and the Microsoft signatures occur; the earlier
    // table entry decides.
    assert_eq!(
        identify_ime_by_guid("e7ea138e-81d4e9c9").as_str(),
        "Microsoft Pinyin"
    );
}

#[test]
fn namer_fallback_truncates_to_eight() {
    assert_eq!(identify_ime_by_guid("0123456789").as_str(), "IME (01234567)");
    assert_eq!(
        identify_ime_by_guid("{deadbeef-0000}").as_str(),
        "IME ({DEADBEE)"
    );
}

#[test]
fn namer_fallback_short_input_whole() {
    assert_eq!(identify_ime_by_guid("ab").as_str(), "IME (AB)");
    assert_eq!(identify_ime_by_guid("").as_str(), "IME ()");
}

#[test]
fn namer_is_deterministic() {
    let a = identify_ime_by_guid("{some-random-fragment}");
    let b = identify_ime_by_guid("{some-random-fragment}");
    assert_eq!(a, b);
}
