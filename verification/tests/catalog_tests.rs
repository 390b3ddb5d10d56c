use native_sidecar::catalog::{merge, LayoutInfo};
use native_sidecar::errors::LayoutError;
use native_sidecar::guid::Guid;
use native_sidecar::legacy::{build_legacy_catalog, legacy_layout_info};
use native_sidecar::tool::{parse_tool_line, parse_tool_output};
use native_sidecar::tsf::{build_tsf_catalog, tsf_profile_info, TsfProfile};

fn li(id: &str, name: &str) -> LayoutInfo {
    LayoutInfo { id: id.to_string(), name: name.to_string() }
}

fn g1() -> Guid {
    Guid { data1: 0x81D4E9C9, data2: 0x1D3B, data3: 0x41BC, data4a: 0x9E6C, data4b: 0x4B40BF79E35E }
}

fn g2() -> Guid {
    Guid { data1: 0x12345678, data2: 0x1234, data3: 0x5678, data4a: 0x9ABC, data4b: 0xDEF012345678 }
}

// ---- merge ----

#[test]
fn merge_overlapping_id_first_source_wins() {
    let rich = vec![li("X", "rich name")];
    let external = vec![li("X", "external name"), li("Y", "ext y")];
    let legacy = vec![li("X", "legacy name"), li("Z", "leg z")];
    let merged = merge(&rich, &external, &legacy).unwrap();
    assert_eq!(merged.len(), 3);
    assert_eq!(merged[0], li("X", "rich name"));
    assert_eq!(merged[1], li("Y", "ext y"));
    assert_eq!(merged[2], li("Z", "leg z"));
}

#[test]
fn merge_all_empty_is_no_layouts() {
    assert_eq!(merge(&vec![], &vec![], &vec![]), Err(LayoutError::NoLayouts));
}

#[test]
fn merge_single_source_unchanged() {
    let a = vec![li("1", "one"), li("2", "two"), li("3", "three")];
    let merged = merge(&a, &vec![], &vec![]).unwrap();
    assert_eq!(merged, a);
}

#[test]
fn merge_keeps_priority_order() {
    let rich = vec![li("r", "r")];
    let external = vec![li("e", "e")];
    let legacy = vec![li("l", "l")];
    let merged = merge(&rich, &external, &legacy).unwrap();
    assert_eq!(
        merged.iter().map(|x| x.id.as_str()).collect::<Vec<_>>(),
        vec!["r", "e", "l"]
    );
}

// ---- legacy source ----

#[test]
fn legacy_info_uses_description_when_present() {
    let info = legacy_layout_info(0x409, "My Layout");
    assert_eq!(info.id.as_str(), "00000409");
    assert_eq!(info.name.as_str(), "My Layout");
}

#[test]
fn legacy_info_builtin_names() {
    assert_eq!(legacy_layout_info(0x409, "").name.as_str(), "English (US) - Legacy");
    assert_eq!(legacy_layout_info(0x4090409, "").name.as_str(), "English (US) - Legacy");
    assert_eq!(
        legacy_layout_info(0x804, "").name.as_str(),
        "Chinese (Simplified) - Default"
    );
    assert_eq!(
        legacy_layout_info(0x8040804, "").name.as_str(),
        "Chinese (Simplified) - Default"
    );
}

#[test]
fn legacy_info_generic_label() {
    assert_eq!(
        legacy_layout_info(0xDEADBEEF, "").name.as_str(),
        "Legacy Layout deadbeef"
    );
}

#[test]
fn legacy_catalog_empty_enumeration_fails() {
    assert_eq!(build_legacy_catalog(&vec![]), Err(LayoutError::NoLayouts));
}

#[test]
fn list_of_two_legacy_layouts() {
    // The OS reports two loaded handles and no descriptions; the other
    // two sources contribute nothing.
    let entries = vec![(0x409u32, String::new()), (0x804u32, String::new())];
    let legacy = build_legacy_catalog(&entries).unwrap();
    let merged = merge(&vec![], &vec![], &legacy).unwrap();
    assert_eq!(merged.len(), 2);
    assert_eq!(merged[0].id.as_str(), "00000409");
    assert_eq!(merged[0].name.as_str(), "English (US) - Legacy");
    assert_eq!(merged[1].id.as_str(), "00000804");
    assert_eq!(merged[1].name.as_str(), "Chinese (Simplified) - Default");
}

// ---- rich source ----

fn profile(langid: u16, desc: &str, active: bool) -> TsfProfile {
    TsfProfile { langid, clsid: g1(), profile: g2(), description: desc.to_string(), active }
}

#[test]
fn tsf_inactive_profile_skipped() {
    assert!(tsf_profile_info(&profile(2052, "x", false)).is_none());
}

#[test]
fn tsf_description_wins() {
    let info = tsf_profile_info(&profile(2052, "Microsoft Pinyin ABC", true)).unwrap();
    assert_eq!(info.name.as_str(), "Microsoft Pinyin ABC");
    assert_eq!(
        info.id.as_str(),
        "TSF:2052:81d4e9c9-1d3b-41bc-9e6c-4b40bf79e35e:12345678-1234-5678-9abc-def012345678"
    );
}

#[test]
fn tsf_blank_description_falls_back_chinese() {
    let info = tsf_profile_info(&profile(0x804, "  ", true)).unwrap();
    assert_eq!(info.name.as_str(), "Microsoft Pinyin (Chinese)");
}

#[test]
fn tsf_blank_description_falls_back_english() {
    let info = tsf_profile_info(&profile(0x409, "", true)).unwrap();
    assert_eq!(info.name.as_str(), "English (US)");
}

#[test]
fn tsf_blank_description_other_language() {
    let info = tsf_profile_info(&profile(0x0C00, "", true)).unwrap();
    assert_eq!(info.name.as_str(), "Language 0x0c00");
}

#[test]
fn tsf_catalog_keeps_order_and_skips_inactive() {
    let profiles = vec![
        profile(0x409, "First", true),
        profile(0x804, "Hidden", false),
        profile(0x804, "Second", true),
    ];
    let cat = build_tsf_catalog(&profiles);
    assert_eq!(cat.len(), 2);
    assert_eq!(cat[0].name.as_str(), "First");
    assert_eq!(cat[1].name.as_str(), "Second");
}

// ---- external tool source ----

#[test]
fn tool_line_composite_pair() {
    let info = parse_tool_line(
        "0804:{81D4E9C9-1D3B-41BC-9E6C-4B40BF79E35E}{12345678-1234-5678-9ABC-DEF012345678}",
    )
    .unwrap();
    assert_eq!(
        info.id.as_str(),
        "TSF:2052:81D4E9C9-1D3B-41BC-9E6C-4B40BF79E35E:12345678-1234-5678-9ABC-DEF012345678"
    );
    assert_eq!(info.name.as_str(), "Microsoft Pinyin (Chinese (Simplified))");
}

#[test]
fn tool_line_legacy_hex() {
    let info = parse_tool_line("0409:00000409").unwrap();
    assert_eq!(info.id.as_str(), "00000409");
    assert_eq!(info.name.as_str(), "English (US) (English (US))");
}

#[test]
fn tool_line_legacy_other_language() {
    let info = parse_tool_line("0c00:deadbeef").unwrap();
    assert_eq!(info.id.as_str(), "deadbeef");
    assert_eq!(info.name.as_str(), "Legacy IME (Other Language)");
}

#[test]
fn tool_line_single_fragment_skipped() {
    assert!(parse_tool_line("0804:{81D4E9C9-1D3B-41BC-9E6C-4B40BF79E35E}").is_none());
}

#[test]
fn tool_line_three_fragments_skipped() {
    assert!(parse_tool_line("0804:{A}{B}{C}").is_none());
}

#[test]
fn tool_line_malformed_skipped() {
    assert!(parse_tool_line("").is_none());
    assert!(parse_tool_line("   ").is_none());
    assert!(parse_tool_line("nonsense").is_none());
    assert!(parse_tool_line("zzzz:00000409").is_none());
    assert!(parse_tool_line("0409:1234567").is_none());
    assert!(parse_tool_line("0409:123456789").is_none());
    assert!(parse_tool_line("0409").is_none());
}

#[test]
fn tool_output_collects_good_lines_in_order() {
    let text = "0409:00000409\n\ngarbage\n0804:{81D4E9C9-1D3B-41BC-9E6C-4B40BF79E35E}{12345678-1234-5678-9ABC-DEF012345678}\r\n0409:{A}\n";
    let cat = parse_tool_output(text);
    assert_eq!(cat.len(), 2);
    assert_eq!(cat[0].id.as_str(), "00000409");
    assert!(cat[1].id.as_str().starts_with("TSF:2052:"));
}
