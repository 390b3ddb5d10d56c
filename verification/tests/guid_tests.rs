use native_sidecar::errors::LayoutError;
use native_sidecar::guid::{parse_guid, render_guid, Guid};

fn sample() -> Guid {
    Guid {
        data1: 0x81D4E9C9,
        data2: 0x1D3B,
        data3: 0x41BC,
        data4a: 0x9E6C,
        data4b: 0x4B40BF79E35E,
    }
}

#[test]
fn parse_canonical_unbraced() {
    let g = parse_guid("81d4e9c9-1d3b-41bc-9e6c-4b40bf79e35e").unwrap();
    assert_eq!(g, sample());
}

#[test]
fn parse_braced_uppercase() {
    let g = parse_guid("{81D4E9C9-1D3B-41BC-9E6C-4B40BF79E35E}").unwrap();
    assert_eq!(g, sample());
}

#[test]
fn render_is_lowercase_unbraced() {
    assert_eq!(
        render_guid(&sample()).as_str(),
        "81d4e9c9-1d3b-41bc-9e6c-4b40bf79e35e"
    );
}

#[test]
fn roundtrip_parse_then_render() {
    let text = "{ABCDEF01-2345-6789-ABCD-EF0123456789}";
    let g = parse_guid(text).unwrap();
    let rendered = render_guid(&g);
    assert_eq!(rendered.as_str(), "abcdef01-2345-6789-abcd-ef0123456789");
    // A second pass is a fixed point, byte for byte.
    let g2 = parse_guid(rendered.as_str()).unwrap();
    assert_eq!(g2, g);
    assert_eq!(render_guid(&g2), rendered);
}

#[test]
fn short_groups_are_zero_padded() {
    let g = parse_guid("1-2-3-4-5").unwrap();
    assert_eq!(render_guid(&g).as_str(), "00000001-0002-0003-0004-000000000005");
}

#[test]
fn wrong_group_count_is_invalid_format() {
    assert_eq!(
        parse_guid("81d4e9c9-1d3b-41bc-9e6c"),
        Err(LayoutError::InvalidFormat)
    );
    assert_eq!(parse_guid(""), Err(LayoutError::InvalidFormat));
    assert_eq!(
        parse_guid("1-2-3-4-5-6"),
        Err(LayoutError::InvalidFormat)
    );
}

#[test]
fn non_hex_is_invalid_hex() {
    assert_eq!(
        parse_guid("81d4e9cg-1d3b-41bc-9e6c-4b40bf79e35e"),
        Err(LayoutError::InvalidHex)
    );
    // An empty group is rejected too.
    assert_eq!(parse_guid("-1d3b-41bc-9e6c-4b40bf79e35e"), Err(LayoutError::InvalidHex));
    // A sign is not a hex digit.
    assert_eq!(
        parse_guid("+1d4e9c9-1d3b-41bc-9e6c-4b40bf79e35e"),
        Err(LayoutError::InvalidHex)
    );
}

#[test]
fn oversized_group_is_invalid_hex() {
    assert_eq!(
        parse_guid("181d4e9c9-1d3b-41bc-9e6c-4b40bf79e35e"),
        Err(LayoutError::InvalidHex)
    );
}

#[test]
fn tail_bytes_are_big_endian() {
    let g = sample();
    let b = native_sidecar::guid::guid_tail_bytes(&g);
    assert_eq!(b, vec![0x9E, 0x6C, 0x4B, 0x40, 0xBF, 0x79, 0xE3, 0x5E]);
}
