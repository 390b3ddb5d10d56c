//! GUID text form: the canonical `8-4-4-4-12` grouping of 32 hex digits,
//! parsed to a binary layout and rendered back, with the round-trip law.

use vstd::prelude::*;

use crate::errors::LayoutError;
use crate::hexnum::{
    all_hex, hex_group_ok, hex_render, hex_render_spec, hex_seq_val, lemma_hex_render_inverse,
    lemma_hex_render_val, lemma_hex_seq_val_bound, lemma_pow16_vals, parse_hex_bounded,
};
use crate::text::{
    has_no_char, lemma_split_prefix, lemma_split_whole, lower_char, lower_seq, split_chars,
    split_on, str_to_chars, trim_braces, trim_braces_spec, trim_lead, trim_trail, views_of,
};

verus! {

pub const MAX_D4B: u64 = 0xFFFF_FFFF_FFFF;

/// The binary layout of a GUID, grouped as its text form is: one 32-bit
/// group, three 16-bit groups, and a trailing 48-bit group held in the low
/// bits of `data4b`.
#[derive(Debug, PartialEq, Eq, Structural, Clone, Copy)]
pub struct Guid {
    pub data1: u32,
    pub data2: u16,
    pub data3: u16,
    pub data4a: u16,
    pub data4b: u64,
}

impl Guid {
    /// The trailing group fits in its 12 hex digits.
    pub open spec fn wf(self) -> bool {
        self.data4b <= MAX_D4B
    }
}

/// Canonical text: lowercase, unbraced, zero-padded, grouped 8-4-4-4-12.
pub open spec fn render_guid_spec(g: Guid) -> Seq<char> {
    hex_render_spec(g.data1 as nat, 8) + seq!['-'] + hex_render_spec(g.data2 as nat, 4)
        + seq!['-'] + hex_render_spec(g.data3 as nat, 4) + seq!['-'] + hex_render_spec(
        g.data4a as nat,
        4,
    ) + seq!['-'] + hex_render_spec(g.data4b as nat, 12)
}

pub fn render_guid(g: &Guid) -> (r: String)
    ensures
        r@ == render_guid_spec(*g),
{
    let mut v = hex_render(g.data1 as u64, 8);
    let mut part = hex_render(g.data2 as u64, 4);
    v.push('-');
    v.append(&mut part);
    let mut part = hex_render(g.data3 as u64, 4);
    v.push('-');
    v.append(&mut part);
    let mut part = hex_render(g.data4a as u64, 4);
    v.push('-');
    v.append(&mut part);
    let mut part = hex_render(g.data4b, 12);
    v.push('-');
    v.append(&mut part);
    proof {
        assert(v@ =~= render_guid_spec(*g));
    }
    crate::text::chars_to_string(&v)
}

/// What parsing accepts, over the trimmed and split text: exactly five
/// groups, each a nonempty hex string whose value fits its group's width.
pub open spec fn parse_guid_spec(s: Seq<char>) -> Result<Guid, LayoutError> {
    let parts = split_on(trim_braces_spec(s), '-');
    if parts.len() != 5 {
        Err(LayoutError::InvalidFormat)
    } else if !(hex_group_ok(parts[0], 0xFFFF_FFFF) && hex_group_ok(parts[1], 0xFFFF)
        && hex_group_ok(parts[2], 0xFFFF) && hex_group_ok(parts[3], 0xFFFF) && hex_group_ok(
        parts[4],
        MAX_D4B as nat,
    )) {
        Err(LayoutError::InvalidHex)
    } else {
        Ok(
            Guid {
                data1: hex_seq_val(parts[0]) as u32,
                data2: hex_seq_val(parts[1]) as u16,
                data3: hex_seq_val(parts[2]) as u16,
                data4a: hex_seq_val(parts[3]) as u16,
                data4b: hex_seq_val(parts[4]) as u64,
            },
        )
    }
}

/// Accepts the canonical form with or without surrounding braces; fails
/// with `InvalidFormat` unless there are exactly five `-`-separated
/// groups, and with `InvalidHex` if a group is empty, holds a non-hex
/// character, or is too wide for its place.
pub fn parse_guid(s: &str) -> (r: Result<Guid, LayoutError>)
    ensures
        r == parse_guid_spec(s@),
        r matches Ok(g) ==> g.wf(),
{
    let chars = str_to_chars(s);
    let clean = trim_braces(&chars);
    let parts = split_chars(&clean, '-');
    proof {
        assert(views_of(parts@) == split_on(trim_braces_spec(s@), '-'));
        assert(parts@.len() == views_of(parts@).len());
    }
    if parts.len() != 5 {
        return Err(LayoutError::InvalidFormat);
    }
    proof {
        assert(forall|i: int| 0 <= i < 5 ==> views_of(parts@)[i] == #[trigger] parts@[i]@);
    }
    let d1 = match parse_hex_bounded(&parts[0], 0xFFFF_FFFF) {
        Some(v) => v,
        None => {
            return Err(LayoutError::InvalidHex);
        },
    };
    let d2 = match parse_hex_bounded(&parts[1], 0xFFFF) {
        Some(v) => v,
        None => {
            return Err(LayoutError::InvalidHex);
        },
    };
    let d3 = match parse_hex_bounded(&parts[2], 0xFFFF) {
        Some(v) => v,
        None => {
            return Err(LayoutError::InvalidHex);
        },
    };
    let d4a = match parse_hex_bounded(&parts[3], 0xFFFF) {
        Some(v) => v,
        None => {
            return Err(LayoutError::InvalidHex);
        },
    };
    let d4b = match parse_hex_bounded(&parts[4], MAX_D4B) {
        Some(v) => v,
        None => {
            return Err(LayoutError::InvalidHex);
        },
    };
    Ok(
        Guid {
            data1: d1 as u32,
            data2: d2 as u16,
            data3: d3 as u16,
            data4a: d4a as u16,
            data4b: d4b,
        },
    )
}

/// The trailing 8 bytes of the binary layout, big-endian within each
/// group, as the OS's GUID structure carries them.
pub fn guid_tail_bytes(g: &Guid) -> (r: Vec<u8>)
    ensures
        r@.len() == 8,
        r@[0] == (g.data4a >> 8) as u8,
        r@[1] == (g.data4a & 0xFF) as u8,
        r@[2] == ((g.data4b >> 40) & 0xFF) as u8,
        r@[3] == ((g.data4b >> 32) & 0xFF) as u8,
        r@[4] == ((g.data4b >> 24) & 0xFF) as u8,
        r@[5] == ((g.data4b >> 16) & 0xFF) as u8,
        r@[6] == ((g.data4b >> 8) & 0xFF) as u8,
        r@[7] == (g.data4b & 0xFF) as u8,
{
    let mut r: Vec<u8> = Vec::new();
    r.push((g.data4a >> 8) as u8);
    r.push((g.data4a & 0xFF) as u8);
    r.push(((g.data4b >> 40) & 0xFF) as u8);
    r.push(((g.data4b >> 32) & 0xFF) as u8);
    r.push(((g.data4b >> 24) & 0xFF) as u8);
    r.push(((g.data4b >> 16) & 0xFF) as u8);
    r.push(((g.data4b >> 8) & 0xFF) as u8);
    r.push((g.data4b & 0xFF) as u8);
    r
}

/// The canonical GUID text never holds a colon, so it passes intact
/// through the composite identifier's `:`-separated framing.
pub proof fn lemma_render_guid_no_colon(g: Guid)
    requires
        g.wf(),
    ensures
        crate::text::has_no_char(render_guid_spec(g), ':'),
{
    lemma_pow16_vals();
    let h1 = hex_render_spec(g.data1 as nat, 8);
    let h2 = hex_render_spec(g.data2 as nat, 4);
    let h3 = hex_render_spec(g.data3 as nat, 4);
    let h4 = hex_render_spec(g.data4a as nat, 4);
    let h5 = hex_render_spec(g.data4b as nat, 12);
    lemma_hex_render_val(g.data1 as nat, 8);
    lemma_hex_render_val(g.data2 as nat, 4);
    lemma_hex_render_val(g.data3 as nat, 4);
    lemma_hex_render_val(g.data4a as nat, 4);
    lemma_hex_render_val(g.data4b as nat, 12);
    let s = render_guid_spec(g);
    assert(s.len() == 36);
    assert forall|i: int| 0 <= i < s.len() implies s[i] != ':' by {
        if i < 8 {
            assert(s[i] == h1[i]);
        } else if i == 8 {
            assert(s[i] == '-');
        } else if i < 13 {
            assert(s[i] == h2[i - 9]);
        } else if i == 13 {
            assert(s[i] == '-');
        } else if i < 18 {
            assert(s[i] == h3[i - 14]);
        } else if i == 18 {
            assert(s[i] == '-');
        } else if i < 23 {
            assert(s[i] == h4[i - 19]);
        } else if i == 23 {
            assert(s[i] == '-');
        } else {
            assert(s[i] == h5[i - 24]);
        }
    }
}

/// Rendering a well-formed GUID and parsing the text gives the same GUID
/// back: the canonical text form is lossless, byte for byte.
pub proof fn lemma_guid_roundtrip(g: Guid)
    requires
        g.wf(),
    ensures
        parse_guid_spec(render_guid_spec(g)) == Ok::<Guid, LayoutError>(g),
{
    lemma_pow16_vals();
    let h1 = hex_render_spec(g.data1 as nat, 8);
    let h2 = hex_render_spec(g.data2 as nat, 4);
    let h3 = hex_render_spec(g.data3 as nat, 4);
    let h4 = hex_render_spec(g.data4a as nat, 4);
    let h5 = hex_render_spec(g.data4b as nat, 12);
    lemma_hex_render_val(g.data1 as nat, 8);
    lemma_hex_render_val(g.data2 as nat, 4);
    lemma_hex_render_val(g.data3 as nat, 4);
    lemma_hex_render_val(g.data4a as nat, 4);
    lemma_hex_render_val(g.data4b as nat, 12);
    let s = render_guid_spec(g);

    // No braces at either end, so trimming changes nothing.
    let p = |c: char| crate::text::is_brace_char(c);
    assert(s[0] == h1[0]);
    assert(!p(s[0]));
    assert(trim_lead(s, p) == s);
    assert(s.last() == h5[11]) by {
        assert(s.len() == 36);
        assert(s[35] == h5[11]);
    }
    assert(!p(s.last()));
    assert(trim_trail(s, p) == s);
    assert(trim_braces_spec(s) == s);

    // Splitting on '-' recovers exactly the five groups.
    let tail2 = h4 + seq!['-'] + h5;
    let tail1 = h3 + seq!['-'] + tail2;
    let tail0 = h2 + seq!['-'] + tail1;
    assert(s =~= h1 + seq!['-'] + tail0);
    lemma_split_prefix(h1, tail0, '-');
    lemma_split_prefix(h2, tail1, '-');
    lemma_split_prefix(h3, tail2, '-');
    lemma_split_prefix(h4, h5, '-');
    lemma_split_whole(h5, '-');
    assert(tail0 =~= h2 + seq!['-'] + tail1);
    assert(tail1 =~= h3 + seq!['-'] + tail2);
    assert(tail2 =~= h4 + seq!['-'] + h5);
    let parts = split_on(s, '-');
    assert(parts =~~= seq![h1, h2, h3, h4, h5]);
    assert(parts.len() == 5);
    assert(parts[0] == h1 && parts[1] == h2 && parts[2] == h3 && parts[3] == h4 && parts[4]
        == h5);
    assert(hex_group_ok(h1, 0xFFFF_FFFF));
    assert(hex_group_ok(h2, 0xFFFF));
    assert(hex_group_ok(h3, 0xFFFF));
    assert(hex_group_ok(h4, 0xFFFF));
    assert(hex_group_ok(h5, MAX_D4B as nat));
    assert(parse_guid_spec(s) == Ok::<Guid, LayoutError>(g));
}

/// The canonical text shape after brace-stripping: 32 hex digits in the
/// 8-4-4-4-12 grouping, any letter case.
pub open spec fn canonical_guid_text(t: Seq<char>) -> bool {
    t.len() == 36 && t[8] == '-' && t[13] == '-' && t[18] == '-' && t[23] == '-' && all_hex(
        t.subrange(0, 8),
    ) && all_hex(t.subrange(9, 13)) && all_hex(t.subrange(14, 18)) && all_hex(
        t.subrange(19, 23),
    ) && all_hex(t.subrange(24, 36))
}

/// For every canonical 32-hex-digit input (braced or not, any case),
/// parsing succeeds and rendering the parsed GUID reproduces the input
/// lower-cased and unbraced, byte for byte and order-preserving.
pub proof fn lemma_parse_render_normalizes(s: Seq<char>)
    requires
        canonical_guid_text(trim_braces_spec(s)),
    ensures
        parse_guid_spec(s) is Ok,
        render_guid_spec(parse_guid_spec(s)->Ok_0) == lower_seq(trim_braces_spec(s)),
{
    lemma_pow16_vals();
    let t = trim_braces_spec(s);
    let p0 = t.subrange(0, 8);
    let p1 = t.subrange(9, 13);
    let p2 = t.subrange(14, 18);
    let p3 = t.subrange(19, 23);
    let p4 = t.subrange(24, 36);
    let d = seq!['-'];

    // The text splits on '-' into exactly the five groups.
    let tail2 = p3 + d + p4;
    let tail1 = p2 + d + tail2;
    let tail0 = p1 + d + tail1;
    assert(t =~= p0 + d + tail0);
    assert(has_no_char(p0, '-') && has_no_char(p1, '-') && has_no_char(p2, '-') && has_no_char(
        p3,
        '-',
    ) && has_no_char(p4, '-'));
    lemma_split_prefix(p0, tail0, '-');
    lemma_split_prefix(p1, tail1, '-');
    lemma_split_prefix(p2, tail2, '-');
    lemma_split_prefix(p3, p4, '-');
    lemma_split_whole(p4, '-');
    assert(tail0 =~= p1 + d + tail1);
    assert(tail1 =~= p2 + d + tail2);
    let parts = split_on(t, '-');
    assert(parts =~~= seq![p0, p1, p2, p3, p4]);
    assert(parts.len() == 5);
    assert(parts[0] == p0 && parts[1] == p1 && parts[2] == p2 && parts[3] == p3 && parts[4]
        == p4);

    // Each group is nonempty hex and fits its width.
    lemma_hex_seq_val_bound(p0);
    lemma_hex_seq_val_bound(p1);
    lemma_hex_seq_val_bound(p2);
    lemma_hex_seq_val_bound(p3);
    lemma_hex_seq_val_bound(p4);
    assert(hex_group_ok(p0, 0xFFFF_FFFF) && hex_group_ok(p1, 0xFFFF) && hex_group_ok(p2, 0xFFFF)
        && hex_group_ok(p3, 0xFFFF) && hex_group_ok(p4, MAX_D4B as nat));
    let g = parse_guid_spec(s)->Ok_0;
    assert(g.data1 as nat == hex_seq_val(p0));
    assert(g.data2 as nat == hex_seq_val(p1));
    assert(g.data3 as nat == hex_seq_val(p2));
    assert(g.data4a as nat == hex_seq_val(p3));
    assert(g.data4b as nat == hex_seq_val(p4));

    // Rendering each group's value at its own width lower-cases the
    // group, so the whole rendering lower-cases the whole text.
    lemma_hex_render_inverse(p0);
    lemma_hex_render_inverse(p1);
    lemma_hex_render_inverse(p2);
    lemma_hex_render_inverse(p3);
    lemma_hex_render_inverse(p4);
    let r = render_guid_spec(g);
    assert(r =~= lower_seq(p0) + d + lower_seq(p1) + d + lower_seq(p2) + d + lower_seq(p3) + d
        + lower_seq(p4));
    assert(lower_seq(t).len() == 36);
    assert(r.len() == 36);
    assert forall|i: int| 0 <= i < 36 implies r[i] == lower_seq(t)[i] by {
        assert(lower_seq(t)[i] == lower_char(t[i]));
        if i < 8 {
            assert(r[i] == lower_seq(p0)[i]);
            assert(lower_seq(p0)[i] == lower_char(p0[i]));
            assert(p0[i] == t[i]);
        } else if i == 8 {
            assert(r[i] == '-');
            assert(t[i] == '-');
        } else if i < 13 {
            assert(r[i] == lower_seq(p1)[i - 9]);
            assert(lower_seq(p1)[i - 9] == lower_char(p1[i - 9]));
            assert(p1[i - 9] == t[i]);
        } else if i == 13 {
            assert(r[i] == '-');
            assert(t[i] == '-');
        } else if i < 18 {
            assert(r[i] == lower_seq(p2)[i - 14]);
            assert(lower_seq(p2)[i - 14] == lower_char(p2[i - 14]));
            assert(p2[i - 14] == t[i]);
        } else if i == 18 {
            assert(r[i] == '-');
            assert(t[i] == '-');
        } else if i < 23 {
            assert(r[i] == lower_seq(p3)[i - 19]);
            assert(lower_seq(p3)[i - 19] == lower_char(p3[i - 19]));
            assert(p3[i - 19] == t[i]);
        } else if i == 23 {
            assert(r[i] == '-');
            assert(t[i] == '-');
        } else {
            assert(r[i] == lower_seq(p4)[i - 24]);
            assert(lower_seq(p4)[i - 24] == lower_char(p4[i - 24]));
            assert(p4[i - 24] == t[i]);
        }
    }
    assert(r =~= lower_seq(t));
}

/// Rendering after parsing is idempotent: whatever accepted text the
/// parser saw, the rendered form parses back to the same GUID, so a
/// second parse-render pass changes nothing.
pub proof fn lemma_render_parse_idempotent(s: Seq<char>, g: Guid)
    requires
        parse_guid_spec(s) == Ok::<Guid, LayoutError>(g),
    ensures
        parse_guid_spec(render_guid_spec(g)) == Ok::<Guid, LayoutError>(g),
{
    let parts = split_on(trim_braces_spec(s), '-');
    assert(g.data4b as nat == hex_seq_val(parts[4]));
    assert(g.wf());
    lemma_guid_roundtrip(g);
}

} // verus!
