//! The two identifier shapes exchanged with the host: a legacy 8-hex-digit
//! layout handle, and a composite `TSF:<langid>:<clsid>:<profile>` triple.

use vstd::prelude::*;

use crate::errors::LayoutError;
use crate::guid::{
    lemma_guid_roundtrip, lemma_render_guid_no_colon, parse_guid, parse_guid_spec, render_guid,
    render_guid_spec, Guid,
};
use crate::hexnum::{
    all_hex, dec_group_ok, dec_render, dec_render_spec, dec_seq_val, hex_render, hex_render_spec,
    hex_seq_val, lemma_dec_render_val, lemma_hex_seq_val_bound, lemma_pow16_vals,
    parse_dec_bounded, parse_hex_bounded,
};
use crate::text::{
    has_no_char, lemma_split_prefix, lemma_split_whole, split_chars, split_on, str_to_chars,
    views_of,
};

verus! {

/// Which identifier shape a token has.
#[derive(Debug, PartialEq, Eq, Structural, Clone, Copy)]
pub enum IdKind {
    Legacy,
    Composite,
}

/// A decoded composite identifier: language, input-processor class and
/// profile.
#[derive(Debug, PartialEq, Eq, Structural, Clone, Copy)]
pub struct CompositeId {
    pub langid: u16,
    pub clsid: Guid,
    pub profile: Guid,
}

/// A token is composite exactly when it starts with the literal `TSF:`.
pub open spec fn is_composite_spec(s: Seq<char>) -> bool {
    s.len() >= 4 && s.subrange(0, 4) == "TSF:"@
}

/// Classifies a token by its shape: `Composite` iff it begins with
/// `TSF:`, every other string (empty included) is `Legacy`.
pub fn classify(id: &str) -> (r: IdKind)
    ensures
        r == IdKind::Composite <==> is_composite_spec(id@),
{
    proof {
        reveal_strlit("TSF:");
    }
    if id.unicode_len() < 4 {
        return IdKind::Legacy;
    }
    if id.get_char(0) == 'T' && id.get_char(1) == 'S' && id.get_char(2) == 'F' && id.get_char(3)
        == ':' {
        proof {
            assert(id@.subrange(0, 4) =~= "TSF:"@);
        }
        IdKind::Composite
    } else {
        proof {
            assert(id@.subrange(0, 4) != "TSF:"@) by {
                if id@.subrange(0, 4) == "TSF:"@ {
                    assert(id@[0] == "TSF:"@[0] && id@[1] == "TSF:"@[1] && id@[2] == "TSF:"@[2]
                        && id@[3] == "TSF:"@[3]) by {
                        assert(forall|j: int|
                            0 <= j < 4 ==> #[trigger] id@.subrange(0, 4)[j] == id@[j]);
                    }
                }
            }
        }
        IdKind::Legacy
    }
}

/// The token of a legacy handle: its eight lowercase hex digits.
pub fn encode_legacy(handle: u32) -> (r: String)
    ensures
        r@ == hex_render_spec(handle as nat, 8),
{
    let v = hex_render(handle as u64, 8);
    crate::text::chars_to_string(&v)
}

/// A legacy token is accepted exactly when it is eight hex digits, the
/// width `encode_legacy` emits; the value then always fits an unsigned
/// 32-bit handle.  Anything else is `InvalidHex`.
pub open spec fn parse_legacy_spec(s: Seq<char>) -> Result<u32, LayoutError> {
    if s.len() == 8 && all_hex(s) {
        Ok(hex_seq_val(s) as u32)
    } else {
        Err(LayoutError::InvalidHex)
    }
}

pub fn parse_legacy_handle(s: &str) -> (r: Result<u32, LayoutError>)
    ensures
        r == parse_legacy_spec(s@),
{
    let chars = str_to_chars(s);
    if chars.len() != 8 {
        return Err(LayoutError::InvalidHex);
    }
    proof {
        lemma_pow16_vals();
        if all_hex(chars@) {
            lemma_hex_seq_val_bound(chars@);
        }
    }
    match parse_hex_bounded(&chars, 0xFFFF_FFFF) {
        Some(v) => Ok(v as u32),
        None => Err(LayoutError::InvalidHex),
    }
}

/// The composite token text for a (language, class, profile) triple:
/// decimal language id and canonical GUID text, colon-separated behind
/// the `TSF:` prefix.
pub open spec fn composite_id_spec(langid: u16, clsid: Guid, profile: Guid) -> Seq<char> {
    "TSF:"@ + dec_render_spec(langid as nat) + ":"@ + render_guid_spec(clsid) + ":"@
        + render_guid_spec(profile)
}

pub fn encode_composite(langid: u16, clsid: &Guid, profile: &Guid) -> (r: String)
    ensures
        r@ == composite_id_spec(langid, *clsid, *profile),
{
    let mut r = String::from_str("TSF:");
    let lang = crate::text::chars_to_string(&dec_render(langid as u64));
    r.append(lang.as_str());
    r.append(":");
    let c = render_guid(clsid);
    r.append(c.as_str());
    r.append(":");
    let p = render_guid(profile);
    r.append(p.as_str());
    proof {
        assert(r@ =~= composite_id_spec(langid, *clsid, *profile));
    }
    r
}

/// What decoding accepts: exactly four colon-separated fields, a decimal
/// 16-bit language id, and two well-formed GUID fields, checked in that
/// order.
pub open spec fn decode_composite_spec(s: Seq<char>) -> Result<CompositeId, LayoutError> {
    let parts = split_on(s, ':');
    if parts.len() != 4 {
        Err(LayoutError::InvalidFormat)
    } else if !dec_group_ok(parts[1], 0xFFFF) {
        Err(LayoutError::InvalidLangId)
    } else if parse_guid_spec(parts[2]) is Err {
        Err(LayoutError::InvalidGuid)
    } else if parse_guid_spec(parts[3]) is Err {
        Err(LayoutError::InvalidGuid)
    } else {
        Ok(
            CompositeId {
                langid: dec_seq_val(parts[1]) as u16,
                clsid: parse_guid_spec(parts[2]) ->Ok_0,
                profile: parse_guid_spec(parts[3]) ->Ok_0,
            },
        )
    }
}

/// Decodes a composite token.  Fails with `InvalidFormat` unless there
/// are exactly four `:`-separated fields, with `InvalidLangId` when the
/// language field is not a decimal 16-bit number, and with `InvalidGuid`
/// when either GUID field does not parse.
pub fn decode_composite(s: &str) -> (r: Result<CompositeId, LayoutError>)
    ensures
        r == decode_composite_spec(s@),
        r matches Ok(c) ==> c.clsid.wf() && c.profile.wf(),
{
    let chars = str_to_chars(s);
    let parts = split_chars(&chars, ':');
    proof {
        assert(views_of(parts@) == split_on(s@, ':'));
        assert(parts@.len() == views_of(parts@).len());
    }
    if parts.len() != 4 {
        return Err(LayoutError::InvalidFormat);
    }
    proof {
        assert(forall|i: int| 0 <= i < 4 ==> views_of(parts@)[i] == #[trigger] parts@[i]@);
    }
    let langid = match parse_dec_bounded(&parts[1], 0xFFFF) {
        Some(v) => v as u16,
        None => {
            return Err(LayoutError::InvalidLangId);
        },
    };
    let clsid_text = crate::text::chars_to_string(&parts[2]);
    let clsid = match parse_guid(clsid_text.as_str()) {
        Ok(g) => g,
        Err(_) => {
            return Err(LayoutError::InvalidGuid);
        },
    };
    let profile_text = crate::text::chars_to_string(&parts[3]);
    let profile = match parse_guid(profile_text.as_str()) {
        Ok(g) => g,
        Err(_) => {
            return Err(LayoutError::InvalidGuid);
        },
    };
    Ok(CompositeId { langid, clsid, profile })
}

/// The composite identifier is lossless: decoding the token encoded for
/// a (language, class, profile) triple gives the same triple back, for
/// every well-formed pair of GUIDs.
pub proof fn lemma_composite_roundtrip(langid: u16, clsid: Guid, profile: Guid)
    requires
        clsid.wf(),
        profile.wf(),
    ensures
        decode_composite_spec(composite_id_spec(langid, clsid, profile)) == Ok::<
            CompositeId,
            LayoutError,
        >(CompositeId { langid, clsid, profile }),
{
    reveal_strlit("TSF:");
    reveal_strlit("TSF");
    reveal_strlit(":");
    let dec = dec_render_spec(langid as nat);
    let g1 = render_guid_spec(clsid);
    let g2 = render_guid_spec(profile);
    let s = composite_id_spec(langid, clsid, profile);
    lemma_dec_render_val(langid as nat);
    lemma_render_guid_no_colon(clsid);
    lemma_render_guid_no_colon(profile);
    assert(has_no_char("TSF"@, ':')) by {
        assert("TSF"@.len() == 3);
        assert("TSF"@[0] == 'T' && "TSF"@[1] == 'S' && "TSF"@[2] == 'F');
    }
    assert(has_no_char(dec, ':'));

    // The token splits on ':' into exactly the four framed fields.
    let tail1 = g1 + seq![':'] + g2;
    let tail0 = dec + seq![':'] + tail1;
    assert("TSF:"@ =~= "TSF"@ + seq![':']);
    assert(":"@ =~= seq![':']);
    assert(s =~= "TSF"@ + seq![':'] + tail0);
    lemma_split_prefix("TSF"@, tail0, ':');
    lemma_split_prefix(dec, tail1, ':');
    lemma_split_prefix(g1, g2, ':');
    lemma_split_whole(g2, ':');
    assert(tail0 =~= dec + seq![':'] + tail1);
    let parts = split_on(s, ':');
    assert(parts =~~= seq!["TSF"@, dec, g1, g2]);
    assert(parts.len() == 4);
    assert(parts[1] == dec && parts[2] == g1 && parts[3] == g2);

    // The language field reads back as the same 16-bit value, and each
    // GUID field parses back to the GUID it was rendered from.
    assert(dec_group_ok(dec, 0xFFFF));
    assert(dec_seq_val(dec) == langid as nat);
    lemma_guid_roundtrip(clsid);
    lemma_guid_roundtrip(profile);
    assert(parse_guid_spec(g1) == Ok::<Guid, LayoutError>(clsid));
    assert(parse_guid_spec(g2) == Ok::<Guid, LayoutError>(profile));
}

} // verus!
