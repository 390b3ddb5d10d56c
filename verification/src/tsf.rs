//! The rich text-services source: naming an active language profile from
//! its description, with the heuristic namer and a language annotation as
//! the fallback, and building the composite identifier for it.

use vstd::prelude::*;

use crate::catalog::{entries_of, entry_of, LayoutInfo};
use crate::guid::{render_guid, render_guid_spec, Guid};
use crate::hexnum::{hex_render, hex_render_spec};
use crate::ident::{composite_id_spec, encode_composite};
use crate::namer::{identify_ime_by_guid, identify_spec};
use crate::text::{is_space_char, str_to_chars};

verus! {

/// One language profile as the enumeration boundary hands it over:
/// language id, class and profile GUIDs, the profile description (empty
/// when the OS had none), and whether the profile is active.
#[derive(Debug)]
pub struct TsfProfile {
    pub langid: u16,
    pub clsid: Guid,
    pub profile: Guid,
    pub description: String,
    pub active: bool,
}

pub open spec fn is_blank(s: Seq<char>) -> bool {
    forall|i: int| 0 <= i < s.len() ==> is_space_char(#[trigger] s[i])
}

/// The display name of a profile: its description when it has any
/// visible character; otherwise the heuristic name of its class GUID,
/// annotated by language — the two baseline languages specially, every
/// other language by its hex id.
pub open spec fn tsf_name_spec(langid: u16, clsid: Guid, desc: Seq<char>) -> Seq<char> {
    if !is_blank(desc) {
        desc
    } else {
        let ime = identify_spec(render_guid_spec(clsid));
        if langid == 0x804 {
            ime + " (Chinese)"@
        } else if langid == 0x409 {
            "English (US)"@
        } else {
            "Language 0x"@ + hex_render_spec(langid as nat, 4)
        }
    }
}

fn is_blank_exec(s: &str) -> (r: bool)
    ensures
        r == is_blank(s@),
{
    let chars = str_to_chars(s);
    let mut i: usize = 0;
    while i < chars.len()
        invariant
            chars@ == s@,
            i <= chars@.len(),
            forall|j: int| 0 <= j < i ==> is_space_char(#[trigger] s@[j]),
        decreases chars@.len() - i,
    {
        let c = chars[i];
        if !(c == ' ' || c == '\t' || c == '\r' || c == '\n') {
            proof {
                assert(!is_space_char(s@[i as int]));
            }
            return false;
        }
        i = i + 1;
    }
    true
}

pub fn tsf_profile_name(langid: u16, clsid: &Guid, desc: &str) -> (r: String)
    ensures
        r@ == tsf_name_spec(langid, *clsid, desc@),
{
    if !is_blank_exec(desc) {
        return String::from_str(desc.to_owned().as_str());
    }
    let guid_text = render_guid(clsid);
    let ime = identify_ime_by_guid(guid_text.as_str());
    if langid == 0x804 {
        let mut r = ime;
        r.append(" (Chinese)");
        r
    } else if langid == 0x409 {
        String::from_str("English (US)")
    } else {
        let mut r = String::from_str("Language 0x");
        let hex = crate::text::chars_to_string(&hex_render(langid as u64, 4));
        r.append(hex.as_str());
        r
    }
}

pub open spec fn tsf_entry_spec(p: TsfProfile) -> Option<(Seq<char>, Seq<char>)> {
    if p.active {
        Some(
            (
                composite_id_spec(p.langid, p.clsid, p.profile),
                tsf_name_spec(p.langid, p.clsid, p.description@),
            ),
        )
    } else {
        None
    }
}

/// The catalog entry for one profile; inactive profiles contribute
/// nothing.
pub fn tsf_profile_info(p: &TsfProfile) -> (r: Option<LayoutInfo>)
    ensures
        match r {
            Some(li) => tsf_entry_spec(*p) == Some((li.id@, li.name@)),
            None => tsf_entry_spec(*p) is None,
        },
{
    if !p.active {
        return None;
    }
    let id = encode_composite(p.langid, &p.clsid, &p.profile);
    let name = tsf_profile_name(p.langid, &p.clsid, p.description.as_str());
    Some(LayoutInfo { id, name })
}

pub open spec fn tsf_entries_spec(s: Seq<TsfProfile>) -> Seq<(Seq<char>, Seq<char>)>
    decreases s.len(),
{
    if s.len() == 0 {
        Seq::empty()
    } else {
        tsf_entries_spec(s.drop_last()) + match tsf_entry_spec(s.last()) {
            Some(e) => seq![e],
            None => Seq::empty(),
        }
    }
}

/// The whole rich catalog from the enumerated profiles, in enumeration
/// order, skipping inactive ones.
pub fn build_tsf_catalog(profiles: &Vec<TsfProfile>) -> (r: Vec<LayoutInfo>)
    ensures
        entries_of(r@) == tsf_entries_spec(profiles@),
{
    let mut r: Vec<LayoutInfo> = Vec::new();
    let mut i: usize = 0;
    proof {
        assert(entries_of(r@) =~= tsf_entries_spec(profiles@.take(0)));
    }
    while i < profiles.len()
        invariant
            i <= profiles@.len(),
            entries_of(r@) == tsf_entries_spec(profiles@.take(i as int)),
        decreases profiles@.len() - i,
    {
        let ghost pre = profiles@.take(i + 1);
        proof {
            assert(pre.drop_last() =~= profiles@.take(i as int));
            assert(pre.last() == profiles@[i as int]);
        }
        match tsf_profile_info(&profiles[i]) {
            Some(li) => {
                let ghost old_r = r@;
                r.push(li);
                proof {
                    assert(r@.drop_last() =~= old_r);
                    assert(entries_of(r@) =~~= entries_of(old_r).push(entry_of(li)));
                    assert(entries_of(r@) =~~= tsf_entries_spec(pre));
                }
            },
            None => {
                proof {
                    assert(tsf_entries_spec(pre) =~~= entries_of(r@));
                }
            },
        }
        i = i + 1;
    }
    proof {
        assert(profiles@.take(profiles@.len() as int) =~= profiles@);
    }
    r
}

} // verus!
