//! The legacy keyboard-layout source: naming a layout handle from the
//! OS description when one exists, else from a small built-in table.

use vstd::prelude::*;

use crate::catalog::{entries_of, entry_of, LayoutInfo};
use crate::errors::LayoutError;
use crate::hexnum::hex_render_spec;
use crate::ident::encode_legacy;

verus! {

/// The display name of a legacy handle: the OS description when it is
/// nonempty, a built-in name for the stock US-English and
/// Simplified-Chinese layouts, and a generic hex label otherwise.
pub open spec fn legacy_name_spec(handle: u32, desc: Seq<char>) -> Seq<char> {
    if desc.len() > 0 {
        desc
    } else if handle == 0x409 || handle == 0x409_0409 {
        "English (US) - Legacy"@
    } else if handle == 0x804 || handle == 0x804_0804 {
        "Chinese (Simplified) - Default"@
    } else {
        "Legacy Layout "@ + hex_render_spec(handle as nat, 8)
    }
}

pub fn legacy_layout_name(handle: u32, desc: &str) -> (r: String)
    ensures
        r@ == legacy_name_spec(handle, desc@),
{
    if desc.unicode_len() > 0 {
        return String::from_str(desc.to_owned().as_str());
    }
    if handle == 0x409 || handle == 0x409_0409 {
        return String::from_str("English (US) - Legacy");
    }
    if handle == 0x804 || handle == 0x804_0804 {
        return String::from_str("Chinese (Simplified) - Default");
    }
    let mut r = String::from_str("Legacy Layout ");
    let hex = encode_legacy(handle);
    r.append(hex.as_str());
    r
}

/// One catalog entry for a loaded legacy handle and its description.
pub fn legacy_layout_info(handle: u32, desc: &str) -> (r: LayoutInfo)
    ensures
        r.id@ == hex_render_spec(handle as nat, 8),
        r.name@ == legacy_name_spec(handle, desc@),
{
    LayoutInfo { id: encode_legacy(handle), name: legacy_layout_name(handle, desc) }
}

pub open spec fn legacy_entries_spec(s: Seq<(u32, Seq<char>)>) -> Seq<(Seq<char>, Seq<char>)> {
    s.map_values(
        |e: (u32, Seq<char>)| (hex_render_spec(e.0 as nat, 8), legacy_name_spec(e.0, e.1)),
    )
}

pub open spec fn handle_descs(entries: Seq<(u32, String)>) -> Seq<(u32, Seq<char>)> {
    entries.map_values(|e: (u32, String)| (e.0, e.1@))
}

/// The whole legacy catalog from the loaded handles and their OS
/// descriptions, in enumeration order; an empty enumeration is the
/// `NoLayouts` failure, as the legacy source treats it.
pub fn build_legacy_catalog(entries: &Vec<(u32, String)>) -> (r: Result<
    Vec<LayoutInfo>,
    LayoutError,
>)
    ensures
        match r {
            Ok(c) => entries@.len() > 0 && entries_of(c@) == legacy_entries_spec(
                handle_descs(entries@),
            ),
            Err(e) => e == LayoutError::NoLayouts && entries@.len() == 0,
        },
{
    if entries.len() == 0 {
        proof {
            assert(entries@ =~= Seq::<(u32, String)>::empty());
        }
        return Err(LayoutError::NoLayouts);
    }
    let mut r: Vec<LayoutInfo> = Vec::new();
    let mut i: usize = 0;
    proof {
        assert(entries_of(r@) =~= legacy_entries_spec(handle_descs(entries@.take(0))));
    }
    while i < entries.len()
        invariant
            i <= entries@.len(),
            entries_of(r@) == legacy_entries_spec(handle_descs(entries@.take(i as int))),
        decreases entries@.len() - i,
    {
        let info = legacy_layout_info(entries[i].0, entries[i].1.as_str());
        let ghost old_r = r@;
        r.push(info);
        proof {
            assert(r@.drop_last() =~= old_r);
            assert(entries_of(r@) =~~= entries_of(old_r).push(entry_of(info)));
            assert(entries_of(r@) =~~= legacy_entries_spec(handle_descs(entries@.take(i + 1))));
        }
        i = i + 1;
    }
    proof {
        assert(entries@.take(entries@.len() as int) =~= entries@);
    }
    Ok(r)
}

} // verus!
