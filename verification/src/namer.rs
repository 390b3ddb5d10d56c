//! Heuristic naming of input methods from identifier fragments: an ordered
//! table of known signature substrings, with a truncated-fragment label as
//! the fallback.  The earlier table entry always wins.

use vstd::prelude::*;

use crate::text::{contains_sub, has_sub, push_char, str_to_chars, upper_chars, upper_seq};

verus! {

/// The friendly name for a fragment: the input is upper-cased, the known
/// signatures are tried in table order, and on no match the label quotes
/// the first eight characters of the upper-cased fragment (all of it when
/// shorter).
pub open spec fn identify_spec(s: Seq<char>) -> Seq<char> {
    let u = upper_seq(s);
    if has_sub(u, "81D4E9C9"@) {
        "Microsoft Pinyin"@
    } else if has_sub(u, "E7EA138E"@) {
        "Sogou Pinyin"@
    } else if has_sub(u, "170462E1"@) {
        "Baidu Pinyin"@
    } else if has_sub(u, "F3BA9077"@) {
        "WeChat Keyboard"@
    } else if has_sub(u, "A028AF"@) {
        "QQ Pinyin"@
    } else if has_sub(u, "6A498709"@) {
        "Google Pinyin"@
    } else {
        "IME ("@ + (if u.len() > 8 {
            u.take(8)
        } else {
            u
        }) + ")"@
    }
}

/// Maps an identifier fragment to a friendly input-method name.  The
/// result is a function of the fragment alone, so two calls on the same
/// text always agree.
pub fn identify_ime_by_guid(guid_str: &str) -> (r: String)
    ensures
        r@ == identify_spec(guid_str@),
{
    let chars = str_to_chars(guid_str);
    let upper = upper_chars(&chars);
    if contains_sub(&upper, &str_to_chars("81D4E9C9")) {
        return String::from_str("Microsoft Pinyin");
    }
    if contains_sub(&upper, &str_to_chars("E7EA138E")) {
        return String::from_str("Sogou Pinyin");
    }
    if contains_sub(&upper, &str_to_chars("170462E1")) {
        return String::from_str("Baidu Pinyin");
    }
    if contains_sub(&upper, &str_to_chars("F3BA9077")) {
        return String::from_str("WeChat Keyboard");
    }
    if contains_sub(&upper, &str_to_chars("A028AF")) {
        return String::from_str("QQ Pinyin");
    }
    if contains_sub(&upper, &str_to_chars("6A498709")) {
        return String::from_str("Google Pinyin");
    }
    let mut r = String::from_str("IME (");
    let take: usize = if upper.len() > 8 {
        8
    } else {
        upper.len()
    };
    let mut i: usize = 0;
    while i < take
        invariant
            take <= upper@.len(),
            i <= take,
            r@ == "IME ("@ + upper@.take(take as int).take(i as int),
        decreases take - i,
    {
        push_char(&mut r, upper[i]);
        proof {
            assert(("IME ("@ + upper@.take(take as int).take(i as int)).push(upper@[i as int])
                =~= "IME ("@ + upper@.take(take as int).take(i + 1));
        }
        i = i + 1;
    }
    push_char(&mut r, ')');
    proof {
        reveal_strlit(")");
        let shown = if upper@.len() > 8 {
            upper@.take(8)
        } else {
            upper@
        };
        assert(upper@.take(take as int).take(take as int) =~= shown);
        assert(r@ =~= "IME ("@ + shown + ")"@);
    }
    r
}

/// The table's order is the tie-break: any fragment in which the first
/// table entry's signature occurs gets that entry's name, whatever other
/// signatures the fragment also contains.
pub proof fn lemma_identify_first_entry_wins(s: Seq<char>)
    requires
        has_sub(upper_seq(s), "81D4E9C9"@),
    ensures
        identify_spec(s) == "Microsoft Pinyin"@,
{
}

} // verus!
