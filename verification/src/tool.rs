//! Parsing the external enumeration utility's output: one layout per
//! line, `<4-hex-digit langid>:<rest>`, where the rest is either a pair
//! of brace-delimited GUID fragments or an 8-character legacy id.
//! Malformed lines are skipped, never an error.

use vstd::prelude::*;

use crate::catalog::{entries_of, entry_of, LayoutInfo};
use crate::hexnum::{
    all_hex, dec_render, dec_render_spec, hex_seq_val, lemma_hex_seq_val_bound, lemma_pow16_vals,
    parse_hex_bounded,
};
use crate::namer::{identify_ime_by_guid, identify_spec};
use crate::text::{
    chars_to_string, split_chars, split_on, str_to_chars, sub_vec, trim_close, trim_close_spec,
    trim_open, trim_open_spec, trim_space, trim_space_spec, views_of,
};

verus! {

/// A `}{` seam between two brace-delimited fragments at position `i`.
pub open spec fn pair_at(s: Seq<char>, i: int) -> bool {
    0 <= i && i + 1 < s.len() && s[i] == '}' && s[i + 1] == '{'
}

pub open spec fn count_pairs_upto(s: Seq<char>, n: int) -> nat
    decreases n,
{
    if n <= 0 {
        0
    } else {
        count_pairs_upto(s, n - 1) + if pair_at(s, n - 1) {
            1nat
        } else {
            0nat
        }
    }
}

pub open spec fn count_pairs(s: Seq<char>) -> nat {
    count_pairs_upto(s, s.len() as int)
}

/// The position of the only `}{` seam, meaningful when there is exactly
/// one.
pub open spec fn first_pair_pos(s: Seq<char>) -> int {
    choose|i: int| pair_at(s, i) && count_pairs_upto(s, i) == 0
}

proof fn lemma_count_mono(s: Seq<char>, m: int, n: int)
    requires
        0 <= m <= n,
    ensures
        count_pairs_upto(s, m) <= count_pairs_upto(s, n),
    decreases n - m,
{
    if m < n {
        lemma_count_mono(s, m, n - 1);
    }
}

proof fn lemma_first_pair_at(s: Seq<char>, i: int)
    requires
        pair_at(s, i),
        count_pairs_upto(s, i) == 0,
    ensures
        first_pair_pos(s) == i,
{
    assert(pair_at(s, i) && count_pairs_upto(s, i) == 0);
    let j = first_pair_pos(s);
    assert(pair_at(s, j) && count_pairs_upto(s, j) == 0);
    if j < i {
        assert(count_pairs_upto(s, j + 1) >= 1);
        lemma_count_mono(s, j + 1, i);
        assert(false);
    }
    if i < j {
        assert(count_pairs_upto(s, i + 1) >= 1);
        lemma_count_mono(s, i + 1, j);
        assert(false);
    }
}

/// Counts the `}{` seams and reports the first one's position.
fn find_pair(s: &Vec<char>) -> (r: (usize, usize))
    ensures
        r.0 as nat == count_pairs(s@),
        r.0 > 0 ==> pair_at(s@, r.1 as int) && count_pairs_upto(s@, r.1 as int) == 0,
{
    let n = s.len();
    if n == 0 {
        return (0, 0);
    }
    let mut count: usize = 0;
    let mut first: usize = 0;
    let mut i: usize = 0;
    while i < n - 1
        invariant
            n == s@.len(),
            n >= 1,
            i <= n - 1,
            count <= i,
            count as nat == count_pairs_upto(s@, i as int),
            count > 0 ==> pair_at(s@, first as int) && count_pairs_upto(s@, first as int) == 0,
        decreases n - i,
    {
        if s[i] == '}' && s[i + 1] == '{' {
            if count == 0 {
                first = i;
            }
            count = count + 1;
        }
        i = i + 1;
    }
    proof {
        assert(!pair_at(s@, n - 1));
        assert(count_pairs_upto(s@, n as int) == count_pairs_upto(s@, n - 1));
    }
    (count, first)
}

/// The language annotation used by this source's two-entry table.
pub open spec fn tool_lang_spec(lid: nat) -> Seq<char> {
    if lid == 0x804 {
        "Chinese (Simplified)"@
    } else if lid == 0x409 {
        "English (US)"@
    } else {
        "Other Language"@
    }
}

fn tool_lang(lid: u64) -> (r: String)
    ensures
        r@ == tool_lang_spec(lid as nat),
{
    if lid == 0x804 {
        String::from_str("Chinese (Simplified)")
    } else if lid == 0x409 {
        String::from_str("English (US)")
    } else {
        String::from_str("Other Language")
    }
}

/// What one output line contributes, if anything.  The line is trimmed;
/// it must be longer than five characters with `:` fifth and a 4-hex
/// language id first.  A rest opening with `{` yields a composite entry
/// only when it holds exactly one `}{` seam; a rest of exactly eight
/// characters yields a legacy entry; everything else is skipped.
pub open spec fn tool_line_spec(line: Seq<char>) -> Option<(Seq<char>, Seq<char>)> {
    let t = trim_space_spec(line);
    if t.len() <= 5 {
        None
    } else if t[4] != ':' {
        None
    } else if !all_hex(t.take(4)) {
        None
    } else {
        let lid = hex_seq_val(t.take(4));
        let rest = t.skip(5);
        if rest[0] == '{' {
            if count_pairs(rest) == 1 {
                let p = first_pair_pos(rest);
                let clsid = trim_open_spec(rest.take(p));
                let profile = trim_close_spec(rest.skip(p + 2));
                Some(
                    (
                        "TSF:"@ + dec_render_spec(lid) + ":"@ + clsid + ":"@ + profile,
                        identify_spec(rest) + " ("@ + tool_lang_spec(lid) + ")"@,
                    ),
                )
            } else {
                None
            }
        } else {
            if rest.len() == 8 {
                Some(
                    (
                        rest,
                        (if lid == 0x409 {
                            "English (US)"@
                        } else {
                            "Legacy IME"@
                        }) + " ("@ + tool_lang_spec(lid) + ")"@,
                    ),
                )
            } else {
                None
            }
        }
    }
}

/// Parses one line of the utility's output.
pub fn parse_tool_line(line: &str) -> (r: Option<LayoutInfo>)
    ensures
        match r {
            Some(li) => tool_line_spec(line@) == Some((li.id@, li.name@)),
            None => tool_line_spec(line@) is None,
        },
{
    let chars = str_to_chars(line);
    let t = trim_space(&chars);
    if t.len() <= 5 {
        return None;
    }
    if t[4] != ':' {
        return None;
    }
    let head = sub_vec(&t, 0, 4);
    proof {
        assert(head@ =~= trim_space_spec(line@).take(4));
        lemma_pow16_vals();
        if all_hex(head@) {
            lemma_hex_seq_val_bound(head@);
        }
    }
    let lid = match parse_hex_bounded(&head, 0xFFFF) {
        Some(v) => v,
        None => {
            return None;
        },
    };
    let rest = sub_vec(&t, 5, t.len());
    proof {
        assert(rest@ =~= trim_space_spec(line@).skip(5));
    }
    let lang = tool_lang(lid);
    if rest[0] == '{' {
        let (count, first) = find_pair(&rest);
        if count != 1 {
            return None;
        }
        proof {
            lemma_first_pair_at(rest@, first as int);
        }
        let clsid = trim_open(&sub_vec(&rest, 0, first));
        let profile = trim_close(&sub_vec(&rest, first + 2, rest.len()));
        let mut id = String::from_str("TSF:");
        let dec = chars_to_string(&dec_render(lid));
        id.append(dec.as_str());
        id.append(":");
        let c = chars_to_string(&clsid);
        id.append(c.as_str());
        id.append(":");
        let p = chars_to_string(&profile);
        id.append(p.as_str());
        let rest_text = chars_to_string(&rest);
        let mut name = identify_ime_by_guid(rest_text.as_str());
        name.append(" (");
        name.append(lang.as_str());
        name.append(")");
        proof {
            let spec_rest = trim_space_spec(line@).skip(5);
            assert(clsid@ == trim_open_spec(spec_rest.take(first_pair_pos(spec_rest))));
            assert(profile@ == trim_close_spec(spec_rest.skip(first_pair_pos(spec_rest) + 2)));
            assert(id@ =~= tool_line_spec(line@)->Some_0.0);
            assert(name@ =~= tool_line_spec(line@)->Some_0.1);
        }
        Some(LayoutInfo { id, name })
    } else {
        if rest.len() != 8 {
            return None;
        }
        let id = chars_to_string(&rest);
        let mut name = if lid == 0x409 {
            String::from_str("English (US)")
        } else {
            String::from_str("Legacy IME")
        };
        name.append(" (");
        name.append(lang.as_str());
        name.append(")");
        proof {
            assert(name@ =~= tool_line_spec(line@)->Some_0.1);
        }
        Some(LayoutInfo { id, name })
    }
}

pub open spec fn tool_lines_spec(lines: Seq<Seq<char>>) -> Seq<(Seq<char>, Seq<char>)>
    decreases lines.len(),
{
    if lines.len() == 0 {
        Seq::empty()
    } else {
        tool_lines_spec(lines.drop_last()) + match tool_line_spec(lines.last()) {
            Some(e) => seq![e],
            None => Seq::empty(),
        }
    }
}

/// The whole catalog this source contributes for the utility's full
/// output: every newline-separated line parsed in order, the unusable
/// ones dropped silently.
pub open spec fn tool_catalog_spec(text: Seq<char>) -> Seq<(Seq<char>, Seq<char>)> {
    tool_lines_spec(split_on(text, '\n'))
}

pub fn parse_tool_output(text: &str) -> (r: Vec<LayoutInfo>)
    ensures
        entries_of(r@) == tool_catalog_spec(text@),
{
    let chars = str_to_chars(text);
    let lines = split_chars(&chars, '\n');
    let mut r: Vec<LayoutInfo> = Vec::new();
    let mut i: usize = 0;
    proof {
        assert(entries_of(r@) =~= tool_lines_spec(views_of(lines@).take(0)));
    }
    while i < lines.len()
        invariant
            i <= lines@.len(),
            views_of(lines@) == split_on(text@, '\n'),
            entries_of(r@) == tool_lines_spec(views_of(lines@).take(i as int)),
        decreases lines@.len() - i,
    {
        let ghost pre = views_of(lines@).take(i + 1);
        proof {
            assert(pre.drop_last() =~= views_of(lines@).take(i as int));
            assert(pre.last() == views_of(lines@)[i as int]);
            assert(views_of(lines@)[i as int] == lines@[i as int]@);
        }
        let line_text = chars_to_string(&lines[i]);
        match parse_tool_line(line_text.as_str()) {
            Some(li) => {
                let ghost old_r = r@;
                r.push(li);
                proof {
                    assert(r@.drop_last() =~= old_r);
                    assert(entries_of(r@) =~~= entries_of(old_r).push(entry_of(li)));
                    assert(entries_of(r@) =~~= tool_lines_spec(pre));
                }
            },
            None => {
                proof {
                    assert(entries_of(r@) =~~= tool_lines_spec(pre));
                }
            },
        }
        i = i + 1;
    }
    proof {
        assert(views_of(lines@).take(views_of(lines@).len() as int) =~= views_of(lines@));
    }
    r
}

} // verus!
