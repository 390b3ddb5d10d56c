//! Catalog entries and the priority-ordered deduplicating merge of the
//! three discovery sources.

use vstd::prelude::*;

use crate::errors::LayoutError;

verus! {

/// One discovered layout: an identifier token and a display name.
#[derive(Debug, PartialEq, Eq)]
pub struct LayoutInfo {
    pub id: String,
    pub name: String,
}

impl Clone for LayoutInfo {
    fn clone(&self) -> (r: Self)
        ensures
            r.id@ == self.id@,
            r.name@ == self.name@,
    {
        LayoutInfo { id: self.id.clone(), name: self.name.clone() }
    }
}

/// The mathematical content of one entry: its id text and name text.
pub open spec fn entry_of(li: LayoutInfo) -> (Seq<char>, Seq<char>) {
    (li.id@, li.name@)
}

pub open spec fn entries_of(s: Seq<LayoutInfo>) -> Seq<(Seq<char>, Seq<char>)> {
    s.map_values(|li: LayoutInfo| entry_of(li))
}

pub open spec fn seen_id(s: Seq<(Seq<char>, Seq<char>)>, id: Seq<char>) -> bool {
    exists|i: int| 0 <= i < s.len() && s[i].0 == id
}

/// Keeps the first entry of every id, in first-seen order.
pub open spec fn dedup_entries(s: Seq<(Seq<char>, Seq<char>)>) -> Seq<(Seq<char>, Seq<char>)>
    decreases s.len(),
{
    if s.len() == 0 {
        Seq::empty()
    } else {
        let front = dedup_entries(s.drop_last());
        if seen_id(s.drop_last(), s.last().0) {
            front
        } else {
            front.push(s.last())
        }
    }
}

/// Deduplication neither invents nor loses ids.
pub proof fn lemma_dedup_seen(s: Seq<(Seq<char>, Seq<char>)>, id: Seq<char>)
    ensures
        seen_id(dedup_entries(s), id) == seen_id(s, id),
    decreases s.len(),
{
    if s.len() > 0 {
        let front = s.drop_last();
        lemma_dedup_seen(front, id);
        let d = dedup_entries(s);
        if s.last().0 == id {
            assert(seen_id(s, id)) by {
                assert(s[s.len() - 1].0 == id);
            }
            if seen_id(front, id) {
                assert(seen_id(d, id));
            } else {
                if seen_id(front, s.last().0) {
                    assert(seen_id(d, id));
                } else {
                    assert(d == dedup_entries(front).push(s.last()));
                    assert(d[d.len() - 1].0 == id);
                    assert(seen_id(d, id));
                }
            }
        } else {
            if seen_id(s, id) {
                let i = choose|i: int| 0 <= i < s.len() && s[i].0 == id;
                assert(i < s.len() - 1);
                assert(front[i].0 == id);
                assert(seen_id(front, id));
            }
            if seen_id(d, id) {
                let i = choose|i: int| 0 <= i < d.len() && d[i].0 == id;
                if !seen_id(front, s.last().0) {
                    assert(d == dedup_entries(front).push(s.last()));
                    assert(i < d.len() - 1 || d[i] == s.last());
                    if i < d.len() - 1 {
                        assert(dedup_entries(front)[i].0 == id);
                        assert(seen_id(dedup_entries(front), id));
                    }
                } else {
                    assert(seen_id(dedup_entries(front), id));
                }
                assert(seen_id(front, id));
                let j = choose|j: int| 0 <= j < front.len() && front[j].0 == id;
                assert(s[j].0 == id);
            } else {
                if seen_id(front, id) {
                    assert(seen_id(dedup_entries(front), id));
                    let i = choose|i: int|
                        0 <= i < dedup_entries(front).len() && dedup_entries(front)[i].0 == id;
                    assert(d[i].0 == id);
                }
            }
        }
    }
}

/// The merged catalog keeps exactly one entry for an id that several
/// sources carry: the one from the source that came first, name and all,
/// and no other entry with that id survives.
pub proof fn lemma_merge_first_wins(s: Seq<(Seq<char>, Seq<char>)>, i: int)
    requires
        0 <= i < s.len(),
        forall|j: int| 0 <= j < i ==> s[j].0 != s[i].0,
    ensures
        dedup_entries(s).contains(s[i]),
        forall|k: int|
            0 <= k < dedup_entries(s).len() && dedup_entries(s)[k].0 == s[i].0
                ==> dedup_entries(s)[k] == s[i],
    decreases s.len(),
{
    let front = s.drop_last();
    let d = dedup_entries(s);
    if i == s.len() - 1 {
        assert(!seen_id(front, s.last().0)) by {
            if seen_id(front, s.last().0) {
                let j = choose|j: int| 0 <= j < front.len() && front[j].0 == s.last().0;
                assert(s[j].0 == s[i].0);
            }
        }
        assert(d == dedup_entries(front).push(s.last()));
        assert(d[d.len() - 1] == s[i]);
        assert(d.contains(s[i]));
        lemma_dedup_seen(front, s.last().0);
        assert forall|k: int| 0 <= k < d.len() && d[k].0 == s[i].0 implies d[k] == s[i] by {
            if k < d.len() - 1 {
                assert(dedup_entries(front)[k].0 == s[i].0);
                assert(seen_id(dedup_entries(front), s[i].0));
                assert(false);
            }
        }
    } else {
        assert(front[i] == s[i]);
        lemma_merge_first_wins(front, i);
        let df = dedup_entries(front);
        if seen_id(front, s.last().0) {
            assert(d == df);
        } else {
            assert(d == df.push(s.last()));
            assert(d[d.len() - 1] == s.last());
            if s.last().0 == s[i].0 {
                let j = choose|j: int| 0 <= j < front.len() && front[j].0 == s[i].0;
                assert(false);
            }
            let t = choose|t: int| 0 <= t < df.len() && df[t] == s[i];
            assert(d[t] == s[i]);
            assert(d.contains(s[i]));
            assert forall|k: int| 0 <= k < d.len() && d[k].0 == s[i].0 implies d[k] == s[i] by {
                if k < d.len() - 1 {
                    assert(df[k].0 == s[i].0);
                } else {
                    assert(d[k] == s.last());
                    assert(false);
                }
            }
        }
    }
}

/// A catalog whose ids are pairwise distinct passes through the merge
/// unchanged, in order.
pub proof fn lemma_dedup_of_distinct(s: Seq<(Seq<char>, Seq<char>)>)
    requires
        forall|i: int, j: int| 0 <= i < j < s.len() ==> s[i].0 != s[j].0,
    ensures
        dedup_entries(s) == s,
    decreases s.len(),
{
    if s.len() > 0 {
        let front = s.drop_last();
        lemma_dedup_of_distinct(front);
        assert(!seen_id(front, s.last().0)) by {
            if seen_id(front, s.last().0) {
                let j = choose|j: int| 0 <= j < front.len() && front[j].0 == s.last().0;
                assert(s[j].0 == s[s.len() - 1].0);
            }
        }
        assert(front.push(s.last()) =~= s);
    }
}

pub proof fn lemma_dedup_nonempty(s: Seq<(Seq<char>, Seq<char>)>)
    ensures
        (dedup_entries(s).len() > 0) == (s.len() > 0),
    decreases s.len(),
{
    if s.len() > 0 {
        lemma_dedup_nonempty(s.drop_last());
    }
}

/// Whether some entry of `c` already carries `id`.
pub fn contains_id(c: &Vec<LayoutInfo>, id: &String) -> (r: bool)
    ensures
        r == seen_id(entries_of(c@), id@),
{
    let mut i: usize = 0;
    while i < c.len()
        invariant
            i <= c@.len(),
            forall|j: int| 0 <= j < i ==> entries_of(c@)[j].0 != id@,
        decreases c@.len() - i,
    {
        if c[i].id.eq(id) {
            proof {
                assert(entries_of(c@)[i as int].0 == id@);
            }
            return true;
        }
        i = i + 1;
    }
    false
}

fn merge_into(acc: &mut Vec<LayoutInfo>, src: &Vec<LayoutInfo>, Ghost(base): Ghost<
    Seq<(Seq<char>, Seq<char>)>,
>)
    requires
        entries_of(old(acc)@) == dedup_entries(base),
    ensures
        entries_of(final(acc)@) == dedup_entries(base + entries_of(src@)),
{
    let mut i: usize = 0;
    proof {
        assert(base + entries_of(src@).take(0) =~= base);
    }
    while i < src.len()
        invariant
            i <= src@.len(),
            entries_of(acc@) == dedup_entries(base + entries_of(src@).take(i as int)),
        decreases src@.len() - i,
    {
        let ghost whole = base + entries_of(src@).take(i + 1);
        proof {
            assert(whole.drop_last() =~= base + entries_of(src@).take(i as int));
            assert(whole.last() == entries_of(src@)[i as int]);
            assert(entries_of(src@)[i as int] == entry_of(src@[i as int]));
            lemma_dedup_seen(whole.drop_last(), whole.last().0);
        }
        let item = src[i].clone();
        proof {
            assert(entry_of(item) == entry_of(src@[i as int]));
        }
        if !contains_id(acc, &item.id) {
            let ghost old_acc = acc@;
            acc.push(item);
            proof {
                assert(acc@.drop_last() =~= old_acc);
                assert(entries_of(acc@) =~~= entries_of(old_acc).push(entry_of(item)));
                assert(entries_of(acc@) =~~= dedup_entries(whole));
            }
        } else {
            proof {
                assert(entries_of(acc@) =~~= dedup_entries(whole));
            }
        }
        i = i + 1;
    }
    proof {
        assert(entries_of(src@).take(src@.len() as int) =~= entries_of(src@));
    }
}

/// Unions the three sources in priority order, dropping any entry whose
/// id was already taken by an earlier source (or an earlier entry of the
/// same source), and keeping first-seen order.  Reports `NoLayouts` when
/// every source contributed nothing.
pub fn merge(rich: &Vec<LayoutInfo>, external: &Vec<LayoutInfo>, legacy: &Vec<LayoutInfo>) -> (r:
    Result<Vec<LayoutInfo>, LayoutError>)
    ensures
        match r {
            Ok(c) => entries_of(c@) == dedup_entries(
                entries_of(rich@) + entries_of(external@) + entries_of(legacy@),
            ) && c@.len() > 0,
            Err(e) => e == LayoutError::NoLayouts && rich@.len() + external@.len() + legacy@.len()
                == 0,
        },
{
    let mut acc: Vec<LayoutInfo> = Vec::new();
    proof {
        assert(entries_of(acc@) =~= Seq::<(Seq<char>, Seq<char>)>::empty());
        assert(Seq::<(Seq<char>, Seq<char>)>::empty() + entries_of(rich@) =~= entries_of(rich@));
    }
    merge_into(&mut acc, rich, Ghost(Seq::empty()));
    merge_into(&mut acc, external, Ghost(entries_of(rich@)));
    merge_into(&mut acc, legacy, Ghost(entries_of(rich@) + entries_of(external@)));
    proof {
        lemma_dedup_nonempty(entries_of(rich@) + entries_of(external@) + entries_of(legacy@));
    }
    if acc.len() == 0 {
        Err(LayoutError::NoLayouts)
    } else {
        Ok(acc)
    }
}

} // verus!
