//! Characters, strings and the small text transforms the engine needs:
//! case folding, trimming, splitting and substring search.

use vstd::prelude::*;

verus! {

// ---------- character classes ----------

pub open spec fn is_space_char(c: char) -> bool {
    c == ' ' || c == '\t' || c == '\r' || c == '\n'
}

pub open spec fn is_brace_char(c: char) -> bool {
    c == '{' || c == '}'
}

/// ASCII upper-casing of one character; everything else is unchanged.
pub open spec fn upper_char(c: char) -> char {
    if 'a' <= c && c <= 'z' {
        (((c as u8) - 32) as u8) as char
    } else {
        c
    }
}

pub open spec fn upper_seq(s: Seq<char>) -> Seq<char> {
    s.map_values(|c: char| upper_char(c))
}

/// ASCII lower-casing of one character; everything else is unchanged.
pub open spec fn lower_char(c: char) -> char {
    if 'A' <= c && c <= 'Z' {
        (((c as u8) + 32) as u8) as char
    } else {
        c
    }
}

pub open spec fn lower_seq(s: Seq<char>) -> Seq<char> {
    s.map_values(|c: char| lower_char(c))
}

// ---------- exec helpers over chars ----------

/// Relies on String::push: appends exactly one character at the end.
#[verifier::external_body]
pub fn push_char(s: &mut String, c: char)
    ensures
        final(s)@ == old(s)@.push(c),
{
    s.push(c);
}

pub fn chars_to_string(v: &Vec<char>) -> (r: String)
    ensures
        r@ == v@,
{
    let mut r = String::new();
    let mut i: usize = 0;
    while i < v.len()
        invariant
            i <= v@.len(),
            r@ == v@.take(i as int),
        decreases v@.len() - i,
    {
        push_char(&mut r, v[i]);
        proof {
            assert(v@.take(i as int).push(v@[i as int]) =~= v@.take(i + 1));
        }
        i = i + 1;
    }
    proof {
        assert(v@.take(v@.len() as int) =~= v@);
    }
    r
}

pub fn str_to_chars(s: &str) -> (r: Vec<char>)
    ensures
        r@ == s@,
{
    let n = s.unicode_len();
    let mut r: Vec<char> = Vec::new();
    let mut i: usize = 0;
    while i < n
        invariant
            n == s@.len(),
            i <= n,
            r@ == s@.take(i as int),
        decreases n - i,
    {
        r.push(s.get_char(i));
        proof {
            assert(s@.take(i as int).push(s@[i as int]) =~= s@.take(i + 1));
        }
        i = i + 1;
    }
    proof {
        assert(s@.take(s@.len() as int) =~= s@);
    }
    r
}

pub fn str_eq(a: &str, b: &str) -> (r: bool)
    ensures
        r == (a@ == b@),
{
    let na = a.unicode_len();
    let nb = b.unicode_len();
    if na != nb {
        return false;
    }
    let mut i: usize = 0;
    while i < na
        invariant
            na == a@.len(),
            na == b@.len(),
            i <= na,
            forall|j: int| 0 <= j < i ==> a@[j] == b@[j],
        decreases na - i,
    {
        if a.get_char(i) != b.get_char(i) {
            return false;
        }
        i = i + 1;
    }
    proof {
        assert(a@ =~= b@);
    }
    true
}

pub fn upper_chars(v: &Vec<char>) -> (r: Vec<char>)
    ensures
        r@ == upper_seq(v@),
{
    let mut r: Vec<char> = Vec::new();
    let mut i: usize = 0;
    while i < v.len()
        invariant
            i <= v@.len(),
            r@ == upper_seq(v@.take(i as int)),
        decreases v@.len() - i,
    {
        let c = v[i];
        let u: char = if c >= 'a' && c <= 'z' {
            ((c as u8) - 32) as char
        } else {
            c
        };
        r.push(u);
        proof {
            assert(upper_seq(v@.take(i as int)).push(upper_char(v@[i as int])) =~= upper_seq(
                v@.take(i + 1),
            ));
        }
        i = i + 1;
    }
    proof {
        assert(v@.take(v@.len() as int) =~= v@);
    }
    r
}

pub fn sub_vec(v: &Vec<char>, from: usize, to: usize) -> (r: Vec<char>)
    requires
        from <= to <= v@.len(),
    ensures
        r@ == v@.subrange(from as int, to as int),
{
    let mut r: Vec<char> = Vec::new();
    let mut i: usize = from;
    while i < to
        invariant
            from <= i <= to <= v@.len(),
            r@ == v@.subrange(from as int, i as int),
        decreases to - i,
    {
        r.push(v[i]);
        proof {
            assert(v@.subrange(from as int, i as int).push(v@[i as int]) =~= v@.subrange(
                from as int,
                i + 1,
            ));
        }
        i = i + 1;
    }
    r
}

// ---------- splitting ----------

/// Splitting a character sequence at every occurrence of `sep`; the result
/// always holds at least one (possibly empty) piece.
pub open spec fn split_on(s: Seq<char>, sep: char) -> Seq<Seq<char>>
    decreases s.len(),
{
    if s.len() == 0 {
        seq![Seq::<char>::empty()]
    } else if s[0] == sep {
        seq![Seq::<char>::empty()] + split_on(s.skip(1), sep)
    } else {
        let rest = split_on(s.skip(1), sep);
        seq![seq![s[0]] + rest[0]] + rest.skip(1)
    }
}

pub proof fn lemma_split_len(s: Seq<char>, sep: char)
    ensures
        split_on(s, sep).len() >= 1,
    decreases s.len(),
{
    if s.len() != 0 {
        lemma_split_len(s.skip(1), sep);
    }
}

pub open spec fn has_no_char(s: Seq<char>, sep: char) -> bool {
    forall|i: int| 0 <= i < s.len() ==> s[i] != sep
}

pub proof fn lemma_split_whole(a: Seq<char>, sep: char)
    requires
        has_no_char(a, sep),
    ensures
        split_on(a, sep) == seq![a],
    decreases a.len(),
{
    if a.len() == 0 {
        assert(split_on(a, sep) =~~= seq![a]);
    } else {
        assert(a[0] != sep);
        lemma_split_whole(a.skip(1), sep);
        assert(seq![a[0]] + a.skip(1) =~= a);
        assert(split_on(a, sep) =~~= seq![a]);
    }
}

pub proof fn lemma_split_prefix(a: Seq<char>, b: Seq<char>, sep: char)
    requires
        has_no_char(a, sep),
    ensures
        split_on(a + seq![sep] + b, sep) == seq![a] + split_on(b, sep),
    decreases a.len(),
{
    let s = a + seq![sep] + b;
    if a.len() == 0 {
        assert(s[0] == sep);
        assert(s.skip(1) =~= b);
        assert(split_on(s, sep) =~~= seq![a] + split_on(b, sep));
    } else {
        assert(s[0] == a[0]);
        assert(a[0] != sep);
        lemma_split_prefix(a.skip(1), b, sep);
        assert(s.skip(1) =~= a.skip(1) + seq![sep] + b);
        let rest = split_on(s.skip(1), sep);
        assert(rest == seq![a.skip(1)] + split_on(b, sep));
        assert(rest[0] == a.skip(1));
        assert(seq![a[0]] + a.skip(1) =~= a);
        assert(rest.skip(1) =~= split_on(b, sep));
        assert(split_on(s, sep) =~~= seq![a] + split_on(b, sep));
    }
}

pub open spec fn views_of(v: Seq<Vec<char>>) -> Seq<Seq<char>> {
    v.map_values(|p: Vec<char>| p@)
}

pub fn split_chars(s: &Vec<char>, sep: char) -> (r: Vec<Vec<char>>)
    ensures
        views_of(r@) == split_on(s@, sep),
{
    let mut done: Vec<Vec<char>> = Vec::new();
    let mut cur: Vec<char> = Vec::new();
    let mut i: usize = 0;
    proof {
        lemma_split_len(s@, sep);
        assert(s@.skip(0) =~= s@);
        let sp = split_on(s@, sep);
        assert(views_of(done@) + seq![cur@ + sp[0]] + sp.skip(1) =~~= sp);
    }
    while i < s.len()
        invariant
            i <= s@.len(),
            split_on(s@.skip(i as int), sep).len() >= 1,
            split_on(s@, sep) =~~= views_of(done@) + seq![cur@ + split_on(s@.skip(i as int), sep)[0]]
                + split_on(s@.skip(i as int), sep).skip(1),
        decreases s@.len() - i,
    {
        let ghost tail = s@.skip(i as int);
        proof {
            assert(tail.len() > 0);
            assert(tail[0] == s@[i as int]);
            assert(tail.skip(1) =~= s@.skip(i + 1));
            lemma_split_len(s@.skip(i + 1), sep);
        }
        let c = s[i];
        if c == sep {
            let ghost old_done = done@;
            let finished = cur;
            cur = Vec::new();
            done.push(finished);
            proof {
                let next = split_on(s@.skip(i + 1), sep);
                assert(split_on(tail, sep) == seq![Seq::<char>::empty()] + next);
                assert(split_on(tail, sep)[0] =~= Seq::<char>::empty());
                assert(finished@ + split_on(tail, sep)[0] =~= finished@);
                assert(split_on(tail, sep).skip(1) =~= next);
                assert(done@.drop_last() =~= old_done);
                assert(views_of(done@) =~~= views_of(old_done).push(finished@));
                assert(cur@ + next[0] =~= next[0]);
                assert(split_on(s@, sep) =~~= views_of(done@) + seq![cur@ + next[0]] + next.skip(
                    1,
                ));
            }
        } else {
            cur.push(c);
            proof {
                let next = split_on(s@.skip(i + 1), sep);
                assert(split_on(tail, sep) == seq![seq![tail[0]] + next[0]] + next.skip(1));
                assert(cur@ =~= cur@.drop_last().push(c));
                assert(cur@.drop_last() + (seq![c] + next[0]) =~= cur@ + next[0]);
                assert(split_on(s@, sep) =~~= views_of(done@) + seq![cur@ + next[0]] + next.skip(
                    1,
                ));
            }
        }
        i = i + 1;
    }
    proof {
        assert(s@.skip(s@.len() as int) =~= Seq::<char>::empty());
        assert(split_on(Seq::<char>::empty(), sep) == seq![Seq::<char>::empty()]);
        assert(cur@ + Seq::<char>::empty() =~= cur@);
    }
    let ghost old_done = done@;
    let ghost last_piece = cur@;
    done.push(cur);
    proof {
        assert(done@.drop_last() =~= old_done);
        assert(views_of(done@) =~~= views_of(old_done).push(last_piece));
        assert(views_of(old_done) + seq![last_piece] =~= views_of(done@));
        assert(views_of(done@) =~~= split_on(s@, sep));
    }
    done
}

// ---------- trimming ----------

pub open spec fn trim_lead(s: Seq<char>, p: spec_fn(char) -> bool) -> Seq<char>
    decreases s.len(),
{
    if s.len() > 0 && p(s[0]) {
        trim_lead(s.skip(1), p)
    } else {
        s
    }
}

pub open spec fn trim_trail(s: Seq<char>, p: spec_fn(char) -> bool) -> Seq<char>
    decreases s.len(),
{
    if s.len() > 0 && p(s.last()) {
        trim_trail(s.drop_last(), p)
    } else {
        s
    }
}

pub open spec fn trim_ends(s: Seq<char>, p: spec_fn(char) -> bool) -> Seq<char> {
    trim_trail(trim_lead(s, p), p)
}

proof fn lemma_trim_lead_skip(s: Seq<char>, p: spec_fn(char) -> bool, lo: int)
    requires
        0 <= lo <= s.len(),
        forall|j: int| 0 <= j < lo ==> p(s[j]),
    ensures
        trim_lead(s, p) == trim_lead(s.skip(lo), p),
    decreases lo,
{
    if lo == 0 {
        assert(s.skip(0) =~= s);
    } else {
        assert(p(s[0]));
        assert(trim_lead(s, p) == trim_lead(s.skip(1), p));
        lemma_trim_lead_skip(s.skip(1), p, lo - 1);
        assert(s.skip(1).skip(lo - 1) =~= s.skip(lo));
    }
}

proof fn lemma_trim_trail_take(s: Seq<char>, p: spec_fn(char) -> bool, hi: int)
    requires
        0 <= hi <= s.len(),
        forall|j: int| hi <= j < s.len() ==> p(s[j]),
    ensures
        trim_trail(s, p) == trim_trail(s.take(hi), p),
    decreases s.len() - hi,
{
    if hi < s.len() {
        assert(p(s.last()));
        assert(trim_trail(s, p) == trim_trail(s.drop_last(), p));
        lemma_trim_trail_take(s.drop_last(), p, hi);
        assert(s.drop_last().take(hi) =~= s.take(hi));
    } else {
        assert(s.take(hi) =~= s);
    }
}

/// Shared body for the trimming helpers: cut characters of one class from
/// both ends.  `kind` selects the class so each public wrapper keeps an
/// exact contract over `trim_ends`.
fn trim_ends_exec(s: &Vec<char>, open_only: bool, close_only: bool, spaces: bool) -> (r: Vec<char>)
    requires
        !(open_only && close_only),
        !(spaces && (open_only || close_only)),
    ensures
        ({
            let p = trim_pred(open_only, close_only, spaces);
            r@ == trim_ends(s@, p)
        }),
{
    let ghost p = trim_pred(open_only, close_only, spaces);
    let mut lo: usize = 0;
    let mut hi: usize = s.len();
    while lo < hi && trim_hit(s[lo], open_only, close_only, spaces)
        invariant
            lo <= hi <= s@.len(),
            p == trim_pred(open_only, close_only, spaces),
            hi == s@.len(),
            forall|j: int| 0 <= j < lo ==> p(s@[j]),
        decreases hi - lo,
    {
        lo = lo + 1;
    }
    proof {
        lemma_trim_lead_skip(s@, p, lo as int);
    }
    while hi > lo && trim_hit(s[hi - 1], open_only, close_only, spaces)
        invariant
            lo <= hi <= s@.len(),
            p == trim_pred(open_only, close_only, spaces),
            trim_lead(s@, p) == trim_lead(s@.skip(lo as int), p),
            lo < s@.len() ==> !p(s@[lo as int]),
            lo == hi ==> (lo == s@.len() || !p(s@[lo as int])),
            forall|j: int| hi <= j < s@.len() ==> p(s@[j]),
        decreases hi,
    {
        hi = hi - 1;
    }
    let mut r: Vec<char> = Vec::new();
    let mut i: usize = lo;
    while i < hi
        invariant
            lo <= i <= hi <= s@.len(),
            r@ == s@.subrange(lo as int, i as int),
        decreases hi - i,
    {
        r.push(s[i]);
        proof {
            assert(s@.subrange(lo as int, i as int).push(s@[i as int]) =~= s@.subrange(
                lo as int,
                i + 1,
            ));
        }
        i = i + 1;
    }
    proof {
        let t = s@.skip(lo as int);
        if lo == s@.len() {
            assert(t =~= Seq::<char>::empty());
            assert(trim_lead(s@, p) == t);
            assert(trim_ends(s@, p) =~= r@);
        } else {
            assert(t[0] == s@[lo as int]);
            assert(!p(t[0]));
            assert(trim_lead(s@, p) == t);
            assert(forall|j: int|
                hi - lo <= j < t.len() ==> t[j] == s@[j + lo] && p(#[trigger] t[j]));
            lemma_trim_trail_take(t, p, hi - lo);
            let u = t.take(hi - lo);
            if hi > lo {
                assert(u.last() == s@[hi - 1]);
                assert(!p(u.last()));
                assert(trim_trail(u, p) == u);
            } else {
                assert(u =~= Seq::<char>::empty());
            }
            assert(u =~= s@.subrange(lo as int, hi as int));
            assert(trim_ends(s@, p) =~= r@);
        }
    }
    r
}

pub open spec fn trim_pred(open_only: bool, close_only: bool, spaces: bool) -> spec_fn(char) -> bool {
    if open_only {
        |c: char| c == '{'
    } else if close_only {
        |c: char| c == '}'
    } else if spaces {
        |c: char| is_space_char(c)
    } else {
        |c: char| is_brace_char(c)
    }
}

fn trim_hit(c: char, open_only: bool, close_only: bool, spaces: bool) -> (r: bool)
    ensures
        r == trim_pred(open_only, close_only, spaces)(c),
{
    if open_only {
        c == '{'
    } else if close_only {
        c == '}'
    } else if spaces {
        c == ' ' || c == '\t' || c == '\r' || c == '\n'
    } else {
        c == '{' || c == '}'
    }
}

pub open spec fn trim_braces_spec(s: Seq<char>) -> Seq<char> {
    trim_ends(s, |c: char| is_brace_char(c))
}

pub fn trim_braces(s: &Vec<char>) -> (r: Vec<char>)
    ensures
        r@ == trim_braces_spec(s@),
{
    trim_ends_exec(s, false, false, false)
}

pub open spec fn trim_open_spec(s: Seq<char>) -> Seq<char> {
    trim_ends(s, |c: char| c == '{')
}

pub fn trim_open(s: &Vec<char>) -> (r: Vec<char>)
    ensures
        r@ == trim_open_spec(s@),
{
    trim_ends_exec(s, true, false, false)
}

pub open spec fn trim_close_spec(s: Seq<char>) -> Seq<char> {
    trim_ends(s, |c: char| c == '}')
}

pub fn trim_close(s: &Vec<char>) -> (r: Vec<char>)
    ensures
        r@ == trim_close_spec(s@),
{
    trim_ends_exec(s, false, true, false)
}

pub open spec fn trim_space_spec(s: Seq<char>) -> Seq<char> {
    trim_ends(s, |c: char| is_space_char(c))
}

pub fn trim_space(s: &Vec<char>) -> (r: Vec<char>)
    ensures
        r@ == trim_space_spec(s@),
{
    trim_ends_exec(s, false, false, true)
}

// ---------- substring search ----------

pub open spec fn has_sub_at(s: Seq<char>, pat: Seq<char>, i: int) -> bool {
    0 <= i && i + pat.len() <= s.len() && s.subrange(i, i + pat.len()) == pat
}

pub open spec fn has_sub(s: Seq<char>, pat: Seq<char>) -> bool {
    exists|i: int| has_sub_at(s, pat, i)
}

pub fn contains_sub(s: &Vec<char>, pat: &Vec<char>) -> (r: bool)
    ensures
        r == has_sub(s@, pat@),
{
    let n = s.len();
    let m = pat.len();
    if m > n {
        proof {
            assert(forall|i: int| !has_sub_at(s@, pat@, i));
        }
        return false;
    }
    if m == 0 {
        proof {
            assert(s@.subrange(0, 0) =~= pat@);
            assert(has_sub_at(s@, pat@, 0));
        }
        return true;
    }
    let mut i: usize = 0;
    while i <= n - m
        invariant
            1 <= m <= n,
            n == s@.len(),
            m == pat@.len(),
            i <= n - m + 1,
            forall|k: int| 0 <= k < i ==> !has_sub_at(s@, pat@, k),
        decreases n - i,
    {
        let mut j: usize = 0;
        let mut ok: bool = true;
        while j < m
            invariant
                1 <= m <= n,
                n == s@.len(),
                m == pat@.len(),
                i <= n - m,
                j <= m,
                ok ==> forall|t: int| 0 <= t < j ==> s@[i + t] == pat@[t],
                !ok ==> !has_sub_at(s@, pat@, i as int),
            decreases m - j,
        {
            if s[i + j] != pat[j] {
                proof {
                    assert(s@.subrange(i as int, i + m) != pat@) by {
                        assert(s@.subrange(i as int, i + m)[j as int] == s@[i + j]);
                    }
                }
                ok = false;
                j = m;
            } else {
                j = j + 1;
            }
        }
        if ok {
            proof {
                assert(s@.subrange(i as int, i + m) =~= pat@);
                assert(has_sub_at(s@, pat@, i as int));
            }
            return true;
        }
        i = i + 1;
    }
    proof {
        assert forall|k: int| !has_sub_at(s@, pat@, k) by {
            if 0 <= k && k + pat@.len() <= s@.len() {
                assert(k < i);
            }
        }
    }
    false
}

} // verus!
