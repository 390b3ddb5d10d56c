//! Hexadecimal and decimal digit strings: values, rendering, and bounded
//! parsing, with the lemmas that connect the two directions.

use vstd::prelude::*;

use crate::text::{is_brace_char, lower_char, lower_seq};

verus! {

// ---------- digits ----------

pub open spec fn is_hex_char(c: char) -> bool {
    ('0' <= c && c <= '9') || ('a' <= c && c <= 'f') || ('A' <= c && c <= 'F')
}

pub open spec fn hex_char_val(c: char) -> nat {
    if '0' <= c && c <= '9' {
        ((c as u32) - ('0' as u32)) as nat
    } else if 'a' <= c && c <= 'f' {
        (((c as u32) - ('a' as u32)) + 10) as nat
    } else {
        (((c as u32) - ('A' as u32)) + 10) as nat
    }
}

/// The lowercase hex digit for a value below 16.
pub open spec fn hex_char_of(d: nat) -> char {
    if d == 0 {
        '0'
    } else if d == 1 {
        '1'
    } else if d == 2 {
        '2'
    } else if d == 3 {
        '3'
    } else if d == 4 {
        '4'
    } else if d == 5 {
        '5'
    } else if d == 6 {
        '6'
    } else if d == 7 {
        '7'
    } else if d == 8 {
        '8'
    } else if d == 9 {
        '9'
    } else if d == 10 {
        'a'
    } else if d == 11 {
        'b'
    } else if d == 12 {
        'c'
    } else if d == 13 {
        'd'
    } else if d == 14 {
        'e'
    } else {
        'f'
    }
}

pub open spec fn is_dec_char(c: char) -> bool {
    '0' <= c && c <= '9'
}

pub open spec fn dec_char_val(c: char) -> nat {
    ((c as u32) - ('0' as u32)) as nat
}

pub open spec fn all_hex(s: Seq<char>) -> bool {
    forall|i: int| 0 <= i < s.len() ==> is_hex_char(#[trigger] s[i])
}

pub open spec fn all_dec(s: Seq<char>) -> bool {
    forall|i: int| 0 <= i < s.len() ==> is_dec_char(#[trigger] s[i])
}

// ---------- values of digit strings ----------

pub open spec fn hex_seq_val(s: Seq<char>) -> nat
    decreases s.len(),
{
    if s.len() == 0 {
        0
    } else {
        hex_seq_val(s.drop_last()) * 16 + hex_char_val(s.last())
    }
}

pub open spec fn dec_seq_val(s: Seq<char>) -> nat
    decreases s.len(),
{
    if s.len() == 0 {
        0
    } else {
        dec_seq_val(s.drop_last()) * 10 + dec_char_val(s.last())
    }
}

pub open spec fn pow16(n: nat) -> nat
    decreases n,
{
    if n == 0 {
        1
    } else {
        16 * pow16((n - 1) as nat)
    }
}

pub proof fn lemma_pow16_pos(n: nat)
    ensures
        pow16(n) >= 1,
    decreases n,
{
    if n > 0 {
        lemma_pow16_pos((n - 1) as nat);
    }
}

pub proof fn lemma_pow16_vals()
    ensures
        pow16(4) == 0x10000,
        pow16(8) == 0x1_0000_0000,
        pow16(12) == 0x1_0000_0000_0000,
{
    assert(pow16(0) == 1);
    assert(pow16(1) == 16);
    assert(pow16(2) == 0x100);
    assert(pow16(3) == 0x1000);
    assert(pow16(4) == 0x10000);
    assert(pow16(5) == 0x10_0000);
    assert(pow16(6) == 0x100_0000);
    assert(pow16(7) == 0x1000_0000);
    assert(pow16(8) == 0x1_0000_0000);
    assert(pow16(9) == 0x10_0000_0000);
    assert(pow16(10) == 0x100_0000_0000);
    assert(pow16(11) == 0x1000_0000_0000);
    assert(pow16(12) == 0x1_0000_0000_0000);
}

pub proof fn lemma_hex_seq_val_append(a: Seq<char>, b: Seq<char>)
    ensures
        hex_seq_val(a + b) == hex_seq_val(a) * pow16(b.len()) + hex_seq_val(b),
    decreases b.len(),
{
    if b.len() == 0 {
        assert(a + b =~= a);
        assert(pow16(0) == 1);
    } else {
        let b0 = b.drop_last();
        lemma_hex_seq_val_append(a, b0);
        assert((a + b).drop_last() =~= a + b0);
        assert((a + b).last() == b.last());
        assert(pow16(b.len()) == 16 * pow16(b0.len()));
        assert(hex_seq_val(a + b) == hex_seq_val(a + b0) * 16 + hex_char_val(b.last()));
        assert((hex_seq_val(a) * pow16(b0.len()) + hex_seq_val(b0)) * 16 == hex_seq_val(a) * (
        pow16(b0.len()) * 16) + hex_seq_val(b0) * 16) by (nonlinear_arith);
        assert(pow16(b0.len()) * 16 == pow16(b.len()));
    }
}

pub proof fn lemma_hex_seq_val_bound(s: Seq<char>)
    requires
        all_hex(s),
    ensures
        hex_seq_val(s) < pow16(s.len()),
    decreases s.len(),
{
    if s.len() == 0 {
    } else {
        let front = s.drop_last();
        assert(all_hex(front)) by {
            assert(forall|i: int| 0 <= i < front.len() ==> front[i] == s[i]);
        }
        lemma_hex_seq_val_bound(front);
        assert(is_hex_char(s.last()));
        assert(hex_char_val(s.last()) < 16);
        assert(pow16(s.len()) == 16 * pow16(front.len()));
        assert(hex_seq_val(front) * 16 + 16 <= pow16(front.len()) * 16) by (nonlinear_arith)
            requires
                hex_seq_val(front) < pow16(front.len()),
        {
        }
    }
}

// ---------- rendering ----------

/// `w` lowercase hex digits of `v`, most significant first (the low
/// `w` digits of `v` if it is wider).
pub open spec fn hex_render_spec(v: nat, w: nat) -> Seq<char>
    decreases w,
{
    if w == 0 {
        Seq::<char>::empty()
    } else {
        hex_render_spec(v / 16, (w - 1) as nat).push(hex_char_of(v % 16))
    }
}

pub proof fn lemma_hex_char_of_val(d: nat)
    requires
        d < 16,
    ensures
        is_hex_char(hex_char_of(d)),
        hex_char_val(hex_char_of(d)) == d,
        !is_brace_char(hex_char_of(d)),
        hex_char_of(d) != '-',
        hex_char_of(d) != ':',
{
}

pub proof fn lemma_hex_render_val(v: nat, w: nat)
    requires
        v < pow16(w),
    ensures
        hex_render_spec(v, w).len() == w,
        all_hex(hex_render_spec(v, w)),
        hex_seq_val(hex_render_spec(v, w)) == v,
        forall|i: int|
            0 <= i < w ==> !is_brace_char(#[trigger] hex_render_spec(v, w)[i])
                && hex_render_spec(v, w)[i] != '-' && hex_render_spec(v, w)[i] != ':',
    decreases w,
{
    if w == 0 {
    } else {
        let w0 = (w - 1) as nat;
        assert(pow16(w) == 16 * pow16(w0));
        assert(v / 16 < pow16(w0)) by (nonlinear_arith)
            requires
                v < 16 * pow16(w0),
                pow16(w0) >= 1,
        {
        }
        lemma_pow16_pos(w0);
        lemma_hex_render_val(v / 16, w0);
        let pre = hex_render_spec(v / 16, w0);
        let d = v % 16;
        lemma_hex_char_of_val(d);
        let r = pre.push(hex_char_of(d));
        assert(r.drop_last() =~= pre);
        assert(r.last() == hex_char_of(d));
        assert(hex_seq_val(r) == hex_seq_val(pre) * 16 + hex_char_val(hex_char_of(d)));
        assert((v / 16) * 16 + v % 16 == v);
        assert(forall|i: int| 0 <= i < w0 ==> r[i] == pre[i]);
        assert(all_hex(r));
    }
}

pub proof fn lemma_hex_char_lower(c: char)
    requires
        is_hex_char(c),
    ensures
        hex_char_of(hex_char_val(c)) == lower_char(c),
{
}

/// Rendering the value of a hex digit string at its own width gives the
/// string back, lower-cased: the canonical text of each group is the
/// lower-cased input group.
pub proof fn lemma_hex_render_inverse(s: Seq<char>)
    requires
        all_hex(s),
    ensures
        hex_render_spec(hex_seq_val(s), s.len()) == lower_seq(s),
    decreases s.len(),
{
    if s.len() == 0 {
        assert(hex_render_spec(0, 0) =~= lower_seq(s));
    } else {
        let front = s.drop_last();
        assert(all_hex(front)) by {
            assert(forall|i: int| 0 <= i < front.len() ==> front[i] == s[i]);
        }
        lemma_hex_render_inverse(front);
        let d = hex_char_val(s.last());
        assert(is_hex_char(s.last()));
        assert(d < 16);
        let v = hex_seq_val(s);
        assert(v == hex_seq_val(front) * 16 + d);
        assert(v / 16 == hex_seq_val(front) && v % 16 == d) by (nonlinear_arith)
            requires
                v == hex_seq_val(front) * 16 + d,
                0 <= d < 16,
        {
        }
        lemma_hex_char_lower(s.last());
        let r = hex_render_spec(v, s.len());
        assert(r == hex_render_spec(hex_seq_val(front), front.len()).push(hex_char_of(d)));
        assert(lower_seq(s) =~= lower_seq(front).push(lower_char(s.last())));
        assert(r =~= lower_seq(s));
    }
}

pub fn hex_char_exec(d: u64) -> (c: char)
    requires
        d < 16,
    ensures
        c == hex_char_of(d as nat),
{
    if d == 0 {
        '0'
    } else if d == 1 {
        '1'
    } else if d == 2 {
        '2'
    } else if d == 3 {
        '3'
    } else if d == 4 {
        '4'
    } else if d == 5 {
        '5'
    } else if d == 6 {
        '6'
    } else if d == 7 {
        '7'
    } else if d == 8 {
        '8'
    } else if d == 9 {
        '9'
    } else if d == 10 {
        'a'
    } else if d == 11 {
        'b'
    } else if d == 12 {
        'c'
    } else if d == 13 {
        'd'
    } else if d == 14 {
        'e'
    } else {
        'f'
    }
}

pub fn hex_render(v: u64, w: usize) -> (r: Vec<char>)
    ensures
        r@ == hex_render_spec(v as nat, w as nat),
    decreases w,
{
    if w == 0 {
        Vec::new()
    } else {
        let mut r = hex_render(v / 16, w - 1);
        r.push(hex_char_exec(v % 16));
        r
    }
}

/// Decimal digits of `v`, no padding, most significant first.
pub open spec fn dec_render_spec(v: nat) -> Seq<char>
    decreases v,
{
    if v < 10 {
        seq![hex_char_of(v)]
    } else {
        dec_render_spec(v / 10).push(hex_char_of(v % 10))
    }
}

pub proof fn lemma_dec_render_val(v: nat)
    ensures
        dec_render_spec(v).len() >= 1,
        all_dec(dec_render_spec(v)),
        dec_seq_val(dec_render_spec(v)) == v,
        forall|i: int|
            0 <= i < dec_render_spec(v).len() ==> is_dec_char(#[trigger] dec_render_spec(v)[i])
                && dec_render_spec(v)[i] != ':',
    decreases v,
{
    if v < 10 {
        lemma_hex_char_of_val(v);
        assert(is_dec_char(hex_char_of(v)));
        assert(dec_char_val(hex_char_of(v)) == v);
        let r = dec_render_spec(v);
        assert(r =~= seq![hex_char_of(v)]);
        assert(r.drop_last() =~= Seq::<char>::empty());
        assert(r.last() == hex_char_of(v));
        assert(r[0] == hex_char_of(v));
        assert(dec_seq_val(r.drop_last()) == 0);
        assert(dec_seq_val(r) == dec_seq_val(r.drop_last()) * 10 + dec_char_val(r.last()));
        assert(dec_seq_val(r) == v);
    } else {
        lemma_dec_render_val(v / 10);
        lemma_hex_char_of_val(v % 10);
        assert(is_dec_char(hex_char_of(v % 10)));
        assert(dec_char_val(hex_char_of(v % 10)) == v % 10);
        let pre = dec_render_spec(v / 10);
        let r = pre.push(hex_char_of(v % 10));
        assert(r.drop_last() =~= pre);
        assert(r.last() == hex_char_of(v % 10));
        assert(dec_seq_val(r) == dec_seq_val(pre) * 10 + dec_char_val(hex_char_of(v % 10)));
        assert((v / 10) * 10 + v % 10 == v);
        assert(dec_render_spec(v) == r);
        assert(dec_seq_val(r) == v);
        assert(forall|i: int| 0 <= i < pre.len() ==> r[i] == pre[i]);
        assert(all_dec(r));
    }
}

pub fn dec_render(v: u64) -> (r: Vec<char>)
    ensures
        r@ == dec_render_spec(v as nat),
    decreases v,
{
    if v < 10 {
        let mut r: Vec<char> = Vec::new();
        r.push(hex_char_exec(v));
        proof {
            assert(r@ =~= seq![hex_char_of(v as nat)]);
        }
        r
    } else {
        let mut r = dec_render(v / 10);
        r.push(hex_char_exec(v % 10));
        r
    }
}

// ---------- parsing ----------

pub fn hex_val_exec(c: char) -> (r: Option<u8>)
    ensures
        match r {
            Some(d) => is_hex_char(c) && d as nat == hex_char_val(c) && d < 16,
            None => !is_hex_char(c),
        },
{
    let u = c as u32;
    if c >= '0' && c <= '9' {
        Some((u - 48) as u8)
    } else if c >= 'a' && c <= 'f' {
        Some((u - 97 + 10) as u8)
    } else if c >= 'A' && c <= 'F' {
        Some((u - 65 + 10) as u8)
    } else {
        None
    }
}

pub fn dec_val_exec(c: char) -> (r: Option<u8>)
    ensures
        match r {
            Some(d) => is_dec_char(c) && d as nat == dec_char_val(c) && d < 10,
            None => !is_dec_char(c),
        },
{
    let u = c as u32;
    if c >= '0' && c <= '9' {
        Some((u - 48) as u8)
    } else {
        None
    }
}

pub open spec fn hex_group_ok(p: Seq<char>, max: nat) -> bool {
    p.len() > 0 && all_hex(p) && hex_seq_val(p) <= max
}

/// The value of `p` as big-endian hex digits, unless `p` is empty, holds a
/// non-hex character, or its value is above `max`.
pub fn parse_hex_bounded(p: &Vec<char>, max: u64) -> (r: Option<u64>)
    ensures
        match r {
            Some(v) => hex_group_ok(p@, max as nat) && v as nat == hex_seq_val(p@),
            None => !hex_group_ok(p@, max as nat),
        },
{
    if p.len() == 0 {
        return None;
    }
    let mut acc: u128 = 0;
    let mut i: usize = 0;
    while i < p.len()
        invariant
            i <= p@.len(),
            all_hex(p@.take(i as int)),
            acc == hex_seq_val(p@.take(i as int)),
            acc <= max as u128,
        decreases p@.len() - i,
    {
        let c = p[i];
        let d = match hex_val_exec(c) {
            Some(d) => d,
            None => {
                proof {
                    assert(!is_hex_char(p@[i as int]));
                }
                return None;
            },
        };
        let next: u128 = acc * 16 + d as u128;
        proof {
            let pre = p@.take(i + 1);
            assert(pre.drop_last() =~= p@.take(i as int));
            assert(pre.last() == p@[i as int]);
            assert(hex_seq_val(pre) == next);
            assert(all_hex(pre));
        }
        if next > max as u128 {
            proof {
                let pre = p@.take(i + 1);
                let rest = p@.skip(i + 1);
                lemma_hex_seq_val_append(pre, rest);
                assert(pre + rest =~= p@);
                lemma_pow16_pos(rest.len());
                assert(hex_seq_val(pre) * pow16(rest.len()) >= hex_seq_val(pre) * 1) by (
                nonlinear_arith)
                    requires
                        pow16(rest.len()) >= 1,
                {
                }
                assert(hex_seq_val(p@) > max as nat);
            }
            return None;
        }
        acc = next;
        i = i + 1;
    }
    proof {
        assert(p@.take(p@.len() as int) =~= p@);
    }
    Some(acc as u64)
}

pub open spec fn dec_group_ok(p: Seq<char>, max: nat) -> bool {
    p.len() > 0 && all_dec(p) && dec_seq_val(p) <= max
}

pub proof fn lemma_dec_seq_val_prefix(s: Seq<char>, n: int)
    requires
        0 <= n <= s.len(),
    ensures
        dec_seq_val(s) >= dec_seq_val(s.take(n)),
    decreases s.len() - n,
{
    if n < s.len() {
        lemma_dec_seq_val_prefix(s, n + 1);
        let pre = s.take(n + 1);
        assert(pre.drop_last() =~= s.take(n));
        assert(dec_seq_val(pre) == dec_seq_val(s.take(n)) * 10 + dec_char_val(pre.last()));
        assert(dec_seq_val(s.take(n)) * 10 >= dec_seq_val(s.take(n))) by (nonlinear_arith);
    } else {
        assert(s.take(n) =~= s);
    }
}

/// The value of `p` as decimal digits, unless `p` is empty, holds a
/// non-digit, or its value is above `max`.
pub fn parse_dec_bounded(p: &Vec<char>, max: u64) -> (r: Option<u64>)
    ensures
        match r {
            Some(v) => dec_group_ok(p@, max as nat) && v as nat == dec_seq_val(p@),
            None => !dec_group_ok(p@, max as nat),
        },
{
    if p.len() == 0 {
        return None;
    }
    let mut acc: u128 = 0;
    let mut i: usize = 0;
    while i < p.len()
        invariant
            i <= p@.len(),
            all_dec(p@.take(i as int)),
            acc == dec_seq_val(p@.take(i as int)),
            acc <= max as u128,
        decreases p@.len() - i,
    {
        let c = p[i];
        let d = match dec_val_exec(c) {
            Some(d) => d,
            None => {
                proof {
                    assert(!is_dec_char(p@[i as int]));
                }
                return None;
            },
        };
        let next: u128 = acc * 10 + d as u128;
        proof {
            let pre = p@.take(i + 1);
            assert(pre.drop_last() =~= p@.take(i as int));
            assert(pre.last() == p@[i as int]);
            assert(dec_seq_val(pre) == next);
            assert(all_dec(pre));
        }
        if next > max as u128 {
            proof {
                lemma_dec_seq_val_prefix(p@, i + 1);
            }
            return None;
        }
        acc = next;
        i = i + 1;
    }
    proof {
        assert(p@.take(p@.len() as int) =~= p@);
    }
    Some(acc as u64)
}

} // verus!
