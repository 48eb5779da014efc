//! Directory-name and sidecar templating: filename sanitization, single-pass
//! placeholder substitution, and conversion of localized dates to the fixed
//! numeric form.

use vstd::prelude::*;
use crate::text::{
    chars_of, digits_val, is_ascii_digit, is_digit, matches_at, occurs_at, pad2_chars, pad2_str,
    parse_u32, string_of, trim_chars, trim_spec,
};

verus! {

/// Replace the characters that are reserved on common filesystems
/// (`< > : " / \ | ? *`) by an underscore.
pub open spec fn sanitize_char(c: char) -> char {
    if c == '<' || c == '>' || c == ':' || c == '"' || c == '/' || c == '\\' || c == '|'
        || c == '?' || c == '*' {
        '_'
    } else {
        c
    }
}

/// Sanitized form of a name: reserved characters mapped to underscore, then
/// surrounding whitespace trimmed.
pub open spec fn sanitize_spec(s: Seq<char>) -> Seq<char> {
    trim_spec(s.map_values(|c: char| sanitize_char(c)))
}

fn sanitize_char_exec(c: char) -> (r: char)
    ensures
        r == sanitize_char(c),
{
    if c == '<' || c == '>' || c == ':' || c == '"' || c == '/' || c == '\\' || c == '|'
        || c == '?' || c == '*' {
        '_'
    } else {
        c
    }
}

/// Map filesystem-reserved characters to `'_'` and trim whitespace.
pub fn sanitize_filename(name: &str) -> (r: String)
    ensures
        r@ == sanitize_spec(name@),
{
    let v = chars_of(name);
    let n = v.len();
    let mut mapped: Vec<char> = Vec::new();
    for i in 0..n
        invariant
            n == v@.len(),
            v@ == name@,
            mapped@ == v@.take(i as int).map_values(|c: char| sanitize_char(c)),
    {
        mapped.push(sanitize_char_exec(v[i]));
        assert(mapped@ =~= v@.take(i + 1).map_values(|c: char| sanitize_char(c)));
    }
    assert(v@.take(n as int) =~= v@);
    let trimmed = trim_chars(&mapped);
    string_of(&trimmed)
}

/// One placeholder: a key such as `{album}` and the text replacing it.
pub struct Binding {
    pub key: Vec<char>,
    pub value: Vec<char>,
}

/// The mathematical view of a binding list: (key, value) pairs of sequences.
pub open spec fn bindings_view(bs: Seq<Binding>) -> Seq<(Seq<char>, Seq<char>)> {
    bs.map_values(|b: Binding| (b.key@, b.value@))
}

/// Binding `k` matches at the front of `t`: its key is non-empty and is a
/// prefix of `t`.
pub open spec fn binding_matches_at(t: Seq<char>, b: Seq<(Seq<char>, Seq<char>)>, k: int) -> bool {
    0 <= k < b.len() && 1 <= b[k].0.len() <= t.len() && t.take(b[k].0.len() as int) == b[k].0
}

/// Index of the first binding at or after `k` whose key is a prefix of `t`,
/// or -1.
pub open spec fn first_binding(t: Seq<char>, b: Seq<(Seq<char>, Seq<char>)>, k: int) -> int
    decreases b.len() - k,
{
    if k < 0 || k >= b.len() {
        -1
    } else if binding_matches_at(t, b, k) {
        k
    } else {
        first_binding(t, b, k + 1)
    }
}

/// Single-pass simultaneous substitution: at each position, the first binding
/// whose key starts there is replaced exactly once and the scan resumes after
/// the key; positions where no key starts are copied verbatim.
pub open spec fn subst_spec(t: Seq<char>, b: Seq<(Seq<char>, Seq<char>)>) -> Seq<char>
    decreases t.len(),
{
    if t.len() == 0 {
        Seq::empty()
    } else {
        let k = first_binding(t, b, 0);
        if k >= 0 && binding_matches_at(t, b, k) {
            b[k].1 + subst_spec(t.skip(b[k].0.len() as int), b)
        } else {
            seq![t[0]] + subst_spec(t.drop_first(), b)
        }
    }
}

/// Some binding's key occurs somewhere in `t`.
pub open spec fn has_placeholder(t: Seq<char>, b: Seq<(Seq<char>, Seq<char>)>) -> bool {
    exists|k: int, i: int|
        0 <= k < b.len() && b[k].0.len() >= 1 && occurs_at(t, b[k].0, i)
}

proof fn lemma_first_binding_is(t: Seq<char>, b: Seq<(Seq<char>, Seq<char>)>, s: int, k0: int)
    requires
        0 <= s <= k0,
        binding_matches_at(t, b, k0),
        forall|j: int| s <= j < k0 ==> !binding_matches_at(t, b, j),
    ensures
        first_binding(t, b, s) == k0,
    decreases k0 - s,
{
    if s < k0 {
        lemma_first_binding_is(t, b, s + 1, k0);
    }
}

proof fn lemma_first_binding_none(t: Seq<char>, b: Seq<(Seq<char>, Seq<char>)>, s: int)
    requires
        forall|j: int| s <= j ==> !binding_matches_at(t, b, j),
    ensures
        first_binding(t, b, s) == -1,
    decreases b.len() - s,
{
    if 0 <= s < b.len() {
        lemma_first_binding_none(t, b, s + 1);
    }
}

/// Law: a template in which no recognized placeholder occurs is left
/// unchanged by substitution; in particular unrecognized text survives
/// verbatim.
pub proof fn lemma_subst_identity(t: Seq<char>, b: Seq<(Seq<char>, Seq<char>)>)
    requires
        !has_placeholder(t, b),
    ensures
        subst_spec(t, b) == t,
    decreases t.len(),
{
    if t.len() > 0 {
        assert forall|j: int| 0 <= j implies !binding_matches_at(t, b, j) by {
            if binding_matches_at(t, b, j) {
                assert(t.take(b[j].0.len() as int) =~= t.subrange(0, b[j].0.len() as int));
                assert(occurs_at(t, b[j].0, 0));
            }
        }
        lemma_first_binding_none(t, b, 0);
        assert(!has_placeholder(t.drop_first(), b)) by {
            if has_placeholder(t.drop_first(), b) {
                let (k, i) = choose|k: int, i: int|
                    0 <= k < b.len() && b[k].0.len() >= 1 && occurs_at(t.drop_first(), b[k].0, i);
                assert(t.subrange(i + 1, i + 1 + b[k].0.len()) =~= t.drop_first().subrange(
                    i,
                    i + b[k].0.len(),
                ));
                assert(occurs_at(t, b[k].0, i + 1));
            }
        }
        lemma_subst_identity(t.drop_first(), b);
        assert(seq![t[0]] + t.drop_first() =~= t);
    } else {
        assert(subst_spec(t, b) =~= t);
    }
}

/// Law: substitution is idempotent on any template whose substituted form
/// holds no recognized placeholder (for instance when no replacement value
/// re-introduces one).
pub proof fn lemma_subst_idempotent(t: Seq<char>, b: Seq<(Seq<char>, Seq<char>)>)
    requires
        !has_placeholder(subst_spec(t, b), b),
    ensures
        subst_spec(subst_spec(t, b), b) == subst_spec(t, b),
{
    lemma_subst_identity(subst_spec(t, b), b);
}

/// Law: a template that is exactly one recognized placeholder is replaced
/// by that placeholder's value — provided no earlier binding's key is a
/// prefix of it, as holds whenever the keys are distinct brace-delimited
/// tokens.
pub proof fn lemma_subst_single_placeholder(b: Seq<(Seq<char>, Seq<char>)>, k: int)
    requires
        0 <= k < b.len(),
        b[k].0.len() >= 1,
        forall|j: int| 0 <= j < k ==> !binding_matches_at(b[k].0, b, j),
    ensures
        subst_spec(b[k].0, b) == b[k].1,
{
    let t = b[k].0;
    assert(t.take(t.len() as int) =~= t);
    assert(binding_matches_at(t, b, k));
    lemma_first_binding_is(t, b, 0, k);
    assert(t.skip(t.len() as int) =~= Seq::<char>::empty());
    assert(subst_spec(Seq::<char>::empty(), b) == Seq::<char>::empty());
    assert(b[k].1 + Seq::<char>::empty() =~= b[k].1);
}

fn push_all(out: &mut Vec<char>, v: &Vec<char>)
    ensures
        final(out)@ == old(out)@ + v@,
{
    let n = v.len();
    for i in 0..n
        invariant
            n == v@.len(),
            out@ == old(out)@ + v@.take(i as int),
    {
        out.push(v[i]);
        assert(out@ =~= old(out)@ + v@.take(i + 1));
    }
    assert(old(out)@ + v@.take(n as int) =~= old(out)@ + v@);
}

fn find_binding_at(t: &Vec<char>, bs: &Vec<Binding>, i: usize) -> (r: Option<usize>)
    requires
        i <= t@.len(),
    ensures
        match r {
            Some(k) => 0 <= k < bs@.len() && binding_matches_at(
                t@.skip(i as int),
                bindings_view(bs@),
                k as int,
            ) && forall|j: int|
                0 <= j < k ==> !binding_matches_at(t@.skip(i as int), bindings_view(bs@), j),
            None => forall|j: int|
                0 <= j < bs@.len() ==> !binding_matches_at(t@.skip(i as int), bindings_view(bs@), j),
        },
{
    let m = bs.len();
    let n = t.len();
    let mut k: usize = 0;
    while k < m
        invariant
            i <= n,
            n == t@.len(),
            m == bs@.len(),
            forall|j: int|
                0 <= j < k ==> !binding_matches_at(t@.skip(i as int), bindings_view(bs@), j),
        decreases m - k,
    {
        let key_len = bs[k].key.len();
        if key_len >= 1 && key_len <= n - i {
            if matches_at(t, &bs[k].key, i) {
                proof {
                    assert(bindings_view(bs@)[k as int].0 == bs@[k as int].key@);
                    assert(t@.skip(i as int).take(key_len as int) =~= t@.subrange(
                        i as int,
                        i + key_len,
                    ));
                }
                return Some(k);
            }
            proof {
                assert(bindings_view(bs@)[k as int].0 == bs@[k as int].key@);
                assert(t@.skip(i as int).take(key_len as int) =~= t@.subrange(i as int, i + key_len));
            }
        } else {
            proof {
                assert(bindings_view(bs@)[k as int].0 == bs@[k as int].key@);
                assert(t@.skip(i as int).len() == n - i);
            }
        }
        k = k + 1;
    }
    None
}

/// Apply the bindings to the template in a single left-to-right pass.
pub fn subst(t: &Vec<char>, bs: &Vec<Binding>) -> (r: Vec<char>)
    ensures
        r@ == subst_spec(t@, bindings_view(bs@)),
{
    let ghost bspec = bindings_view(bs@);
    let n = t.len();
    let mut out: Vec<char> = Vec::new();
    let mut i: usize = 0;
    assert(t@.skip(0) =~= t@);
    while i < n
        invariant
            i <= n,
            n == t@.len(),
            bspec == bindings_view(bs@),
            subst_spec(t@, bspec) == out@ + subst_spec(t@.skip(i as int), bspec),
        decreases n - i,
    {
        let ghost rest = t@.skip(i as int);
        match find_binding_at(t, bs, i) {
            Some(k) => {
                let key_len = bs[k].key.len();
                proof {
                    lemma_first_binding_is(rest, bspec, 0, k as int);
                    assert(rest.skip(key_len as int) =~= t@.skip(i + key_len));
                }
                push_all(&mut out, &bs[k].value);
                proof {
                    assert(bspec[k as int].1 == bs@[k as int].value@);
                }
                i = i + key_len;
            },
            None => {
                proof {
                    lemma_first_binding_none(rest, bspec, 0);
                    assert(rest.drop_first() =~= t@.skip(i + 1));
                    assert(rest[0] == t@[i as int]);
                }
                out.push(t[i]);
                i = i + 1;
            },
        }
    }
    assert(t@.skip(n as int) =~= Seq::<char>::empty());
    assert(out@ + subst_spec(t@.skip(n as int), bspec) =~= out@);
    out
}

/// A localized year/month/day date starts at `i` in `s`, with a month part of
/// `ml` digits and a day part of `dl` digits.
pub open spec fn date_match_shape(s: Seq<char>, i: int, ml: int, dl: int) -> bool {
    &&& 1 <= ml <= 2
    &&& 1 <= dl <= 2
    &&& 0 <= i
    &&& i + 7 + ml + dl <= s.len()
    &&& (forall|j: int| i <= j < i + 4 ==> is_ascii_digit(s[j]))
    &&& s[i + 4] == '年'
    &&& (forall|j: int| i + 5 <= j < i + 5 + ml ==> is_ascii_digit(s[j]))
    &&& s[i + 5 + ml] == '月'
    &&& (forall|j: int| i + 6 + ml <= j < i + 6 + ml + dl ==> is_ascii_digit(s[j]))
    &&& s[i + 6 + ml + dl] == '日'
}

/// A localized date starts at `i` in `s`.
pub open spec fn date_match_at(s: Seq<char>, i: int) -> bool {
    exists|ml: int, dl: int| date_match_shape(s, i, ml, dl)
}

/// Position of the first localized date in `s` at or after `i`, or -1.
pub open spec fn first_date_match(s: Seq<char>, i: int) -> int
    decreases s.len() - i,
{
    if i < 0 || i + 9 > s.len() {
        -1
    } else if date_match_at(s, i) {
        i
    } else {
        first_date_match(s, i + 1)
    }
}

/// The month-part length of the date at `i` (meaningful when a date matches).
pub open spec fn month_len_at(s: Seq<char>, i: int) -> int {
    if i + 6 < s.len() && is_ascii_digit(s[i + 6]) {
        2
    } else {
        1
    }
}

/// The day-part length of the date at `i` given the month-part length.
pub open spec fn day_len_at(s: Seq<char>, i: int, ml: int) -> int {
    if i + 7 + ml < s.len() && is_ascii_digit(s[i + 7 + ml]) {
        2
    } else {
        1
    }
}

/// Total length of the date notation at `i`: four year digits, the three
/// marker characters, and the month and day digit runs.
pub open spec fn date_len_at(s: Seq<char>, i: int) -> int {
    7 + month_len_at(s, i) + day_len_at(s, i, month_len_at(s, i))
}

/// The fixed numeric form of the date at `i`: the four year digits, then the
/// zero-padded month and day values, dash-separated.
pub open spec fn converted_at(s: Seq<char>, i: int) -> Seq<char> {
    let ml = month_len_at(s, i);
    let dl = day_len_at(s, i, ml);
    s.subrange(i, i + 4) + seq!['-'] + pad2_str(digits_val(s.subrange(i + 5, i + 5 + ml)))
        + seq!['-'] + pad2_str(digits_val(s.subrange(i + 6 + ml, i + 6 + ml + dl)))
}

/// The conversion: the first localized date, rewritten to the numeric form;
/// a string without one passes through unchanged.
pub open spec fn convert_date_spec(s: Seq<char>) -> Seq<char> {
    let i = first_date_match(s, 0);
    if i >= 0 {
        converted_at(s, i)
    } else {
        s
    }
}

/// A matching shape fixes the month and day lengths.
pub proof fn lemma_shape_determined(s: Seq<char>, i: int, ml: int, dl: int)
    requires
        date_match_shape(s, i, ml, dl),
    ensures
        ml == month_len_at(s, i),
        dl == day_len_at(s, i, ml),
{
    if ml == 1 {
        assert(s[i + 6] == '月');
        assert(!is_ascii_digit(s[i + 6]));
    } else {
        assert(is_ascii_digit(s[i + 6]));
    }
    if dl == 1 {
        assert(s[i + 7 + ml] == '日');
        assert(!is_ascii_digit(s[i + 7 + ml]));
    } else {
        assert(is_ascii_digit(s[i + 7 + ml]));
    }
}

proof fn lemma_first_date_is(s: Seq<char>, a: int, i0: int)
    requires
        0 <= a <= i0,
        date_match_at(s, i0),
        forall|j: int| a <= j < i0 ==> !date_match_at(s, j),
    ensures
        first_date_match(s, a) == i0,
    decreases i0 - a,
{
    assert(i0 + 9 <= s.len()) by {
        let (ml, dl) = choose|ml: int, dl: int| date_match_shape(s, i0, ml, dl);
    }
    if a < i0 {
        lemma_first_date_is(s, a + 1, i0);
    }
}

proof fn lemma_first_date_none(s: Seq<char>, a: int)
    requires
        0 <= a,
        forall|j: int| a <= j ==> !date_match_at(s, j),
    ensures
        first_date_match(s, a) == -1,
    decreases s.len() - a,
{
    if a + 9 <= s.len() {
        lemma_first_date_none(s, a + 1);
    }
}

/// Check for a localized date starting exactly at `i`; on success return the
/// month-part and day-part lengths.
pub fn try_date_at(v: &Vec<char>, i: usize) -> (r: Option<(usize, usize)>)
    requires
        i + 9 <= v@.len(),
    ensures
        match r {
            Some(p) => date_match_shape(v@, i as int, p.0 as int, p.1 as int),
            None => !date_match_at(v@, i as int),
        },
        r is Some <==> date_match_at(v@, i as int),
{
    let n = v.len();
    for j in 0..4usize
        invariant
            i + 9 <= n,
            n == v@.len(),
            forall|q: int| i <= q < i + j ==> is_ascii_digit(v@[q]),
    {
        if !is_digit(v[i + j]) {
            assert(forall|ml: int, dl: int| !date_match_shape(v@, i as int, ml, dl));
            return None;
        }
    }
    if v[i + 4] != '年' {
        assert(forall|ml: int, dl: int| !date_match_shape(v@, i as int, ml, dl));
        return None;
    }
    if !is_digit(v[i + 5]) {
        assert(forall|ml: int, dl: int| !date_match_shape(v@, i as int, ml, dl));
        return None;
    }
    let ml: usize = if i + 6 < n && is_digit(v[i + 6]) {
        2
    } else {
        1
    };
    assert(ml == month_len_at(v@, i as int));
    if i + 5 + ml >= n || v[i + 5 + ml] != '月' {
        assert forall|ml2: int, dl2: int| !date_match_shape(v@, i as int, ml2, dl2) by {
            if date_match_shape(v@, i as int, ml2, dl2) {
                lemma_shape_determined(v@, i as int, ml2, dl2);
            }
        }
        return None;
    }
    if i + 6 + ml >= n || !is_digit(v[i + 6 + ml]) {
        assert forall|ml2: int, dl2: int| !date_match_shape(v@, i as int, ml2, dl2) by {
            if date_match_shape(v@, i as int, ml2, dl2) {
                lemma_shape_determined(v@, i as int, ml2, dl2);
            }
        }
        return None;
    }
    let dl: usize = if i + 7 + ml < n && is_digit(v[i + 7 + ml]) {
        2
    } else {
        1
    };
    assert(dl == day_len_at(v@, i as int, ml as int));
    if i + 6 + ml + dl >= n || v[i + 6 + ml + dl] != '日' {
        assert forall|ml2: int, dl2: int| !date_match_shape(v@, i as int, ml2, dl2) by {
            if date_match_shape(v@, i as int, ml2, dl2) {
                lemma_shape_determined(v@, i as int, ml2, dl2);
            }
        }
        return None;
    }
    assert(date_match_shape(v@, i as int, ml as int, dl as int));
    Some((ml, dl))
}

/// Digit runs of at most two characters stay below 100.
proof fn lemma_short_digits_bound(s: Seq<char>)
    requires
        s.len() <= 2,
        forall|j: int| 0 <= j < s.len() ==> is_ascii_digit(s[j]),
    ensures
        digits_val(s) <= 99,
{
    assert(digits_val(Seq::<char>::empty()) == 0);
    if s.len() == 1 {
        assert(s.drop_last() =~= Seq::<char>::empty());
        assert(is_ascii_digit(s.last()));
        assert(s.last() as u32 <= '9' as u32 && s.last() as u32 >= '0' as u32);
        assert(digits_val(s) == 0 * 10 + (s.last() as u32 - '0' as u32) as nat);
    } else if s.len() == 2 {
        let t = s.drop_last();
        assert(t.drop_last() =~= Seq::<char>::empty());
        assert(t.last() == s[0] && s.last() == s[1]);
        assert(is_ascii_digit(s[0]) && is_ascii_digit(s[1]));
        assert(s[0] as u32 <= '9' as u32 && s[0] as u32 >= '0' as u32);
        assert(s[1] as u32 <= '9' as u32 && s[1] as u32 >= '0' as u32);
        assert(digits_val(t) == 0 * 10 + (t.last() as u32 - '0' as u32) as nat);
        assert(digits_val(s) == digits_val(t) * 10 + (s.last() as u32 - '0' as u32) as nat);
    }
}

/// Convert the first localized `YYYY年M月D日` date in `date` to the numeric
/// `YYYY-MM-DD` form; strings without one pass through unchanged.
pub fn convert_chinese_date_to_iso(date: &str) -> (r: String)
    ensures
        r@ == convert_date_spec(date@),
{
    let v = chars_of(date);
    let n = v.len();
    if n < 9 {
        proof {
            lemma_first_date_none(v@, 0);
        }
        let r: String = String::from_str(date);
        return r;
    }
    let mut i: usize = 0;
    while i <= n - 9
        invariant
            9 <= n == v@.len(),
            v@ == date@,
            i <= n,
            forall|j: int| 0 <= j < i ==> !date_match_at(v@, j),
        decreases n - i,
    {
        match try_date_at(&v, i) {
            Some((ml, dl)) => {
                proof {
                    lemma_first_date_is(v@, 0, i as int);
                    lemma_shape_determined(v@, i as int, ml as int, dl as int);
                }
                let mut out: Vec<char> = Vec::new();
                out.push(v[i]);
                out.push(v[i + 1]);
                out.push(v[i + 2]);
                out.push(v[i + 3]);
                out.push('-');
                assert(out@ =~= v@.subrange(i as int, i + 4) + seq!['-']);
                let ghost mseq = v@.subrange(i + 5, i + 5 + ml);
                let month = match parse_u32(&v, i + 5, i + 5 + ml) {
                    Some(x) => x,
                    None => {
                        proof {
                            lemma_short_digits_bound(mseq);
                        }
                        assert(false);
                        0
                    },
                };
                pad2_chars(month, &mut out);
                out.push('-');
                let ghost dseq = v@.subrange(i + 6 + ml, i + 6 + ml + dl);
                let day = match parse_u32(&v, i + 6 + ml, i + 6 + ml + dl) {
                    Some(x) => x,
                    None => {
                        proof {
                            lemma_short_digits_bound(dseq);
                        }
                        assert(false);
                        0
                    },
                };
                pad2_chars(day, &mut out);
                assert(out@ =~= converted_at(v@, i as int));
                return string_of(&out);
            },
            None => {
                i = i + 1;
            },
        }
    }
    proof {
        assert forall|j: int| 0 <= j implies !date_match_at(v@, j) by {
            if date_match_at(v@, j) {
                let (ml, dl) = choose|ml: int, dl: int| date_match_shape(v@, j, ml, dl);
            }
        }
        lemma_first_date_none(v@, 0);
    }
    let r: String = String::from_str(date);
    r
}

} // verus!
