//! Metadata resolution from an item's detail page: the page is queried
//! through the `scraper` crate behind trusted wrappers, and every extraction
//! rule on the selected texts is verified.

use vstd::prelude::*;
use crate::text::{
    chars_of, digits_val, find_from, first_occurrence, is_ascii_digit, is_digit, is_space,
    is_space_char, matches_at, occurs_at, string_of, subrange_chars, trim_chars, trim_spec,
    trim_string,
};

verus! {

/// Whether scraper's selector parser accepts the selector string; a pure
/// function of that string.
pub uninterp spec fn selector_ok(selector: Seq<char>) -> bool;

/// The concatenated descendant text of each element the selector matches in
/// the parsed document, in document order; a pure function of the two
/// strings.
pub uninterp spec fn selected_texts(html: Seq<char>, selector: Seq<char>) -> Seq<Seq<char>>;

/// For each element the selector matches, the value of the named attribute
/// (absent when the element lacks it); a pure function of the three strings.
pub uninterp spec fn selected_attrs(html: Seq<char>, selector: Seq<char>, attr: Seq<char>) -> Seq<
    Option<Seq<char>>,
>;

/// Relies on scraper's `Html::parse_document`, `Selector::parse`,
/// `Html::select` and `ElementRef::text`: parsing and selection are functions
/// of the two strings alone, and `None` comes exactly when the selector fails
/// to parse.
#[verifier::external_body]
pub(crate) fn select_texts(html: &str, selector: &str) -> (r: Option<Vec<String>>)
    ensures
        r is Some <==> selector_ok(selector@),
        match r {
            Some(v) => v.deep_view() == selected_texts(html@, selector@),
            None => true,
        },
{
    let doc = scraper::Html::parse_document(html);
    let sel = match scraper::Selector::parse(selector) {
        Ok(s) => s,
        Err(_) => {
            return None;
        },
    };
    Some(doc.select(&sel).map(|e| e.text().collect::<String>()).collect())
}

/// Relies on scraper's `Html::parse_document`, `Selector::parse`,
/// `Html::select` and `ElementRef::attr`: parsing and selection are functions
/// of the strings alone, and `None` comes exactly when the selector fails to
/// parse.
#[verifier::external_body]
pub(crate) fn select_attrs(html: &str, selector: &str, attr: &str) -> (r: Option<Vec<Option<String>>>)
    ensures
        r is Some <==> selector_ok(selector@),
        match r {
            Some(v) => v.deep_view() == selected_attrs(html@, selector@, attr@),
            None => true,
        },
{
    let doc = scraper::Html::parse_document(html);
    let sel = match scraper::Selector::parse(selector) {
        Ok(s) => s,
        Err(_) => {
            return None;
        },
    };
    Some(doc.select(&sel).map(|e| e.attr(attr).map(|s| s.to_owned())).collect())
}

/// The title rule: the first page-title text split on the `" - "` separator
/// (the part before it, trimmed); with no page title, the first heading text
/// if it trims non-empty.
pub open spec fn spec_title(titles: Seq<Seq<char>>, h1s: Seq<Seq<char>>) -> Option<Seq<char>> {
    if titles.len() > 0 {
        let t = titles[0];
        let i = first_occurrence(t, " - "@, 0);
        if i >= 0 {
            Some(trim_spec(t.take(i)))
        } else {
            Some(trim_spec(t))
        }
    } else if h1s.len() > 0 && trim_spec(h1s[0]).len() > 0 {
        Some(trim_spec(h1s[0]))
    } else {
        None
    }
}

/// Decide the title from the selected page-title and heading texts.
pub fn title_from_texts(titles: &Vec<String>, h1s: &Vec<String>) -> (r: Option<String>)
    ensures
        r.deep_view() == spec_title(titles.deep_view(), h1s.deep_view()),
{
    if titles.len() > 0 {
        let t = chars_of(titles[0].as_str());
        assert(t@ == titles.deep_view()[0]);
        let sep = chars_of(" - ");
        let cut = match find_from(&t, &sep, 0) {
            Some(i) => {
                let part = subrange_chars(&t, 0, i);
                assert(part@ =~= t@.take(i as int));
                part
            },
            None => t,
        };
        let trimmed = trim_chars(&cut);
        Some(string_of(&trimmed))
    } else if h1s.len() > 0 {
        let t = chars_of(h1s[0].as_str());
        assert(t@ == h1s.deep_view()[0]);
        let trimmed = trim_chars(&t);
        if trimmed.len() > 0 {
            Some(string_of(&trimmed))
        } else {
            None
        }
    } else {
        None
    }
}

/// The label rule: the first labeled-region text if it trims non-empty, else
/// the first label-path link text if it trims non-empty.
pub open spec fn spec_label(labels: Seq<Seq<char>>, links: Seq<Seq<char>>) -> Option<Seq<char>> {
    if labels.len() > 0 && trim_spec(labels[0]).len() > 0 {
        Some(trim_spec(labels[0]))
    } else if links.len() > 0 && trim_spec(links[0]).len() > 0 {
        Some(trim_spec(links[0]))
    } else {
        None
    }
}

/// Decide the label from the selected label-region and label-link texts.
pub fn label_from_texts(labels: &Vec<String>, links: &Vec<String>) -> (r: Option<String>)
    ensures
        r.deep_view() == spec_label(labels.deep_view(), links.deep_view()),
{
    if labels.len() > 0 {
        let t = trim_string(labels[0].as_str());
        assert(t@ == trim_spec(labels.deep_view()[0]));
        if t.unicode_len() > 0 {
            return Some(t);
        }
    }
    if links.len() > 0 {
        let t = trim_string(links[0].as_str());
        assert(t@ == trim_spec(links.deep_view()[0]));
        if t.unicode_len() > 0 {
            return Some(t);
        }
    }
    None
}

/// The description rule: the first level-3 heading whose trimmed text exceeds
/// twenty characters.
pub open spec fn spec_description(h3s: Seq<Seq<char>>) -> Option<Seq<char>>
    decreases h3s.len(),
{
    if h3s.len() == 0 {
        None
    } else if trim_spec(h3s[0]).len() > 20 {
        Some(trim_spec(h3s[0]))
    } else {
        spec_description(h3s.drop_first())
    }
}

/// Decide the description from the selected level-3 heading texts.
pub fn description_from_texts(h3s: &Vec<String>) -> (r: Option<String>)
    ensures
        r.deep_view() == spec_description(h3s.deep_view()),
{
    let n = h3s.len();
    let ghost full = h3s.deep_view();
    assert(full.skip(0) =~= full);
    for i in 0..n
        invariant
            n == h3s@.len(),
            full == h3s.deep_view(),
            full.len() == n,
            spec_description(full) == spec_description(full.skip(i as int)),
    {
        let t = trim_string(h3s[i].as_str());
        assert(t@ == trim_spec(full[i as int]));
        assert(full.skip(i as int)[0] == full[i as int]);
        if t.unicode_len() > 20 {
            return Some(t);
        }
        assert(full.skip(i as int).drop_first() =~= full.skip(i + 1));
    }
    assert(full.skip(n as int) =~= Seq::<Seq<char>>::empty());
    None
}

/// The tag rule: every selected tag-anchor text that begins with the hash
/// marker, with the marker stripped, in document order.
pub open spec fn spec_tags(texts: Seq<Seq<char>>) -> Seq<Seq<char>>
    decreases texts.len(),
{
    if texts.len() == 0 {
        Seq::empty()
    } else {
        let rest = spec_tags(texts.drop_first());
        if texts[0].len() > 0 && texts[0][0] == '#' {
            seq![texts[0].drop_first()] + rest
        } else {
            rest
        }
    }
}

proof fn lemma_tags_push(texts: Seq<Seq<char>>, t: Seq<char>)
    ensures
        spec_tags(texts.push(t)) == if t.len() > 0 && t[0] == '#' {
            spec_tags(texts) + seq![t.drop_first()]
        } else {
            spec_tags(texts)
        },
    decreases texts.len(),
{
    assert(spec_tags(Seq::<Seq<char>>::empty()) == Seq::<Seq<char>>::empty());
    if texts.len() == 0 {
        assert(texts.push(t)[0] == t);
        assert(texts.push(t).drop_first() =~= Seq::<Seq<char>>::empty());
        assert(texts =~= Seq::<Seq<char>>::empty());
        if t.len() > 0 && t[0] == '#' {
            assert(spec_tags(texts.push(t)) =~= spec_tags(texts) + seq![t.drop_first()]);
        }
    } else {
        assert(texts.push(t).drop_first() =~= texts.drop_first().push(t));
        assert(texts.push(t)[0] == texts[0]);
        lemma_tags_push(texts.drop_first(), t);
        if t.len() > 0 && t[0] == '#' {
            if texts[0].len() > 0 && texts[0][0] == '#' {
                assert(seq![texts[0].drop_first()] + (spec_tags(texts.drop_first()) + seq![
                    t.drop_first(),
                ]) =~= (seq![texts[0].drop_first()] + spec_tags(texts.drop_first())) + seq![
                    t.drop_first(),
                ]);
            }
        }
    }
}

/// Collect the tags from the selected tag-anchor texts.
pub fn tags_from_texts(texts: &Vec<String>) -> (r: Vec<String>)
    ensures
        r.deep_view() == spec_tags(texts.deep_view()),
{
    let n = texts.len();
    let ghost full = texts.deep_view();
    let mut r: Vec<String> = Vec::new();
    for i in 0..n
        invariant
            n == texts@.len(),
            full == texts.deep_view(),
            full.len() == n,
            r.deep_view() == spec_tags(full.take(i as int)),
    {
        let t = chars_of(texts[i].as_str());
        assert(t@ == full[i as int]);
        if t.len() > 0 && t[0] == '#' {
            let stripped = subrange_chars(&t, 1, t.len());
            assert(stripped@ =~= t@.drop_first());
            r.push(string_of(&stripped));
        }
        proof {
            assert(full.take(i + 1) =~= full.take(i as int).push(full[i as int]));
            lemma_tags_push(full.take(i as int), full[i as int]);
            if full[i as int].len() > 0 && full[i as int][0] == '#' {
                assert(r.deep_view() =~= spec_tags(full.take(i as int)) + seq![
                    full[i as int].drop_first(),
                ]);
            }
        }
    }
    assert(full.take(n as int) =~= full);
    r
}

/// The marker phrase that announces a release date in paragraph text.
pub open spec fn release_marker() -> Seq<char> {
    seq!['发', '布', '于']
}

/// The release marker, followed immediately by a localized date, starts at
/// `i` in the paragraph text.
pub open spec fn release_match_at(p: Seq<char>, i: int) -> bool {
    occurs_at(p, release_marker(), i) && crate::template::date_match_at(p, i + 3)
}

/// First position at or after `i` where the release marker and a date start.
pub open spec fn first_release_match(p: Seq<char>, i: int) -> int
    decreases p.len() - i,
{
    if i < 0 || i >= p.len() {
        -1
    } else if release_match_at(p, i) {
        i
    } else {
        first_release_match(p, i + 1)
    }
}

/// The date substring captured by a release match at `i`.
pub open spec fn release_date_capture(p: Seq<char>, i: int) -> Seq<char> {
    p.subrange(i + 3, i + 3 + crate::template::date_len_at(p, i + 3))
}

/// The release-date rule: the first paragraph holding the marker phrase
/// followed by a localized date yields that date; the leftmost such match in
/// the paragraph wins.
pub open spec fn spec_release_date(ps: Seq<Seq<char>>) -> Option<Seq<char>>
    decreases ps.len(),
{
    if ps.len() == 0 {
        None
    } else {
        let i = first_release_match(ps[0], 0);
        if i >= 0 {
            Some(release_date_capture(ps[0], i))
        } else {
            spec_release_date(ps.drop_first())
        }
    }
}

proof fn lemma_first_release_is(p: Seq<char>, a: int, i0: int)
    requires
        0 <= a <= i0 < p.len(),
        release_match_at(p, i0),
        forall|j: int| a <= j < i0 ==> !release_match_at(p, j),
    ensures
        first_release_match(p, a) == i0,
    decreases i0 - a,
{
    if a < i0 {
        lemma_first_release_is(p, a + 1, i0);
    }
}

proof fn lemma_first_release_none(p: Seq<char>, a: int)
    requires
        0 <= a,
        forall|j: int| a <= j ==> !release_match_at(p, j),
    ensures
        first_release_match(p, a) == -1,
    decreases p.len() - a,
{
    if a < p.len() {
        lemma_first_release_none(p, a + 1);
    }
}

/// Find the first release-marker-plus-date match in one paragraph and return
/// the captured date.
fn release_date_in_paragraph(p: &Vec<char>, marker: &Vec<char>) -> (r: Option<String>)
    requires
        marker@ == release_marker(),
    ensures
        match r {
            Some(s) => {
                let i = first_release_match(p@, 0);
                i >= 0 && s@ == release_date_capture(p@, i)
            },
            None => first_release_match(p@, 0) == -1,
        },
{
    let n = p.len();
    let ml = marker.len();
    if n < 9 || ml > n - 9 {
        proof {
            assert forall|j: int| 0 <= j implies !release_match_at(p@, j) by {
                if release_match_at(p@, j) {
                    let jd: int = j + 3;
                    let (a, b) = choose|a: int, b: int|
                        crate::template::date_match_shape(p@, jd, a, b);
                    assert(crate::template::date_match_shape(p@, jd, a, b));
                }
            }
            lemma_first_release_none(p@, 0);
        }
        return None;
    }
    let last = n - ml - 9;
    let mut i: usize = 0;
    while i <= last
        invariant
            marker@ == release_marker(),
            ml == marker@.len(),
            n == p@.len(),
            ml + 9 <= n,
            last == n - ml - 9,
            i <= last + 1,
            forall|j: int| 0 <= j < i ==> !release_match_at(p@, j),
        decreases last + 1 - i,
    {
        if matches_at(p, marker, i) {
            match crate::template::try_date_at(p, i + ml) {
                Some((mlen, dlen)) => {
                    assert(release_match_at(p@, i as int));
                    proof {
                        lemma_first_release_is(p@, 0, i as int);
                        crate::template::lemma_shape_determined(
                            p@,
                            i + ml,
                            mlen as int,
                            dlen as int,
                        );
                    }
                    let dstart = i + ml;
                    let dlen_total = 7 + mlen + dlen;
                    let sub = subrange_chars(p, dstart, dstart + dlen_total);
                    return Some(string_of(&sub));
                },
                None => {
                    assert(!crate::template::date_match_at(p@, i + 3));
                    assert(!release_match_at(p@, i as int));
                },
            }
        } else {
            assert(!occurs_at(p@, marker@, i as int));
            assert(!release_match_at(p@, i as int));
        }
        i = i + 1;
    }
    proof {
        assert forall|j: int| 0 <= j implies !release_match_at(p@, j) by {
            if j > last && release_match_at(p@, j) {
                let jd: int = j + 3;
                let (a, b) = choose|a: int, b: int|
                    crate::template::date_match_shape(p@, jd, a, b);
                assert(crate::template::date_match_shape(p@, jd, a, b));
            }
        }
        lemma_first_release_none(p@, 0);
    }
    None
}

/// Scan the paragraph texts for the marker phrase followed by a localized
/// date; the first match wins.
pub fn release_date_from_texts(paragraphs: &Vec<String>) -> (r: Option<String>)
    ensures
        r.deep_view() == spec_release_date(paragraphs.deep_view()),
{
    let marker: Vec<char> = vec!['发', '布', '于'];
    assert(marker@ =~= release_marker());
    let n = paragraphs.len();
    let ghost full = paragraphs.deep_view();
    assert(full.skip(0) =~= full);
    for i in 0..n
        invariant
            n == paragraphs@.len(),
            full == paragraphs.deep_view(),
            full.len() == n,
            marker@ == release_marker(),
            spec_release_date(full) == spec_release_date(full.skip(i as int)),
    {
        let p = chars_of(paragraphs[i].as_str());
        assert(p@ == full[i as int]);
        assert(full.skip(i as int)[0] == full[i as int]);
        match release_date_in_paragraph(&p, &marker) {
            Some(s) => {
                return Some(s);
            },
            None => {},
        }
        assert(full.skip(i as int).drop_first() =~= full.skip(i + 1));
    }
    assert(full.skip(n as int) =~= Seq::<Seq<char>>::empty());
    None
}

/// Four digits immediately followed by the year marker start at `i`.
pub open spec fn year_match_at(s: Seq<char>, i: int) -> bool {
    0 <= i && i + 5 <= s.len() && (forall|j: int| i <= j < i + 4 ==> is_ascii_digit(s[j])) && s[i
        + 4] == '年'
}

/// First position at or after `i` of a year match.
pub open spec fn first_year_match(s: Seq<char>, i: int) -> int
    decreases s.len() - i,
{
    if i < 0 || i + 5 > s.len() {
        -1
    } else if year_match_at(s, i) {
        i
    } else {
        first_year_match(s, i + 1)
    }
}

/// The year rule: the four digits of the first year match (the year is
/// derived from the release date only).
pub open spec fn spec_year(s: Seq<char>) -> Option<Seq<char>> {
    let i = first_year_match(s, 0);
    if i >= 0 {
        Some(s.subrange(i, i + 4))
    } else {
        None
    }
}

proof fn lemma_first_year_is(s: Seq<char>, a: int, i0: int)
    requires
        0 <= a <= i0,
        year_match_at(s, i0),
        forall|j: int| a <= j < i0 ==> !year_match_at(s, j),
    ensures
        first_year_match(s, a) == i0,
    decreases i0 - a,
{
    if a < i0 {
        lemma_first_year_is(s, a + 1, i0);
    }
}

proof fn lemma_first_year_none(s: Seq<char>, a: int)
    requires
        0 <= a,
        forall|j: int| a <= j ==> !year_match_at(s, j),
    ensures
        first_year_match(s, a) == -1,
    decreases s.len() + 1 - a,
{
    if a + 5 <= s.len() {
        lemma_first_year_none(s, a + 1);
    }
}

/// Extract the year from a release-date string: the four digits preceding
/// the first year marker.
pub fn year_from_date(date: &str) -> (r: Option<String>)
    ensures
        r.deep_view() == spec_year(date@),
{
    let v = chars_of(date);
    let n = v.len();
    if n < 5 {
        proof {
            lemma_first_year_none(v@, 0);
        }
        return None;
    }
    let last = n - 5;
    let mut i: usize = 0;
    while i <= last
        invariant
            n == v@.len(),
            v@ == date@,
            5 <= n,
            last == n - 5,
            i <= last + 1,
            forall|j: int| 0 <= j < i ==> !year_match_at(v@, j),
        decreases last + 1 - i,
    {
        if is_digit(v[i]) && is_digit(v[i + 1]) && is_digit(v[i + 2]) && is_digit(v[i + 3]) && v[i
            + 4] == '年' {
            proof {
                lemma_first_year_is(v@, 0, i as int);
            }
            let sub = subrange_chars(&v, i, i + 4);
            return Some(string_of(&sub));
        }
        assert(!year_match_at(v@, i as int));
        i = i + 1;
    }
    proof {
        lemma_first_year_none(v@, 0);
    }
    None
}

/// The ordered labeled-field patterns scanned for an author credit.
pub open spec fn author_label_music() -> Seq<char> {
    seq!['m', 'u', 's', 'i', 'c']
}

pub open spec fn author_label_compose() -> Seq<char> {
    seq!['作', '曲']
}

pub open spec fn author_label_words() -> Seq<char> {
    seq!['作', '词']
}

pub open spec fn author_label_lyrics() -> Seq<char> {
    seq!['L', 'y', 'r', 'i', 'c', 's']
}

/// First position at or after `j` in `d` holding a non-whitespace character.
pub open spec fn skip_spaces(d: Seq<char>, j: int) -> int
    decreases d.len() - j,
{
    if 0 <= j < d.len() && is_space_char(d[j]) {
        skip_spaces(d, j + 1)
    } else {
        j
    }
}

/// A character that ends an author capture.
pub open spec fn is_author_term(c: char) -> bool {
    c == '\n' || c == '\r' || c == '<'
}

/// First position at or after `k` in `d` holding a capture terminator, or
/// the end of `d`.
pub open spec fn capture_end(d: Seq<char>, k: int) -> int
    decreases d.len() - k,
{
    if 0 <= k < d.len() && !is_author_term(d[k]) {
        capture_end(d, k + 1)
    } else {
        k
    }
}

/// An author credit for `label` starts at `i`: the label, a colon (either
/// width), optional whitespace, then at least one capturable character.
pub open spec fn author_match_at(d: Seq<char>, label: Seq<char>, i: int) -> bool {
    occurs_at(d, label, i) && {
        let j = i + label.len();
        j < d.len() && (d[j] == '：' || d[j] == ':') && {
            let k = skip_spaces(d, j + 1);
            k < d.len() && !is_author_term(d[k])
        }
    }
}

/// The captured author value for a match at `i`: from the first
/// non-whitespace character after the colon up to a line break or markup
/// opener, trimmed.
pub open spec fn author_capture(d: Seq<char>, label: Seq<char>, i: int) -> Seq<char> {
    let k = skip_spaces(d, i + label.len() + 1);
    trim_spec(d.subrange(k, capture_end(d, k)))
}

/// First position at or after `i` where an author credit for `label` starts.
pub open spec fn first_author_match(d: Seq<char>, label: Seq<char>, i: int) -> int
    decreases d.len() - i,
{
    if i < 0 || i >= d.len() {
        -1
    } else if author_match_at(d, label, i) {
        i
    } else {
        first_author_match(d, label, i + 1)
    }
}

/// The author value the first credit for `label` yields, if any.
pub open spec fn spec_author_for(d: Seq<char>, label: Seq<char>) -> Option<Seq<char>> {
    let i = first_author_match(d, label, 0);
    if i >= 0 {
        Some(author_capture(d, label, i))
    } else {
        None
    }
}

/// The author rule: the ordered labeled-field patterns, first matching
/// pattern wins.
pub open spec fn spec_authors(d: Seq<char>) -> Option<Seq<char>> {
    if spec_author_for(d, author_label_music()) is Some {
        spec_author_for(d, author_label_music())
    } else if spec_author_for(d, author_label_compose()) is Some {
        spec_author_for(d, author_label_compose())
    } else if spec_author_for(d, author_label_words()) is Some {
        spec_author_for(d, author_label_words())
    } else {
        spec_author_for(d, author_label_lyrics())
    }
}

proof fn lemma_first_author_is(d: Seq<char>, label: Seq<char>, a: int, i0: int)
    requires
        0 <= a <= i0 < d.len(),
        author_match_at(d, label, i0),
        forall|j: int| a <= j < i0 ==> !author_match_at(d, label, j),
    ensures
        first_author_match(d, label, a) == i0,
    decreases i0 - a,
{
    if a < i0 {
        lemma_first_author_is(d, label, a + 1, i0);
    }
}

proof fn lemma_first_author_none(d: Seq<char>, label: Seq<char>, a: int)
    requires
        0 <= a,
        forall|j: int| a <= j ==> !author_match_at(d, label, j),
    ensures
        first_author_match(d, label, a) == -1,
    decreases d.len() - a,
{
    if a < d.len() {
        lemma_first_author_none(d, label, a + 1);
    }
}

fn is_author_term_exec(c: char) -> (r: bool)
    ensures
        r == is_author_term(c),
{
    c == '\n' || c == '\r' || c == '<'
}

/// Scan `d` for the first author credit under `label` and return its
/// captured value.
fn author_for_label(d: &Vec<char>, label: &Vec<char>) -> (r: Option<String>)
    requires
        label@.len() >= 1,
    ensures
        r.deep_view() == spec_author_for(d@, label@),
{
    let n = d.len();
    let ll = label.len();
    if ll > n {
        proof {
            assert(forall|j: int| 0 <= j ==> !author_match_at(d@, label@, j));
            lemma_first_author_none(d@, label@, 0);
        }
        return None;
    }
    let last = n - ll;
    let mut i: usize = 0;
    while i <= last
        invariant
            1 <= ll == label@.len(),
            n == d@.len(),
            ll <= n,
            last == n - ll,
            i <= last + 1,
            forall|j: int| 0 <= j < i ==> !author_match_at(d@, label@, j),
        decreases last + 1 - i,
    {
        if matches_at(d, label, i) {
            let j = i + ll;
            if j < n && (d[j] == '：' || d[j] == ':') {
                let mut k = j + 1;
                while k < n && is_space(d[k])
                    invariant
                        j + 1 <= k <= n,
                        n == d@.len(),
                        skip_spaces(d@, j + 1) == skip_spaces(d@, k as int),
                    decreases n - k,
                {
                    k = k + 1;
                }
                assert(skip_spaces(d@, j + 1) == k as int);
                if k < n && !is_author_term_exec(d[k]) {
                    assert(author_match_at(d@, label@, i as int));
                    let mut e = k;
                    while e < n && !is_author_term_exec(d[e])
                        invariant
                            k <= e <= n,
                            n == d@.len(),
                            capture_end(d@, k as int) == capture_end(d@, e as int),
                        decreases n - e,
                    {
                        e = e + 1;
                    }
                    assert(capture_end(d@, k as int) == e as int);
                    proof {
                        lemma_first_author_is(d@, label@, 0, i as int);
                    }
                    let sub = subrange_chars(d, k, e);
                    let trimmed = trim_chars(&sub);
                    return Some(string_of(&trimmed));
                } else {
                    assert(!author_match_at(d@, label@, i as int));
                }
            } else {
                assert(!author_match_at(d@, label@, i as int));
            }
        } else {
            assert(!occurs_at(d@, label@, i as int));
            assert(!author_match_at(d@, label@, i as int));
        }
        i = i + 1;
    }
    proof {
        assert forall|j: int| 0 <= j implies !author_match_at(d@, label@, j) by {
            if j > last && author_match_at(d@, label@, j) {
                assert(j + label@.len() <= d@.len());
            }
        }
        lemma_first_author_none(d@, label@, 0);
    }
    None
}

/// Scan a resolved description for an author credit, trying the labeled
/// patterns in their fixed order.
pub fn authors_from_description(description: &str) -> (r: Option<String>)
    ensures
        r.deep_view() == spec_authors(description@),
{
    let d = chars_of(description);
    let music: Vec<char> = vec!['m', 'u', 's', 'i', 'c'];
    assert(music@ =~= author_label_music());
    if let Some(a) = author_for_label(&d, &music) {
        return Some(a);
    }
    let compose: Vec<char> = vec!['作', '曲'];
    assert(compose@ =~= author_label_compose());
    if let Some(a) = author_for_label(&d, &compose) {
        return Some(a);
    }
    let words: Vec<char> = vec!['作', '词'];
    assert(words@ =~= author_label_words());
    if let Some(a) = author_for_label(&d, &words) {
        return Some(a);
    }
    let lyrics: Vec<char> = vec!['L', 'y', 'r', 'i', 'c', 's'];
    assert(lyrics@ =~= author_label_lyrics());
    author_for_label(&d, &lyrics)
}

/// The session-token rule: the text between the script marker
/// `token = '` and the next single quote.
pub open spec fn spec_token(h: Seq<char>) -> Option<Seq<char>> {
    let i = first_occurrence(h, "token = '"@, 0);
    if i < 0 {
        None
    } else {
        let s = i + "token = '"@.len();
        let e = first_occurrence(h, "'"@, s);
        if e < 0 {
            None
        } else {
            Some(h.subrange(s, e))
        }
    }
}

/// Scrape the per-walk session token from the page markup.
pub fn extract_token(html: &str) -> (r: Result<String, crate::model::SyncError>)
    ensures
        match r {
            Ok(t) => spec_token(html@) == Some(t@),
            Err(e) => e == crate::model::SyncError::Decode && spec_token(html@) is None,
        },
{
    let v = chars_of(html);
    let n = v.len();
    let pat = chars_of("token = '");
    match find_from(&v, &pat, 0) {
        Some(i) => {
            assert(i + pat@.len() <= n);
            let s = i + pat.len();
            let quote = chars_of("'");
            match find_from(&v, &quote, s) {
                Some(e) => {
                    let sub = subrange_chars(&v, s, e);
                    Ok(string_of(&sub))
                },
                None => Err(crate::model::SyncError::Decode),
            }
        },
        None => Err(crate::model::SyncError::Decode),
    }
}

/// The user-path marker followed by at least one digit starts at `i`.
pub open spec fn uid_match_at(h: Seq<char>, i: int) -> bool {
    occurs_at(h, "/u/"@, i) && i + "/u/"@.len() < h.len() && is_ascii_digit(h[i + "/u/"@.len()])
}

/// First position at or after `i` of a user-id match.
pub open spec fn first_uid_match(h: Seq<char>, i: int) -> int
    decreases h.len() - i,
{
    if i < 0 || i >= h.len() {
        -1
    } else if uid_match_at(h, i) {
        i
    } else {
        first_uid_match(h, i + 1)
    }
}

/// End of the run of ASCII digits starting at `j`.
pub open spec fn digit_run_end(h: Seq<char>, j: int) -> int
    decreases h.len() - j,
{
    if 0 <= j < h.len() && is_ascii_digit(h[j]) {
        digit_run_end(h, j + 1)
    } else {
        j
    }
}

/// The numeric user id the first user-path match in `h` yields, if any.
pub open spec fn spec_uid_value(h: Seq<char>) -> Option<nat> {
    let i = first_uid_match(h, 0);
    if i >= 0 {
        let j = i + "/u/"@.len();
        Some(digits_val(h.subrange(j, digit_run_end(h, j))))
    } else {
        None
    }
}

/// The user-id rule over the selected link targets: the first link whose
/// target holds a user path followed by digits decides the id.
pub open spec fn spec_user_id(hrefs: Seq<Option<Seq<char>>>) -> Option<nat>
    decreases hrefs.len(),
{
    if hrefs.len() == 0 {
        None
    } else {
        let rest = spec_user_id(hrefs.drop_first());
        match hrefs[0] {
            Some(h) => if spec_uid_value(h) is Some {
                spec_uid_value(h)
            } else {
                rest
            },
            None => rest,
        }
    }
}

proof fn lemma_first_uid_is(h: Seq<char>, a: int, i0: int)
    requires
        0 <= a <= i0 < h.len(),
        uid_match_at(h, i0),
        forall|j: int| a <= j < i0 ==> !uid_match_at(h, j),
    ensures
        first_uid_match(h, a) == i0,
    decreases i0 - a,
{
    if a < i0 {
        lemma_first_uid_is(h, a + 1, i0);
    }
}

proof fn lemma_first_uid_none(h: Seq<char>, a: int)
    requires
        0 <= a,
        forall|j: int| a <= j ==> !uid_match_at(h, j),
    ensures
        first_uid_match(h, a) == -1,
    decreases h.len() - a,
{
    if a < h.len() {
        lemma_first_uid_none(h, a + 1);
    }
}

proof fn lemma_digit_run_end_is(h: Seq<char>, j: int, e: int)
    requires
        0 <= j <= e <= h.len(),
        forall|q: int| j <= q < e ==> is_ascii_digit(h[q]),
        e == h.len() || !is_ascii_digit(h[e]),
    ensures
        digit_run_end(h, j) == e,
    decreases e - j,
{
    if j < e {
        lemma_digit_run_end_is(h, j + 1, e);
    }
}

/// Locate the digit run after the first user-path marker in one link target.
fn uid_digits_in_href(h: &Vec<char>) -> (r: Option<(usize, usize)>)
    ensures
        match r {
            Some(p) => {
                let i = first_uid_match(h@, 0);
                i >= 0 && p.0 == i + "/u/"@.len() && p.1 == digit_run_end(h@, p.0 as int) && p.0
                    < p.1 <= h@.len() && (forall|q: int|
                    p.0 <= q < p.1 ==> is_ascii_digit(h@[q]))
            },
            None => first_uid_match(h@, 0) == -1,
        },
{
    let pat = chars_of("/u/");
    proof {
        reveal_strlit("/u/");
    }
    let n = h.len();
    let mut from: usize = 0;
    loop
        invariant
            pat@ == "/u/"@,
            pat@.len() == 3,
            n == h@.len(),
            from <= n,
            forall|j: int| 0 <= j < from ==> !uid_match_at(h@, j),
        decreases n - from,
    {
        match crate::text::find_sub(h, &pat, from) {
            Some(i) => {
                assert(forall|j: int| from <= j < i ==> !occurs_at(h@, pat@, j));
                assert(forall|j: int| 0 <= j < i ==> !uid_match_at(h@, j));
                let j = i + 3;
                if j < n && is_digit(h[j]) {
                    assert(uid_match_at(h@, i as int));
                    proof {
                        lemma_first_uid_is(h@, 0, i as int);
                    }
                    let run = crate::text::digit_run_len(h, j);
                    let e = j + run;
                    proof {
                        lemma_digit_run_end_is(h@, j as int, e as int);
                    }
                    assert(j < e);
                    return Some((j, e));
                } else {
                    assert(!uid_match_at(h@, i as int));
                    from = i + 1;
                }
            },
            None => {
                assert forall|j: int| from <= j implies !occurs_at(h@, pat@, j) by {
                    if occurs_at(h@, pat@, j) {
                        assert(crate::text::occurs_from(h@, pat@, from as int));
                    }
                }
                assert(forall|j: int| 0 <= j ==> !uid_match_at(h@, j));
                proof {
                    lemma_first_uid_none(h@, 0);
                }
                return None;
            },
        }
    }
}

/// Extract the numeric user id from the selected link targets: the first
/// link holding a user path followed by digits decides; a value over the id
/// range, or no match at all, is a decode error.
pub fn user_id_from_hrefs(hrefs: &Vec<Option<String>>) -> (r: Result<u32, crate::model::SyncError>)
    ensures
        match r {
            Ok(uid) => spec_user_id(hrefs.deep_view()) == Some(uid as nat),
            Err(e) => e == crate::model::SyncError::Decode && (match spec_user_id(
                hrefs.deep_view(),
            ) {
                Some(v) => v > u32::MAX,
                None => true,
            }),
        },
{
    let n = hrefs.len();
    let ghost full = hrefs.deep_view();
    assert(full.skip(0) =~= full);
    for idx in 0..n
        invariant
            n == hrefs@.len(),
            full == hrefs.deep_view(),
            full.len() == n,
            spec_user_id(full) == spec_user_id(full.skip(idx as int)),
    {
        assert(full.skip(idx as int)[0] == full[idx as int]);
        match &hrefs[idx] {
            Some(s) => {
                let h = chars_of(s.as_str());
                assert(full[idx as int] == Some(s@));
                match uid_digits_in_href(&h) {
                    Some((j, e)) => {
                        match crate::text::parse_u32(&h, j, e) {
                            Some(x) => {
                                return Ok(x);
                            },
                            None => {
                                return Err(crate::model::SyncError::Decode);
                            },
                        }
                    },
                    None => {},
                }
            },
            None => {},
        }
        assert(full.skip(idx as int).drop_first() =~= full.skip(idx + 1));
    }
    assert(full.skip(n as int) =~= Seq::<Option<Seq<char>>>::empty());
    Err(crate::model::SyncError::Decode)
}

/// The title the detail page yields.
pub open spec fn page_title(html: Seq<char>) -> Option<Seq<char>> {
    spec_title(selected_texts(html, "title"@), selected_texts(html, "h1"@))
}

/// The label the detail page yields.
pub open spec fn page_label(html: Seq<char>) -> Option<Seq<char>> {
    spec_label(
        selected_texts(html, ".album-info .label, .disc-label, [class*='label']"@),
        selected_texts(html, "a[href*=\"/l/\"]"@),
    )
}

/// The release date the detail page yields.
pub open spec fn page_release_date(html: Seq<char>) -> Option<Seq<char>> {
    spec_release_date(selected_texts(html, "p"@))
}

/// The description the detail page yields.
pub open spec fn page_description(html: Seq<char>) -> Option<Seq<char>> {
    spec_description(selected_texts(html, "h3"@))
}

/// The tags the detail page yields.
pub open spec fn page_tags(html: Seq<char>) -> Seq<Seq<char>> {
    spec_tags(selected_texts(html, "a[href*='/albums/tags/']"@))
}

/// The year the detail page yields: derived from the release date only.
pub open spec fn page_year(html: Seq<char>) -> Option<Seq<char>> {
    match page_release_date(html) {
        Some(d) => spec_year(d),
        None => None,
    }
}

/// The authors the detail page yields: scanned from the resolved
/// description.
pub open spec fn page_authors(html: Seq<char>) -> Option<Seq<char>> {
    match page_description(html) {
        Some(d) => spec_authors(d),
        None => None,
    }
}

/// All the selectors the detail-page rules use parse.
pub open spec fn detail_selectors_ok() -> bool {
    &&& selector_ok("title"@)
    &&& selector_ok("h1"@)
    &&& selector_ok(".album-info .label, .disc-label, [class*='label']"@)
    &&& selector_ok("a[href*=\"/l/\"]"@)
    &&& selector_ok("p"@)
    &&& selector_ok("h3"@)
    &&& selector_ok("a[href*='/albums/tags/']"@)
}

/// Scrape the title from a detail page.
pub fn extract_title(html: &str) -> (r: Option<String>)
    ensures
        detail_selectors_ok() ==> r.deep_view() == page_title(html@),
{
    let titles = match select_texts(html, "title") {
        Some(v) => v,
        None => {
            return None;
        },
    };
    let h1s = match select_texts(html, "h1") {
        Some(v) => v,
        None => {
            return None;
        },
    };
    title_from_texts(&titles, &h1s)
}

/// Scrape the label from a detail page.
pub fn extract_label(html: &str) -> (r: Option<String>)
    ensures
        detail_selectors_ok() ==> r.deep_view() == page_label(html@),
{
    let labels = match select_texts(html, ".album-info .label, .disc-label, [class*='label']") {
        Some(v) => v,
        None => {
            return None;
        },
    };
    let links = match select_texts(html, "a[href*=\"/l/\"]") {
        Some(v) => v,
        None => {
            return None;
        },
    };
    label_from_texts(&labels, &links)
}

/// Scrape the release date from a detail page.
pub fn extract_release_date(html: &str) -> (r: Option<String>)
    ensures
        detail_selectors_ok() ==> r.deep_view() == page_release_date(html@),
{
    let paragraphs = match select_texts(html, "p") {
        Some(v) => v,
        None => {
            return None;
        },
    };
    release_date_from_texts(&paragraphs)
}

/// Scrape the description from a detail page.
pub fn extract_description(html: &str) -> (r: Option<String>)
    ensures
        detail_selectors_ok() ==> r.deep_view() == page_description(html@),
{
    let h3s = match select_texts(html, "h3") {
        Some(v) => v,
        None => {
            return None;
        },
    };
    description_from_texts(&h3s)
}

/// Scrape the tags from a detail page.
pub fn extract_tags(html: &str) -> (r: Vec<String>)
    ensures
        detail_selectors_ok() ==> r.deep_view() == page_tags(html@),
{
    let texts = match select_texts(html, "a[href*='/albums/tags/']") {
        Some(v) => v,
        None => {
            return Vec::new();
        },
    };
    tags_from_texts(&texts)
}

/// Enrich an item in place from its detail-page markup, as metadata
/// resolution prescribes: the title and label are filled only while they
/// still hold their placeholders; release date, description, tags, year and
/// authors are overwritten (re-invocation overwrites, never appends); a
/// per-field failure leaves that field absent. The key, cover and gift flag
/// are untouched.
pub fn enrich_album_details(album: &mut crate::model::Album, html: &str)
    ensures
        final(album).id == old(album).id,
        final(album).cover == old(album).cover,
        final(album).only_have_gift == old(album).only_have_gift,
        old(album).title@ != "未知专辑"@ ==> final(album).title == old(album).title,
        old(album).label@ != "未知厂牌"@ ==> final(album).label == old(album).label,
        detail_selectors_ok() ==> {
            &&& final(album).title@ == (if old(album).title@ == "未知专辑"@ {
                match page_title(html@) {
                    Some(t) => t,
                    None => old(album).title@,
                }
            } else {
                old(album).title@
            })
            &&& final(album).label@ == (if old(album).label@ == "未知厂牌"@ {
                match page_label(html@) {
                    Some(l) => l,
                    None => old(album).label@,
                }
            } else {
                old(album).label@
            })
            &&& final(album).release_date.deep_view() == page_release_date(html@)
            &&& final(album).description.deep_view() == page_description(html@)
            &&& final(album).tags.deep_view() == page_tags(html@)
            &&& final(album).year.deep_view() == page_year(html@)
            &&& final(album).authors.deep_view() == page_authors(html@)
        },
{
    let unknown_t = crate::model::unknown_title();
    if crate::text::str_eq(album.title.as_str(), unknown_t.as_str()) {
        match extract_title(html) {
            Some(t) => {
                album.title = t;
            },
            None => {},
        }
    }
    let unknown_l = crate::model::unknown_label();
    if crate::text::str_eq(album.label.as_str(), unknown_l.as_str()) {
        match extract_label(html) {
            Some(l) => {
                album.label = l;
            },
            None => {},
        }
    }
    album.release_date = extract_release_date(html);
    album.description = extract_description(html);
    album.tags = extract_tags(html);
    album.year = match &album.release_date {
        Some(d) => year_from_date(d.as_str()),
        None => None,
    };
    album.authors = match &album.description {
        Some(d) => authors_from_description(d.as_str()),
        None => None,
    };
}

/// Scrape the authenticated user's id from the front page: the user-path
/// links decide it, and the item count starts at zero (later listing calls
/// update it).
pub fn user_info_from_page(html: &str) -> (r: Result<
    crate::model::UserInfo,
    crate::model::SyncError,
>)
    ensures
        match r {
            Ok(u) => u.allcount == 0,
            Err(e) => e == crate::model::SyncError::Decode,
        },
        selector_ok("a[href*=\"/u/\"]"@) ==> match r {
            Ok(u) => spec_user_id(selected_attrs(html@, "a[href*=\"/u/\"]"@, "href"@)) == Some(
                u.uid as nat,
            ),
            Err(_) => (match spec_user_id(selected_attrs(html@, "a[href*=\"/u/\"]"@, "href"@)) {
                Some(v) => v > u32::MAX,
                None => true,
            }),
        },
{
    let hrefs = match select_attrs(html, "a[href*=\"/u/\"]", "href") {
        Some(v) => v,
        None => {
            return Err(crate::model::SyncError::Decode);
        },
    };
    match user_id_from_hrefs(&hrefs) {
        Ok(uid) => Ok(crate::model::UserInfo { uid, allcount: 0 }),
        Err(e) => Err(e),
    }
}

} // verus!
