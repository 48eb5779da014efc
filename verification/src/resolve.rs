//! Download-link resolution: a per-format ephemeral key is scraped from the
//! detail page's download anchors and substituted into one of two URL
//! templates. The gift variant is optional content: a missing gift anchor is
//! an empty, non-error result, while any other format missing its anchor is
//! a hard error.

use vstd::prelude::*;
use crate::model::SyncError;
use crate::scrape::{select_attrs, selected_attrs, selector_ok};
use crate::text::{chars_of, find_sub, occurs_at, str_eq, string_of, subrange_chars};

verus! {

/// A download key starts at `i`: the `k=` query marker followed by at least
/// one character other than `'&'`.
pub open spec fn key_match_at(h: Seq<char>, i: int) -> bool {
    occurs_at(h, "k="@, i) && i + "k="@.len() < h.len() && h[i + "k="@.len()] != '&'
}

/// First position at or after `i` of a key match.
pub open spec fn first_key_match(h: Seq<char>, i: int) -> int
    decreases h.len() - i,
{
    if i < 0 || i >= h.len() {
        -1
    } else if key_match_at(h, i) {
        i
    } else {
        first_key_match(h, i + 1)
    }
}

/// End of the key value starting at `j`: the next `'&'` or the end of `h`.
pub open spec fn key_end(h: Seq<char>, j: int) -> int
    decreases h.len() - j,
{
    if 0 <= j < h.len() && h[j] != '&' {
        key_end(h, j + 1)
    } else {
        j
    }
}

/// The key the first `k=` marker in an anchor target yields, if any.
pub open spec fn spec_key(h: Seq<char>) -> Option<Seq<char>> {
    let i = first_key_match(h, 0);
    if i >= 0 {
        let j = i + "k="@.len();
        Some(h.subrange(j, key_end(h, j)))
    } else {
        None
    }
}

/// The key the selected download anchors yield: only the first anchor is
/// consulted, and it must carry a target with a key.
pub open spec fn spec_key_of_anchors(attrs: Seq<Option<Seq<char>>>) -> Option<Seq<char>> {
    if attrs.len() > 0 {
        match attrs[0] {
            Some(h) => spec_key(h),
            None => None,
        }
    } else {
        None
    }
}

proof fn lemma_first_key_is(h: Seq<char>, a: int, i0: int)
    requires
        0 <= a <= i0 < h.len(),
        key_match_at(h, i0),
        forall|j: int| a <= j < i0 ==> !key_match_at(h, j),
    ensures
        first_key_match(h, a) == i0,
    decreases i0 - a,
{
    if a < i0 {
        lemma_first_key_is(h, a + 1, i0);
    }
}

proof fn lemma_first_key_none(h: Seq<char>, a: int)
    requires
        0 <= a,
        forall|j: int| a <= j ==> !key_match_at(h, j),
    ensures
        first_key_match(h, a) == -1,
    decreases h.len() - a,
{
    if a < h.len() {
        lemma_first_key_none(h, a + 1);
    }
}

proof fn lemma_key_end_is(h: Seq<char>, j: int, e: int)
    requires
        0 <= j <= e <= h.len(),
        forall|q: int| j <= q < e ==> h[q] != '&',
        e == h.len() || h[e] == '&',
    ensures
        key_end(h, j) == e,
    decreases e - j,
{
    if j < e {
        lemma_key_end_is(h, j + 1, e);
    }
}

/// Extract the download key from one anchor target.
fn key_in_href(h: &Vec<char>) -> (r: Option<String>)
    ensures
        r.deep_view() == spec_key(h@),
{
    let pat = chars_of("k=");
    proof {
        reveal_strlit("k=");
    }
    let n = h.len();
    let mut from: usize = 0;
    loop
        invariant
            pat@ == "k="@,
            pat@.len() == 2,
            n == h@.len(),
            from <= n,
            forall|j: int| 0 <= j < from ==> !key_match_at(h@, j),
        decreases n - from,
    {
        match find_sub(h, &pat, from) {
            Some(i) => {
                assert(forall|j: int| 0 <= j < i ==> !key_match_at(h@, j));
                let j = i + 2;
                if j < n && h[j] != '&' {
                    assert(key_match_at(h@, i as int));
                    proof {
                        lemma_first_key_is(h@, 0, i as int);
                    }
                    let mut e = j;
                    while e < n && h[e] != '&'
                        invariant
                            j <= e <= n,
                            n == h@.len(),
                            forall|q: int| j <= q < e ==> h@[q] != '&',
                        decreases n - e,
                    {
                        e = e + 1;
                    }
                    proof {
                        lemma_key_end_is(h@, j as int, e as int);
                    }
                    let sub = subrange_chars(h, j, e);
                    return Some(string_of(&sub));
                } else {
                    assert(!key_match_at(h@, i as int));
                    from = i + 1;
                }
            },
            None => {
                assert forall|j: int| from <= j implies !key_match_at(h@, j) by {
                    if occurs_at(h@, pat@, j) {
                        assert(crate::text::occurs_from(h@, pat@, from as int));
                    }
                }
                proof {
                    lemma_first_key_none(h@, 0);
                }
                return None;
            },
        }
    }
}

/// Extract the download key from the selected anchors: only the first
/// anchor is consulted.
pub fn key_of_anchors(attrs: &Vec<Option<String>>) -> (r: Option<String>)
    ensures
        r.deep_view() == spec_key_of_anchors(attrs.deep_view()),
{
    if attrs.len() == 0 {
        return None;
    }
    match &attrs[0] {
        Some(s) => {
            let h = chars_of(s.as_str());
            assert(attrs.deep_view()[0] == Some(s@));
            key_in_href(&h)
        },
        None => None,
    }
}

/// Build the gift download URL for an item and key.
pub fn gift_download_url(album_id: &str, key: &str) -> (r: String)
    ensures
        r@ == "https://www.dizzylab.net/albums/download_gift/"@ + album_id@ + "/?k="@ + key@,
{
    let mut r: String = String::from_str("https://www.dizzylab.net/albums/download_gift/");
    r.append(album_id);
    r.append("/?k=");
    r.append(key);
    r
}

/// Build the direct download URL for an item, format and key.
pub fn direct_download_url(album_id: &str, format: &str, key: &str) -> (r: String)
    ensures
        r@ == "https://www.dizzylab.net/albums/download/?d="@ + album_id@ + "&tp="@ + format@
            + "&k="@ + key@,
{
    let mut r: String = String::from_str("https://www.dizzylab.net/albums/download/?d=");
    r.append(album_id);
    r.append("&tp=");
    r.append(format);
    r.append("&k=");
    r.append(key);
    r
}

/// Build the detail-page URL of an item.
pub fn album_detail_url(album_id: &str) -> (r: String)
    ensures
        r@ == "https://www.dizzylab.net/d/"@ + album_id@ + "/"@,
{
    let mut r: String = String::from_str("https://www.dizzylab.net/d/");
    r.append(album_id);
    r.append("/");
    r
}

/// The anchor selector for the optional gift content.
pub open spec fn gift_selector() -> Seq<char> {
    "a[href*=\"/albums/download_gift/\"]"@
}

/// The anchor selector for a non-gift format: its target carries the
/// format-specific query marker.
pub open spec fn tp_selector(format: Seq<char>) -> Seq<char> {
    "a[href*=\"tp="@ + format + "\"]"@
}

/// Resolve the download links of an item for one format from the detail
/// page: the ephemeral key of the first matching anchor, substituted into
/// the gift or non-gift URL template. A missing gift anchor yields an empty
/// result (the item simply has no gift content); any other format missing
/// its anchor is a decode error.
pub fn resolve_download_links(album_id: &str, format: &str, html: &str) -> (r: Result<
    Vec<(String, String)>,
    SyncError,
>)
    ensures
        format@ == "gift"@ && selector_ok(gift_selector()) ==> ({
            let key = spec_key_of_anchors(selected_attrs(html@, gift_selector(), "href"@));
            match r {
                Ok(v) => match key {
                    Some(k) => v@.len() == 1 && v@[0].0@ == format@ && v@[0].1@
                        == "https://www.dizzylab.net/albums/download_gift/"@ + album_id@ + "/?k="@
                        + k,
                    None => v@.len() == 0,
                },
                Err(_) => false,
            }
        }),
        format@ != "gift"@ && selector_ok(tp_selector(format@)) ==> ({
            let key = spec_key_of_anchors(selected_attrs(html@, tp_selector(format@), "href"@));
            match r {
                Ok(v) => match key {
                    Some(k) => v@.len() == 1 && v@[0].0@ == format@ && v@[0].1@
                        == "https://www.dizzylab.net/albums/download/?d="@ + album_id@ + "&tp="@
                        + format@ + "&k="@ + k,
                    None => false,
                },
                Err(e) => key is None && e == SyncError::Decode,
            }
        }),
{
    if str_eq(format, "gift") {
        let attrs = match select_attrs(html, "a[href*=\"/albums/download_gift/\"]", "href") {
            Some(v) => v,
            None => {
                return Err(SyncError::Decode);
            },
        };
        match key_of_anchors(&attrs) {
            Some(k) => {
                let url = gift_download_url(album_id, k.as_str());
                let mut v: Vec<(String, String)> = Vec::new();
                let f: String = String::from_str(format);
                v.push((f, url));
                Ok(v)
            },
            None => {
                let v: Vec<(String, String)> = Vec::new();
                Ok(v)
            },
        }
    } else {
        let mut sel: String = String::from_str("a[href*=\"tp=");
        sel.append(format);
        sel.append("\"]");
        assert(sel@ == tp_selector(format@));
        let attrs = match select_attrs(html, sel.as_str(), "href") {
            Some(v) => v,
            None => {
                return Err(SyncError::Decode);
            },
        };
        match key_of_anchors(&attrs) {
            Some(k) => {
                let url = direct_download_url(album_id, format, k.as_str());
                let mut v: Vec<(String, String)> = Vec::new();
                let f: String = String::from_str(format);
                v.push((f, url));
                Ok(v)
            },
            None => Err(SyncError::Decode),
        }
    }
}

} // verus!
