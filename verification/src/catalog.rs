//! Catalog pagination: the authenticated user's item list is fetched in
//! fixed-size pages, and the walk stops exactly when the server reports no
//! further pages. The walk state and its laws live here; the surrounding
//! program performs the page fetches and feeds each decoded page back.

use vstd::prelude::*;
use crate::model::{Album, AlbumListResponse};
use crate::text::{dec_str, u32_string};

verus! {

/// Fixed page size of the listing endpoint.
pub const PAGE_LIMIT: u32 = 20;

/// State of one catalog walk: the next request offset, the items collected
/// so far in server order, and whether the server has reported the end.
pub struct WalkState {
    pub offset: u32,
    pub albums: Vec<Album>,
    pub done: bool,
}

impl WalkState {
    /// A fresh walk: offset zero, nothing collected, not done.
    pub fn start() -> (s: WalkState)
        ensures
            s.offset == 0,
            s.albums@ == Seq::<Album>::empty(),
            !s.done,
    {
        WalkState { offset: 0, albums: Vec::new(), done: false }
    }
}

/// The listing URL for the page at `offset`, carrying the per-walk session
/// token.
pub fn listing_url(offset: u32, uid: u32, token: &str) -> (r: String)
    requires
        offset + 20 <= u32::MAX,
    ensures
        r@ == "https://www.dizzylab.net/apis/getotheruserinfo/?l="@ + dec_str(offset as nat)
            + "&r="@ + dec_str((offset + 20) as nat) + "&uid="@ + dec_str(uid as nat) + "&token="@
            + token@,
{
    let mut r: String = String::from_str("https://www.dizzylab.net/apis/getotheruserinfo/?l=");
    let l = u32_string(offset);
    r.append(l.as_str());
    r.append("&r=");
    let rr = u32_string(offset + 20);
    r.append(rr.as_str());
    r.append("&uid=");
    let u = u32_string(uid);
    r.append(u.as_str());
    r.append("&token=");
    r.append(token);
    r
}

/// The page whose markup carries the session token, also sent as the
/// referer of every listing request.
pub fn user_music_url(uid: u32) -> (r: String)
    ensures
        r@ == "https://www.dizzylab.net/u/"@ + dec_str(uid as nat) + "/music/"@,
{
    let mut r: String = String::from_str("https://www.dizzylab.net/u/");
    let u = u32_string(uid);
    r.append(u.as_str());
    r.append("/music/");
    r
}

/// Consume one decoded page: its items are appended in server order, the
/// offset advances by the fixed page size, and the walk is done exactly
/// when the page reports no more.
pub fn apply_page(st: &mut WalkState, page: AlbumListResponse)
    requires
        old(st).offset + 20 <= u32::MAX,
        !old(st).done,
    ensures
        final(st).albums@ == old(st).albums@ + page.discs@,
        final(st).done == !page.can_show_more,
        final(st).offset == old(st).offset + 20,
{
    let mut discs = page.discs;
    st.albums.append(&mut discs);
    st.done = !page.can_show_more;
    st.offset = st.offset + PAGE_LIMIT;
}

/// The items a walk over `pages` collects: pages are consumed in order, and
/// the walk stops with the first page that reports no more (all pages, if
/// every one reports more).
pub open spec fn walk_albums(pages: Seq<AlbumListResponse>) -> Seq<Album>
    decreases pages.len(),
{
    if pages.len() == 0 {
        Seq::empty()
    } else if !pages[0].can_show_more {
        pages[0].discs@
    } else {
        pages[0].discs@ + walk_albums(pages.drop_first())
    }
}

/// How many of `pages` the walk consumes.
pub open spec fn pages_consumed(pages: Seq<AlbumListResponse>) -> int
    decreases pages.len(),
{
    if pages.len() == 0 {
        0
    } else if !pages[0].can_show_more {
        1
    } else {
        1 + pages_consumed(pages.drop_first())
    }
}

/// All items of `pages` concatenated in server order.
pub open spec fn discs_concat(pages: Seq<AlbumListResponse>) -> Seq<Album>
    decreases pages.len(),
{
    if pages.len() == 0 {
        Seq::empty()
    } else {
        pages[0].discs@ + discs_concat(pages.drop_first())
    }
}

/// No two items share an external key.
pub open spec fn distinct_ids(albums: Seq<Album>) -> bool {
    forall|i: int, j: int| 0 <= i < j < albums.len() ==> albums[i].id@ != albums[j].id@
}

proof fn lemma_consumed_bounds(pages: Seq<AlbumListResponse>)
    ensures
        0 <= pages_consumed(pages) <= pages.len(),
    decreases pages.len(),
{
    if pages.len() > 0 && pages[0].can_show_more {
        lemma_consumed_bounds(pages.drop_first());
    }
}

/// Law: the walk stops exactly when the server reports no further pages.
/// It consumes a prefix of the page sequence; every consumed page but the
/// last reported more; if any page was left unconsumed, the last consumed
/// one reported no more; and the collected items are exactly the consumed
/// pages' items concatenated in server order.
pub proof fn lemma_walk_consumes_prefix(pages: Seq<AlbumListResponse>)
    ensures
        0 <= pages_consumed(pages) <= pages.len(),
        walk_albums(pages) == discs_concat(pages.take(pages_consumed(pages))),
        forall|k: int| 0 <= k < pages_consumed(pages) - 1 ==> pages[k].can_show_more,
        pages_consumed(pages) < pages.len() ==> !pages[pages_consumed(pages) - 1].can_show_more,
    decreases pages.len(),
{
    assert(discs_concat(Seq::<AlbumListResponse>::empty()) == Seq::<Album>::empty());
    if pages.len() == 0 {
        assert(pages.take(0) =~= pages);
    } else if !pages[0].can_show_more {
        assert(pages.take(1).drop_first() =~= Seq::<AlbumListResponse>::empty());
        assert(pages.take(1)[0] == pages[0]);
        assert(discs_concat(pages.take(1)) =~= pages[0].discs@);
    } else {
        lemma_walk_consumes_prefix(pages.drop_first());
        let c = pages_consumed(pages.drop_first());
        assert(pages.take(c + 1)[0] == pages[0]);
        assert(pages.take(c + 1).drop_first() =~= pages.drop_first().take(c));
        assert forall|k: int| 0 <= k < pages_consumed(pages) - 1 implies pages[k].can_show_more by {
            if k >= 1 {
                assert(pages.drop_first()[k - 1].can_show_more);
            }
        }
        if pages_consumed(pages) < pages.len() {
            assert(c < pages.drop_first().len());
            assert(pages.drop_first().len() > 0);
            lemma_consumed_bounds(pages.drop_first().drop_first());
            assert(c >= 1);
            assert(!pages.drop_first()[c - 1].can_show_more);
            assert(pages[pages_consumed(pages) - 1] == pages.drop_first()[c - 1]);
        }
    }
}

proof fn lemma_discs_concat_split(pages: Seq<AlbumListResponse>, k: int)
    requires
        0 <= k <= pages.len(),
    ensures
        discs_concat(pages) == discs_concat(pages.take(k)) + discs_concat(pages.skip(k)),
    decreases k,
{
    if k == 0 {
        assert(pages.take(0) =~= Seq::<AlbumListResponse>::empty());
        assert(pages.skip(0) =~= pages);
        assert(discs_concat(pages) =~= discs_concat(pages.take(0)) + discs_concat(pages.skip(0)));
    } else {
        lemma_discs_concat_split(pages.drop_first(), k - 1);
        assert(pages.take(k)[0] == pages[0]);
        assert(pages.take(k).drop_first() =~= pages.drop_first().take(k - 1));
        assert(pages.skip(k) =~= pages.drop_first().skip(k - 1));
        assert(pages[0].discs@ + (discs_concat(pages.drop_first().take(k - 1)) + discs_concat(
            pages.drop_first().skip(k - 1),
        )) =~= (pages[0].discs@ + discs_concat(pages.drop_first().take(k - 1))) + discs_concat(
            pages.drop_first().skip(k - 1),
        ));
    }
}

/// Law: absent server-side duplication across the pages, the walk collects
/// no duplicate items.
pub proof fn lemma_walk_no_duplicates(pages: Seq<AlbumListResponse>)
    requires
        distinct_ids(discs_concat(pages)),
    ensures
        distinct_ids(walk_albums(pages)),
{
    lemma_walk_consumes_prefix(pages);
    let c = pages_consumed(pages);
    lemma_discs_concat_split(pages, c);
    let w = walk_albums(pages);
    assert forall|i: int, j: int| 0 <= i < j < w.len() implies w[i].id@ != w[j].id@ by {
        assert(w[i] == discs_concat(pages)[i]);
        assert(w[j] == discs_concat(pages)[j]);
    }
}

/// Replay a walk over an already-fetched page sequence: pages are consumed
/// in order until one reports no further pages (or the sequence runs out),
/// and the collected items preserve server order.
pub fn collect_walk(pages: Vec<AlbumListResponse>) -> (r: Vec<Album>)
    requires
        pages@.len() < 100000000,
    ensures
        r@ == walk_albums(pages@),
{
    let ghost full = pages@;
    let mut rest = pages;
    let mut st = WalkState::start();
    assert(st.albums@ + walk_albums(rest@) =~= walk_albums(full));
    while !st.done && rest.len() > 0
        invariant
            rest@.len() <= full.len() < 100000000,
            st.offset == 20 * (full.len() - rest@.len()),
            !st.done ==> st.albums@ + walk_albums(rest@) == walk_albums(full),
            st.done ==> st.albums@ == walk_albums(full),
        decreases rest@.len(),
    {
        let ghost before = rest@;
        let page = rest.remove(0);
        assert(rest@ =~= before.drop_first());
        assert(page == before[0]);
        apply_page(&mut st, page);
    }
    if !st.done {
        assert(rest@.len() == 0);
        assert(walk_albums(rest@) =~= Seq::<Album>::empty());
        assert(st.albums@ =~= walk_albums(full));
    }
    st.albums
}

} // verus!
