use dizzysync::catalog::{
    apply_page, collect_walk, listing_url, user_music_url, WalkState, PAGE_LIMIT,
};
use dizzysync::config::Config;
use dizzysync::fetch::{plan_fetch_response, FetchStep};
use dizzysync::model::{Album, AlbumListResponse, UserInfo};
use dizzysync::sync::{plan_item, ItemAction};

fn album(id: &str) -> Album {
    Album {
        id: id.to_string(),
        title: format!("title {}", id),
        label: "L".to_string(),
        cover: String::new(),
        only_have_gift: false,
        release_date: None,
        description: None,
        tags: Vec::new(),
        year: None,
        authors: None,
    }
}

fn page(ids: &[&str], can_show_more: bool) -> AlbumListResponse {
    AlbumListResponse {
        user: UserInfo { uid: 1, allcount: 0 },
        discs: ids.iter().map(|i| album(i)).collect(),
        can_show_more,
    }
}

fn ids(albums: &[Album]) -> Vec<String> {
    albums.iter().map(|a| a.id.clone()).collect()
}

#[test]
fn walk_stops_when_server_reports_no_more() {
    let pages = vec![page(&["a", "b"], true), page(&["c"], false), page(&["x"], true)];
    let collected = collect_walk(pages);
    assert_eq!(ids(&collected), vec!["a", "b", "c"]);
}

#[test]
fn walk_takes_single_final_page() {
    let pages = vec![page(&["a"], false), page(&["x"], true)];
    let collected = collect_walk(pages);
    assert_eq!(ids(&collected), vec!["a"]);
}

#[test]
fn walk_of_no_pages_is_empty() {
    let collected = collect_walk(Vec::new());
    assert!(collected.is_empty());
}

#[test]
fn walk_preserves_server_order() {
    let pages = vec![page(&["1", "2"], true), page(&["3", "4"], true), page(&["5"], false)];
    let collected = collect_walk(pages);
    assert_eq!(ids(&collected), vec!["1", "2", "3", "4", "5"]);
}

#[test]
fn apply_page_advances_offset_and_done_flag() {
    let mut st = WalkState::start();
    assert_eq!(st.offset, 0);
    assert!(!st.done);
    apply_page(&mut st, page(&["a"], true));
    assert_eq!(st.offset, PAGE_LIMIT);
    assert!(!st.done);
    apply_page(&mut st, page(&["b"], false));
    assert_eq!(st.offset, 2 * PAGE_LIMIT);
    assert!(st.done);
    assert_eq!(ids(&st.albums), vec!["a", "b"]);
}

#[test]
fn listing_and_profile_urls() {
    assert_eq!(
        listing_url(40, 7, "tok"),
        "https://www.dizzylab.net/apis/getotheruserinfo/?l=40&r=60&uid=7&token=tok"
    );
    assert_eq!(user_music_url(7), "https://www.dizzylab.net/u/7/music/");
}

#[test]
fn fetch_success_uses_body() {
    assert!(matches!(plan_fetch_response(200, None), FetchStep::UseBody));
    assert!(matches!(plan_fetch_response(204, Some("x".to_string())), FetchStep::UseBody));
}

#[test]
fn fetch_redirect_follows_once() {
    match plan_fetch_response(302, Some("https://cdn.example/x".to_string())) {
        FetchStep::FollowCdn(u) => assert_eq!(u, "https://cdn.example/x"),
        _ => panic!("expected the redirect to be followed"),
    }
}

#[test]
fn fetch_other_statuses_fail_with_code() {
    assert!(matches!(plan_fetch_response(404, None), FetchStep::Fail(404)));
    assert!(matches!(plan_fetch_response(302, None), FetchStep::Fail(302)));
    assert!(matches!(plan_fetch_response(500, Some("x".to_string())), FetchStep::Fail(500)));
}

#[test]
fn skip_existing_plans_zero_download_actions() {
    let config = Config::default();
    let plan = plan_item(&config, true);
    assert_eq!(plan.len(), 1);
    assert!(matches!(plan[0], ItemAction::FetchMetadata));
    assert!(!plan.iter().any(|a| matches!(a, ItemAction::DownloadFormat(_))));
}

#[test]
fn fresh_item_plans_full_pipeline() {
    let config = Config::default();
    let plan = plan_item(&config, false);
    assert!(matches!(plan[0], ItemAction::FetchMetadata));
    assert!(matches!(plan[1], ItemAction::CreateDirectory));
    assert!(matches!(plan[2], ItemAction::WriteReadme));
    assert!(matches!(plan[3], ItemAction::WriteNfo));
    match (&plan[4], &plan[5]) {
        (ItemAction::DownloadFormat(a), ItemAction::DownloadFormat(b)) => {
            assert_eq!(a, "MP3");
            assert_eq!(b, "FLAC");
        },
        _ => panic!("expected the configured formats in order"),
    }
    assert_eq!(plan.len(), 6);
}

#[test]
fn metadata_only_plans_no_downloads() {
    let mut config = Config::default();
    config.behavior.metadata_only = true;
    let plan = plan_item(&config, false);
    assert_eq!(plan.len(), 4);
    assert!(!plan.iter().any(|a| matches!(a, ItemAction::DownloadFormat(_))));
}

#[test]
fn sidecar_flags_control_plan() {
    let mut config = Config::default();
    config.behavior.generate_readme = false;
    config.behavior.generate_nfo = false;
    config.behavior.metadata_only = true;
    let plan = plan_item(&config, false);
    assert_eq!(plan.len(), 2);
    assert!(matches!(plan[1], ItemAction::CreateDirectory));
}

#[test]
fn placeholder_album_fields() {
    let a = Album::placeholder("xyz".to_string());
    assert_eq!(a.id, "xyz");
    assert_eq!(a.title, "未知专辑");
    assert_eq!(a.label, "未知厂牌");
    assert_eq!(a.cover, "");
    assert!(!a.only_have_gift);
    assert!(a.release_date.is_none());
    assert!(a.tags.is_empty());
}
