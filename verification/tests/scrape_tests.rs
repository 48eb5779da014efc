use dizzysync::model::{Album, SyncError};
use dizzysync::resolve::resolve_download_links;
use dizzysync::scrape::{
    authors_from_description, enrich_album_details, extract_description, extract_label,
    extract_release_date, extract_tags, extract_title, extract_token, user_info_from_page,
    year_from_date,
};

const DETAIL_PAGE: &str = "<html><head><title>Album X - Dizzylab</title></head><body>\
<h1>Album X</h1>\
<a href=\"/l/labelpage/\">Label Y</a>\
<h3>music：Alice\n一段足够长的专辑介绍文字，超过二十个字符的描述内容。</h3>\
<p>发布于2025年6月10日</p>\
<a href=\"/albums/tags/rock/\">#rock</a>\
<a href=\"/albums/tags/pop/\">#pop</a>\
<a href=\"/albums/download/?d=dts&tp=FLAC&k=KEY9\">FLAC</a>\
</body></html>";

#[test]
fn title_from_page_title_separator() {
    assert_eq!(extract_title(DETAIL_PAGE), Some("Album X".to_string()));
}

#[test]
fn title_falls_back_to_heading() {
    let html = "<html><body><h1> Heading Title </h1></body></html>";
    assert_eq!(extract_title(html), Some("Heading Title".to_string()));
}

#[test]
fn label_from_link_fallback() {
    assert_eq!(extract_label(DETAIL_PAGE), Some("Label Y".to_string()));
}

#[test]
fn label_from_labeled_region() {
    let html = "<html><body><div class=\"disc-label\">Region Label</div></body></html>";
    assert_eq!(extract_label(html), Some("Region Label".to_string()));
}

#[test]
fn release_date_from_marker_paragraph() {
    assert_eq!(extract_release_date(DETAIL_PAGE), Some("2025年6月10日".to_string()));
}

#[test]
fn release_date_absent_without_marker() {
    let html = "<html><body><p>nothing here</p></body></html>";
    assert_eq!(extract_release_date(html), None);
}

#[test]
fn year_derived_from_release_date() {
    assert_eq!(year_from_date("2025年6月10日"), Some("2025".to_string()));
    assert_eq!(year_from_date("no year"), None);
}

#[test]
fn description_needs_more_than_twenty_characters() {
    let short = "<html><body><h3>short</h3></body></html>";
    assert_eq!(extract_description(short), None);
    let long = "<html><body><h3>一段足够长的专辑介绍文字，超过二十个字符的描述内容。</h3></body></html>";
    assert_eq!(
        extract_description(long),
        Some("一段足够长的专辑介绍文字，超过二十个字符的描述内容。".to_string())
    );
}

#[test]
fn tags_strip_hash_marker() {
    assert_eq!(extract_tags(DETAIL_PAGE), vec!["rock".to_string(), "pop".to_string()]);
}

#[test]
fn tags_without_marker_ignored() {
    let html = "<html><body><a href=\"/albums/tags/x/\">plain</a></body></html>";
    assert_eq!(extract_tags(html), Vec::<String>::new());
}

#[test]
fn authors_patterns_in_order() {
    assert_eq!(authors_from_description("music：Alice\nrest"), Some("Alice".to_string()));
    assert_eq!(authors_from_description("作曲: Bob<br>"), Some("Bob".to_string()));
    assert_eq!(authors_from_description("作词：Carol"), Some("Carol".to_string()));
    assert_eq!(authors_from_description("Lyrics: Dave"), Some("Dave".to_string()));
    assert_eq!(authors_from_description("nobody credited"), None);
}

#[test]
fn authors_first_pattern_wins() {
    assert_eq!(
        authors_from_description("作曲: Bob\nmusic: Alice"),
        Some("Alice".to_string())
    );
}

#[test]
fn token_between_quotes() {
    let html = "<script>var token = 'abc123';</script>";
    assert_eq!(extract_token(html), Ok("abc123".to_string()));
}

#[test]
fn token_missing_is_decode_error() {
    assert_eq!(extract_token("<html></html>"), Err(SyncError::Decode));
}

#[test]
fn user_id_from_profile_link() {
    let html = "<html><body><a href=\"/u/12345/music/\">me</a></body></html>";
    let info = user_info_from_page(html).unwrap();
    assert_eq!(info.uid, 12345);
    assert_eq!(info.allcount, 0);
}

#[test]
fn user_id_missing_is_decode_error() {
    let html = "<html><body><a href=\"/d/x/\">an item</a></body></html>";
    assert_eq!(user_info_from_page(html).unwrap_err(), SyncError::Decode);
}

#[test]
fn enrich_fills_placeholder_fields() {
    let mut album = Album::placeholder("dts".to_string());
    enrich_album_details(&mut album, DETAIL_PAGE);
    assert_eq!(album.id, "dts");
    assert_eq!(album.title, "Album X");
    assert_eq!(album.label, "Label Y");
    assert_eq!(album.release_date, Some("2025年6月10日".to_string()));
    assert_eq!(album.year, Some("2025".to_string()));
    assert_eq!(album.tags, vec!["rock".to_string(), "pop".to_string()]);
    assert_eq!(album.authors, Some("Alice".to_string()));
    assert!(album.description.is_some());
}

#[test]
fn enrich_keeps_non_placeholder_title() {
    let mut album = Album::placeholder("dts".to_string());
    album.title = "Listing Title".to_string();
    enrich_album_details(&mut album, DETAIL_PAGE);
    assert_eq!(album.title, "Listing Title");
}

#[test]
fn gift_without_anchor_is_empty_not_error() {
    let links = resolve_download_links("dts", "gift", DETAIL_PAGE).unwrap();
    assert!(links.is_empty());
}

#[test]
fn gift_with_anchor_resolves() {
    let html = "<html><body>\
<a href=\"/albums/download_gift/dts/?k=GIFTKEY\">gift</a>\
</body></html>";
    let links = resolve_download_links("dts", "gift", html).unwrap();
    assert_eq!(links.len(), 1);
    assert_eq!(links[0].0, "gift");
    assert_eq!(
        links[0].1,
        "https://www.dizzylab.net/albums/download_gift/dts/?k=GIFTKEY"
    );
}

#[test]
fn format_with_anchor_resolves() {
    let links = resolve_download_links("dts", "FLAC", DETAIL_PAGE).unwrap();
    assert_eq!(links.len(), 1);
    assert_eq!(links[0].0, "FLAC");
    assert_eq!(
        links[0].1,
        "https://www.dizzylab.net/albums/download/?d=dts&tp=FLAC&k=KEY9"
    );
}

#[test]
fn format_without_anchor_is_error() {
    let r = resolve_download_links("dts", "MP3", DETAIL_PAGE);
    assert_eq!(r.unwrap_err(), SyncError::Decode);
}

#[test]
fn user_id_at_range_limit() {
    let html = "<html><body><a href=\"/u/4294967295/\">me</a></body></html>";
    assert_eq!(user_info_from_page(html).unwrap().uid, 4294967295);
}

#[test]
fn user_id_over_range_is_decode_error() {
    let html = "<html><body><a href=\"/u/4294967296/\">me</a></body></html>";
    assert_eq!(user_info_from_page(html).unwrap_err(), SyncError::Decode);
}
