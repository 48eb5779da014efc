use dizzysync::model::Album;
use dizzysync::sidecar::{
    apply_template_variables, default_readme_template, generate_directory_name,
    generate_nfo_content, get_album_directory,
};
use dizzysync::template::{convert_chinese_date_to_iso, sanitize_filename};

fn sample_album() -> Album {
    Album {
        id: "dts".to_string(),
        title: "Album X".to_string(),
        label: "Label Y".to_string(),
        cover: "https://example.net/cover.jpg".to_string(),
        only_have_gift: false,
        release_date: Some("2025年6月10日".to_string()),
        description: Some("a description that is long enough".to_string()),
        tags: vec!["rock".to_string(), "pop".to_string()],
        year: Some("2025".to_string()),
        authors: Some("Alice".to_string()),
    }
}

#[test]
fn chinese_date_converts_to_iso() {
    assert_eq!(convert_chinese_date_to_iso("2025年6月10日"), "2025-06-10");
}

#[test]
fn chinese_date_pads_month_and_day() {
    assert_eq!(convert_chinese_date_to_iso("2024年12月3日"), "2024-12-03");
    assert_eq!(convert_chinese_date_to_iso("2024年1月31日"), "2024-01-31");
}

#[test]
fn chinese_date_embedded_in_text() {
    assert_eq!(convert_chinese_date_to_iso("发布于2025年6月10日。"), "2025-06-10");
}

#[test]
fn non_matching_date_passes_through() {
    assert_eq!(convert_chinese_date_to_iso("hello"), "hello");
    assert_eq!(convert_chinese_date_to_iso(""), "");
    assert_eq!(convert_chinese_date_to_iso("2025-06-10"), "2025-06-10");
}

#[test]
fn sanitize_maps_reserved_to_underscore() {
    assert_eq!(sanitize_filename("a<b>c:d\"e/f\\g|h?i*j"), "a_b_c_d_e_f_g_h_i_j");
}

#[test]
fn sanitize_trims_whitespace() {
    assert_eq!(sanitize_filename("  spaced out  "), "spaced out");
    assert_eq!(sanitize_filename("\tx\n"), "x");
}

#[test]
fn directory_name_substitutes_once() {
    let album = sample_album();
    let name = generate_directory_name(&album, "{album}/@{label}", "1999", "1999-01-01");
    assert_eq!(name, "Album X/@Label Y");
}

#[test]
fn directory_name_uses_fallbacks() {
    let mut album = sample_album();
    album.year = None;
    album.release_date = None;
    album.authors = None;
    let name = generate_directory_name(
        &album,
        "{year} {date} {authors}",
        "1999",
        "1999-01-01",
    );
    assert_eq!(name, "1999 1999-01-01 Label Y");
}

#[test]
fn directory_name_converts_release_date() {
    let album = sample_album();
    let name = generate_directory_name(&album, "{date}", "1999", "1999-01-01");
    assert_eq!(name, "2025-06-10");
}

#[test]
fn directory_name_sanitizes_substituted_values() {
    let mut album = sample_album();
    album.title = "A/B:C".to_string();
    let name = generate_directory_name(&album, "{album}", "1999", "1999-01-01");
    assert_eq!(name, "A_B_C");
}

#[test]
fn unrecognized_placeholder_left_verbatim() {
    let album = sample_album();
    let name = generate_directory_name(&album, "{nope}-{album}", "1999", "1999-01-01");
    assert_eq!(name, "{nope}-Album X");
}

#[test]
fn substitution_is_idempotent_on_plain_values() {
    let album = sample_album();
    let template = "{album}/@{label}";
    let once = generate_directory_name(&album, template, "1999", "1999-01-01");
    let twice = generate_directory_name(&album, once.as_str(), "1999", "1999-01-01");
    assert_eq!(once, twice);
}

#[test]
fn album_directory_joins_output_root() {
    let album = sample_album();
    let dir = get_album_directory(&album, "./out", "{album}", "1999", "1999-01-01");
    assert_eq!(dir, "./out/Album X");
}

#[test]
fn readme_template_variables_fill_in() {
    let album = sample_album();
    let formats = vec!["MP3".to_string(), "FLAC".to_string()];
    let text = apply_template_variables(
        "{album}|{label}|{id}|{tags}|{formats}|{download_date}|{year}",
        &album,
        &formats,
        "2025-06-11 00:00:00 UTC",
    );
    assert_eq!(
        text,
        "Album X|Label Y|dts|rock, pop|MP3, FLAC|2025-06-11 00:00:00 UTC|2025"
    );
}

#[test]
fn readme_template_absent_fields_use_placeholders() {
    let mut album = sample_album();
    album.release_date = None;
    album.description = None;
    album.year = None;
    album.authors = None;
    let formats = vec!["MP3".to_string()];
    let text = apply_template_variables(
        "{release_date}|{description}|{year}|{authors}",
        &album,
        &formats,
        "now",
    );
    assert_eq!(text, "未知|暂无描述|未知|Label Y");
}

#[test]
fn default_template_has_placeholders() {
    let t = default_readme_template();
    assert!(t.starts_with("# {album}\n"));
    assert!(t.contains("{download_date}"));
    assert!(t.contains("{formats}"));
    assert!(t.ends_with("*由 DizzySync 自动生成*\n"));
}

#[test]
fn nfo_content_exact() {
    let mut album = sample_album();
    album.tags = vec!["rock".to_string()];
    let nfo = generate_nfo_content(&album);
    let expected = String::from("<?xml version=\"1.0\" encoding=\"UTF-8\" standalone=\"yes\"?>\n<album>\n    <title>Album X</title>\n    <artist>Alice</artist>\n    <genre>rock</genre>\n    <year>2025</year>\n    <releasedate>2025年6月10日</releasedate>\n    <label>Label Y</label>\n    <id>dts</id>\n    <plot>a description that is long enough</plot>\n    <tags>\n                <tag>rock</tag>\n    </tags>\n    <source>Dizzylab</source>\n    <url>https://www.dizzylab.net/d/dts/</url>\n</album>");
    assert_eq!(nfo, expected);
}

#[test]
fn nfo_content_fallbacks() {
    let mut album = sample_album();
    album.tags = Vec::new();
    album.year = None;
    album.release_date = None;
    album.description = None;
    album.authors = None;
    let nfo = generate_nfo_content(&album);
    assert!(nfo.contains("<artist>Label Y</artist>"));
    assert!(nfo.contains("<genre>Music</genre>"));
    assert!(nfo.contains("<year>Unknown</year>"));
    assert!(nfo.contains("<releasedate>Unknown</releasedate>"));
    assert!(nfo.contains("<plot></plot>"));
}

#[test]
fn chinese_date_leftmost_match_wins() {
    // the four year digits are taken from the leftmost full match
    assert_eq!(convert_chinese_date_to_iso("12345年6月1日"), "2345-06-01");
}
