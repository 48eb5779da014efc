//! Sidecar generation and directory naming: the item directory's templated
//! name, the human-readable summary, and the structured descriptor. Both
//! sidecars generate from the same fields whether or not audio is
//! downloaded.

use vstd::prelude::*;
use chrono::Datelike;
use crate::model::Album;
use crate::template::{
    bindings_view, convert_chinese_date_to_iso, convert_date_spec, sanitize_filename,
    sanitize_spec, subst, subst_spec, Binding,
};
use crate::text::{chars_of, join_spec, join_strings, string_of};

verus! {

/// Relies on chrono's `Utc::now` and `Datelike::year`: the current UTC year
/// in decimal notation. Nothing is promised of the clock's value.
#[verifier::external_body]
pub fn now_year_string() -> (r: String) {
    chrono::Utc::now().year().to_string()
}

/// Relies on chrono's `Utc::now` and `DateTime::format` with a fixed valid
/// format: the current UTC date as `YYYY-MM-DD`. Nothing is promised of the
/// clock's value.
#[verifier::external_body]
pub fn now_date_string() -> (r: String) {
    chrono::Utc::now().format("%Y-%m-%d").to_string()
}

/// Relies on chrono's `Utc::now` and `DateTime::format` with a fixed valid
/// format: the current UTC instant with time, for the summary sidecar.
/// Nothing is promised of the clock's value.
#[verifier::external_body]
pub fn now_datetime_string() -> (r: String) {
    chrono::Utc::now().format("%Y-%m-%d %H:%M:%S UTC").to_string()
}

fn push_binding(bs: &mut Vec<Binding>, key: &str, value: String)
    ensures
        bindings_view(final(bs)@) == bindings_view(old(bs)@).push((key@, value@)),
{
    let k = chars_of(key);
    let v = chars_of(value.as_str());
    bs.push(Binding { key: k, value: v });
    assert(bindings_view(bs@) =~= bindings_view(old(bs)@).push((key@, value@)));
}

/// The placeholder bindings of the directory-name template: title, label
/// and authors sanitized (authors falling back to the label), the year
/// falling back to the current year, and the release date converted to the
/// fixed numeric form, falling back to the current date.
pub open spec fn spec_dir_bindings(a: Album, cy: Seq<char>, cd: Seq<char>) -> Seq<
    (Seq<char>, Seq<char>),
> {
    seq![
        ("{album}"@, sanitize_spec(a.title@)),
        ("{label}"@, sanitize_spec(a.label@)),
        (
            "{authors}"@,
            sanitize_spec(
                match a.authors {
                    Some(s) => s@,
                    None => a.label@,
                },
            ),
        ),
        (
            "{year}"@,
            match a.year {
                Some(y) => y@,
                None => cy,
            },
        ),
        (
            "{date}"@,
            match a.release_date {
                Some(d) => convert_date_spec(d@),
                None => cd,
            },
        ),
    ]
}

/// The item directory's name: the template with its placeholders
/// substituted in a single pass.
pub fn generate_directory_name(
    album: &Album,
    template: &str,
    current_year: &str,
    current_date: &str,
) -> (r: String)
    ensures
        r@ == subst_spec(template@, spec_dir_bindings(*album, current_year@, current_date@)),
{
    let mut bs: Vec<Binding> = Vec::new();
    push_binding(&mut bs, "{album}", sanitize_filename(album.title.as_str()));
    push_binding(&mut bs, "{label}", sanitize_filename(album.label.as_str()));
    let authors_value = match &album.authors {
        Some(a) => sanitize_filename(a.as_str()),
        None => sanitize_filename(album.label.as_str()),
    };
    push_binding(&mut bs, "{authors}", authors_value);
    let year_value = match &album.year {
        Some(y) => y.clone(),
        None => {
            let s: String = String::from_str(current_year);
            s
        },
    };
    push_binding(&mut bs, "{year}", year_value);
    let date_value = match &album.release_date {
        Some(d) => convert_chinese_date_to_iso(d.as_str()),
        None => {
            let s: String = String::from_str(current_date);
            s
        },
    };
    push_binding(&mut bs, "{date}", date_value);
    assert(bindings_view(bs@) =~= spec_dir_bindings(*album, current_year@, current_date@));
    let t = chars_of(template);
    let out = subst(&t, &bs);
    string_of(&out)
}

/// The item's output directory: the configured output root, a path
/// separator, and the templated directory name.
pub fn get_album_directory(
    album: &Album,
    output_dir: &str,
    template: &str,
    current_year: &str,
    current_date: &str,
) -> (r: String)
    ensures
        r@ == output_dir@ + "/"@ + subst_spec(
            template@,
            spec_dir_bindings(*album, current_year@, current_date@),
        ),
{
    let name = generate_directory_name(album, template, current_year, current_date);
    let mut r: String = String::from_str(output_dir);
    r.append("/");
    r.append(name.as_str());
    r
}

/// The built-in summary-sidecar template, used when no template file is
/// supplied.
pub fn default_readme_template() -> (r: String)
    ensures
        r@ == "# {album}\n\n**厂牌:** {label}  \n**发布日期:** {release_date}  \n**专辑ID:** {id}  \n\n## 描述\n\n{description}\n\n## 标签\n\n{tags}\n\n## 下载信息\n\n- **下载时间:** {download_date}\n- **下载格式:** {formats}\n\n---\n\n*由 DizzySync 自动生成*\n"@,
{
    let r: String = String::from_str(
        "# {album}\n\n**厂牌:** {label}  \n**发布日期:** {release_date}  \n**专辑ID:** {id}  \n\n## 描述\n\n{description}\n\n## 标签\n\n{tags}\n\n## 下载信息\n\n- **下载时间:** {download_date}\n- **下载格式:** {formats}\n\n---\n\n*由 DizzySync 自动生成*\n",
    );
    r
}

/// The placeholder bindings of the summary sidecar: the item's fields, with
/// fixed fallbacks for absent ones, the tags and formats joined with
/// commas, and the supplied download timestamp.
pub open spec fn spec_readme_bindings(
    a: Album,
    formats: Seq<Seq<char>>,
    download_date: Seq<char>,
) -> Seq<(Seq<char>, Seq<char>)> {
    seq![
        ("{album}"@, a.title@),
        ("{label}"@, a.label@),
        ("{id}"@, a.id@),
        ("{cover}"@, a.cover@),
        (
            "{release_date}"@,
            match a.release_date {
                Some(d) => d@,
                None => "未知"@,
            },
        ),
        (
            "{description}"@,
            match a.description {
                Some(d) => d@,
                None => "暂无描述"@,
            },
        ),
        ("{tags}"@, join_spec(a.tags.deep_view(), ", "@)),
        (
            "{authors}"@,
            match a.authors {
                Some(s) => s@,
                None => a.label@,
            },
        ),
        (
            "{year}"@,
            match a.year {
                Some(y) => y@,
                None => "未知"@,
            },
        ),
        ("{download_date}"@, download_date),
        ("{formats}"@, join_spec(formats, ", "@)),
    ]
}

/// Fill the summary-sidecar template from the item's fields: every
/// recognized placeholder replaced in a single pass.
pub fn apply_template_variables(
    template: &str,
    album: &Album,
    formats: &Vec<String>,
    download_date: &str,
) -> (r: String)
    ensures
        r@ == subst_spec(
            template@,
            spec_readme_bindings(*album, formats.deep_view(), download_date@),
        ),
{
    let mut bs: Vec<Binding> = Vec::new();
    push_binding(&mut bs, "{album}", album.title.clone());
    push_binding(&mut bs, "{label}", album.label.clone());
    push_binding(&mut bs, "{id}", album.id.clone());
    push_binding(&mut bs, "{cover}", album.cover.clone());
    let release_value = match &album.release_date {
        Some(d) => d.clone(),
        None => {
            let s: String = String::from_str("未知");
            s
        },
    };
    push_binding(&mut bs, "{release_date}", release_value);
    let description_value = match &album.description {
        Some(d) => d.clone(),
        None => {
            let s: String = String::from_str("暂无描述");
            s
        },
    };
    push_binding(&mut bs, "{description}", description_value);
    push_binding(&mut bs, "{tags}", join_strings(&album.tags, ", "));
    let authors_value = match &album.authors {
        Some(a) => a.clone(),
        None => album.label.clone(),
    };
    push_binding(&mut bs, "{authors}", authors_value);
    let year_value = match &album.year {
        Some(y) => y.clone(),
        None => {
            let s: String = String::from_str("未知");
            s
        },
    };
    push_binding(&mut bs, "{year}", year_value);
    let dd: String = String::from_str(download_date);
    push_binding(&mut bs, "{download_date}", dd);
    push_binding(&mut bs, "{formats}", join_strings(formats, ", "));
    assert(bindings_view(bs@) =~= spec_readme_bindings(
        *album,
        formats.deep_view(),
        download_date@,
    ));
    let t = chars_of(template);
    let out = subst(&t, &bs);
    string_of(&out)
}

/// One tag's line in the structured descriptor.
pub open spec fn nfo_tag_line(t: Seq<char>) -> Seq<char> {
    "        <tag>"@ + t + "</tag>"@
}

/// The structured descriptor's text: the item's fields in a fixed XML-like
/// layout, the artist falling back to the label, the genre to the first tag
/// or a fixed default, and absent fields to fixed placeholders.
pub open spec fn spec_nfo_content(a: Album) -> Seq<char> {
    let artist = match a.authors {
        Some(s) => s@,
        None => a.label@,
    };
    let genre = if a.tags@.len() > 0 {
        a.tags@[0]@
    } else {
        "Music"@
    };
    let year = match a.year {
        Some(y) => y@,
        None => "Unknown"@,
    };
    let rel = match a.release_date {
        Some(d) => d@,
        None => "Unknown"@,
    };
    let plot = match a.description {
        Some(d) => d@,
        None => Seq::<char>::empty(),
    };
    let tags_joined = join_spec(a.tags.deep_view().map_values(|t: Seq<char>| nfo_tag_line(t)), "\n"@);
    "<?xml version=\"1.0\" encoding=\"UTF-8\" standalone=\"yes\"?>\n<album>\n    <title>"@
        + a.title@ + "</title>\n    <artist>"@ + artist + "</artist>\n    <genre>"@ + genre
        + "</genre>\n    <year>"@ + year + "</year>\n    <releasedate>"@ + rel
        + "</releasedate>\n    <label>"@ + a.label@ + "</label>\n    <id>"@ + a.id@
        + "</id>\n    <plot>"@ + plot + "</plot>\n    <tags>\n        "@ + tags_joined
        + "\n    </tags>\n    <source>Dizzylab</source>\n    <url>https://www.dizzylab.net/d/"@
        + a.id@ + "/</url>\n</album>"@
}

/// Generate the structured descriptor for an item.
pub fn generate_nfo_content(album: &Album) -> (r: String)
    ensures
        r@ == spec_nfo_content(*album),
{
    let mut r: String = String::from_str(
        "<?xml version=\"1.0\" encoding=\"UTF-8\" standalone=\"yes\"?>\n<album>\n    <title>",
    );
    r.append(album.title.as_str());
    r.append("</title>\n    <artist>");
    match &album.authors {
        Some(s) => r.append(s.as_str()),
        None => r.append(album.label.as_str()),
    }
    r.append("</artist>\n    <genre>");
    if album.tags.len() > 0 {
        r.append(album.tags[0].as_str());
    } else {
        r.append("Music");
    }
    r.append("</genre>\n    <year>");
    match &album.year {
        Some(y) => r.append(y.as_str()),
        None => r.append("Unknown"),
    }
    r.append("</year>\n    <releasedate>");
    match &album.release_date {
        Some(d) => r.append(d.as_str()),
        None => r.append("Unknown"),
    }
    r.append("</releasedate>\n    <label>");
    r.append(album.label.as_str());
    r.append("</label>\n    <id>");
    r.append(album.id.as_str());
    r.append("</id>\n    <plot>");
    match &album.description {
        Some(d) => r.append(d.as_str()),
        None => {},
    }
    r.append("</plot>\n    <tags>\n        ");
    let n = album.tags.len();
    let mut lines: Vec<String> = Vec::new();
    for i in 0..n
        invariant
            n == album.tags@.len(),
            lines.deep_view() == album.tags.deep_view().take(i as int).map_values(
                |t: Seq<char>| nfo_tag_line(t),
            ),
    {
        let mut line: String = String::from_str("        <tag>");
        line.append(album.tags[i].as_str());
        line.append("</tag>");
        proof {
            assert(album.tags.deep_view()[i as int] == album.tags@[i as int]@);
        }
        assert(line@ == nfo_tag_line(album.tags.deep_view()[i as int]));
        lines.push(line);
        proof {
            let dv = album.tags.deep_view();
            assert(dv.take(i + 1) =~= dv.take(i as int).push(dv[i as int]));
            assert(dv.take(i + 1).map_values(|t: Seq<char>| nfo_tag_line(t)) =~= dv.take(
                i as int,
            ).map_values(|t: Seq<char>| nfo_tag_line(t)).push(nfo_tag_line(dv[i as int])));
            assert(lines.deep_view() =~= dv.take(i + 1).map_values(|t: Seq<char>| nfo_tag_line(t)));
        }
    }
    assert(album.tags.deep_view().take(n as int) =~= album.tags.deep_view());
    let joined = join_strings(&lines, "\n");
    r.append(joined.as_str());
    r.append("\n    </tags>\n    <source>Dizzylab</source>\n    <url>https://www.dizzylab.net/d/");
    r.append(album.id.as_str());
    r.append("/</url>\n</album>");
    r
}

} // verus!
