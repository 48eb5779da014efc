use dizzysync::archive::{
    decode_member_name, detect_archive_format, extract_zip, get_file_extension, place_members,
    unknown_payload_filename, ArchiveKind,
};
use dizzysync::model::ArchiveMember;
use std::io::Write;

#[test]
fn classify_zip_prefix() {
    assert_eq!(detect_archive_format(&b"PK\x03\x04rest".to_vec()), ArchiveKind::Zip);
    assert_eq!(detect_archive_format(&b"PKXY".to_vec()), ArchiveKind::Zip);
}

#[test]
fn classify_rar_magics() {
    assert_eq!(
        detect_archive_format(&b"Rar!\x1a\x07\x01\x00data".to_vec()),
        ArchiveKind::Rar
    );
    assert_eq!(detect_archive_format(&b"Rar!\x1a\x07\x00data".to_vec()), ArchiveKind::Rar);
}

#[test]
fn classify_short_and_other_buffers_unknown() {
    assert_eq!(detect_archive_format(&b"PK".to_vec()), ArchiveKind::Unknown);
    assert_eq!(detect_archive_format(&b"Rar".to_vec()), ArchiveKind::Unknown);
    assert_eq!(detect_archive_format(&Vec::new()), ArchiveKind::Unknown);
    assert_eq!(detect_archive_format(&b"ID3\x04tagged audio".to_vec()), ArchiveKind::Unknown);
    // the older magic cut short is not a rar
    assert_eq!(detect_archive_format(&b"Rar!\x1a\x07".to_vec()), ArchiveKind::Unknown);
}

#[test]
fn extension_table() {
    assert_eq!(get_file_extension("128"), "mp3");
    assert_eq!(get_file_extension("MP3"), "mp3");
    assert_eq!(get_file_extension("FLAC"), "flac");
    assert_eq!(get_file_extension("gift"), "unknown");
    assert_eq!(get_file_extension("OGG"), "bin");
}

#[test]
fn unknown_payload_filename_joins_title_and_extension() {
    assert_eq!(unknown_payload_filename("Album X", "FLAC"), "Album X.flac");
    assert_eq!(unknown_payload_filename("Album X", "other"), "Album X.bin");
}

fn member(name: &str, bytes: &[u8]) -> ArchiveMember {
    ArchiveMember { name: name.to_string(), bytes: bytes.to_vec() }
}

#[test]
fn placement_by_format_subfolder() {
    let members = vec![member("m1.flac", b"a"), member("m2.flac", b"b")];
    let planned = place_members(&members, "FLAC", false);
    assert_eq!(planned.len(), 2);
    assert_eq!(planned[0].path, "FLAC/m1.flac");
    assert_eq!(planned[0].bytes, b"a".to_vec());
    assert_eq!(planned[1].path, "FLAC/m2.flac");
    assert_eq!(planned[1].bytes, b"b".to_vec());
}

#[test]
fn placement_flatten_puts_members_directly_under_item_dir() {
    let members = vec![member("m1.flac", b"a"), member("m2.flac", b"b")];
    let planned = place_members(&members, "FLAC", true);
    assert_eq!(planned.len(), 2);
    assert_eq!(planned[0].path, "m1.flac");
    assert_eq!(planned[1].path, "m2.flac");
}

#[test]
fn placement_flatten_discards_sub_path() {
    let members = vec![member("disc1/track01.flac", b"a")];
    let planned = place_members(&members, "FLAC", true);
    assert_eq!(planned[0].path, "track01.flac");
    let planned_sub = place_members(&members, "FLAC", false);
    assert_eq!(planned_sub[0].path, "FLAC/disc1/track01.flac");
}

#[test]
fn placement_skips_directory_entries() {
    let members = vec![member("disc1/", b""), member("disc1/t.flac", b"x")];
    let planned = place_members(&members, "FLAC", false);
    assert_eq!(planned.len(), 1);
    assert_eq!(planned[0].path, "FLAC/disc1/t.flac");
}

#[test]
fn member_name_decodes_strict_text_first() {
    let raw = "中文 track.flac".as_bytes().to_vec();
    assert_eq!(decode_member_name(&raw), "中文 track.flac");
}

#[test]
fn member_name_falls_back_to_legacy_encoding() {
    // "中文" in the legacy regional encoding; not valid strict text
    let raw = vec![0xd6, 0xd0, 0xce, 0xc4];
    assert_eq!(decode_member_name(&raw), "中文");
}

fn build_zip(entries: &[(&str, &[u8])]) -> Vec<u8> {
    let cursor = std::io::Cursor::new(Vec::new());
    let mut writer = zip::ZipWriter::new(cursor);
    let options: zip::write::SimpleFileOptions = Default::default();
    for (name, data) in entries {
        writer.start_file(*name, options).unwrap();
        writer.write_all(data).unwrap();
    }
    writer.finish().unwrap().into_inner()
}

#[test]
fn extract_zip_plans_two_members() {
    let data = build_zip(&[("m1.flac", b"alpha"), ("m2.flac", b"beta")]);
    assert_eq!(detect_archive_format(&data), ArchiveKind::Zip);
    let planned = extract_zip(data, "FLAC", false).unwrap();
    assert_eq!(planned.len(), 2);
    assert_eq!(planned[0].path, "FLAC/m1.flac");
    assert_eq!(planned[0].bytes, b"alpha".to_vec());
    assert_eq!(planned[1].path, "FLAC/m2.flac");
    assert_eq!(planned[1].bytes, b"beta".to_vec());
}

#[test]
fn extract_zip_flatten_and_subdirs() {
    let data = build_zip(&[("cd1/a.mp3", b"x"), ("cd1/b.mp3", b"y")]);
    let flat = extract_zip(data.clone(), "MP3", true).unwrap();
    assert_eq!(flat[0].path, "a.mp3");
    assert_eq!(flat[1].path, "b.mp3");
    let nested = extract_zip(data, "MP3", false).unwrap();
    assert_eq!(nested[0].path, "MP3/cd1/a.mp3");
    assert_eq!(nested[1].path, "MP3/cd1/b.mp3");
}

#[test]
fn extract_zip_rejects_garbage() {
    let r = extract_zip(b"this is not an archive at all".to_vec(), "FLAC", false);
    assert!(r.is_err());
}

#[test]
fn extract_zip_skips_directory_entries() {
    let cursor = std::io::Cursor::new(Vec::new());
    let mut writer = zip::ZipWriter::new(cursor);
    let options: zip::write::SimpleFileOptions = Default::default();
    writer.add_directory("cd1", options).unwrap();
    writer.start_file("cd1/a.mp3", options).unwrap();
    writer.write_all(b"x").unwrap();
    let data = writer.finish().unwrap().into_inner();
    let planned = extract_zip(data, "MP3", false).unwrap();
    assert_eq!(planned.len(), 1);
    assert_eq!(planned[0].path, "MP3/cd1/a.mp3");
}
