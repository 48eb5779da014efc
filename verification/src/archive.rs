//! Archive handling: container classification from leading bytes, member-name
//! decoding with a legacy-encoding fallback, placement of extracted members,
//! and zip extraction planning through the `zip` crate.

use vstd::prelude::*;
use vstd::utf8::{decode_utf8, valid_utf8};
use crate::model::{ArchiveMember, SyncError};
use crate::text::str_eq;

verus! {

/// Container format detected from an archive's leading bytes.
#[derive(Clone, Copy, Debug, PartialEq, Eq, Structural)]
pub enum ArchiveKind {
    Zip,
    Rar,
    Unknown,
}

/// The magic sequence of the newer rar container sub-version.
pub open spec fn rar5_magic() -> Seq<u8> {
    seq![0x52u8, 0x61u8, 0x72u8, 0x21u8, 0x1au8, 0x07u8, 0x01u8, 0x00u8]
}

/// The magic sequence of the older rar container sub-version.
pub open spec fn rar4_magic() -> Seq<u8> {
    seq![0x52u8, 0x61u8, 0x72u8, 0x21u8, 0x1au8, 0x07u8, 0x00u8]
}

/// Classification of a payload from its leading bytes: a `PK` prefix is zip,
/// either rar magic is rar, and anything else — including buffers under four
/// bytes — is unknown.
pub open spec fn classify_spec(d: Seq<u8>) -> ArchiveKind {
    if d.len() < 4 {
        ArchiveKind::Unknown
    } else if d[0] == 0x50u8 && d[1] == 0x4bu8 {
        ArchiveKind::Zip
    } else if d.len() >= 8 && d.subrange(0, 8) == rar5_magic() {
        ArchiveKind::Rar
    } else if d.len() >= 7 && d.subrange(0, 7) == rar4_magic() {
        ArchiveKind::Rar
    } else {
        ArchiveKind::Unknown
    }
}

/// Stateless classifier over an archive's leading bytes.
pub fn detect_archive_format(data: &Vec<u8>) -> (r: ArchiveKind)
    ensures
        r == classify_spec(data@),
{
    if data.len() < 4 {
        return ArchiveKind::Unknown;
    }
    if data[0] == 0x50 && data[1] == 0x4b {
        return ArchiveKind::Zip;
    }
    if data.len() >= 8 && data[0] == 0x52 && data[1] == 0x61 && data[2] == 0x72 && data[3] == 0x21
        && data[4] == 0x1a && data[5] == 0x07 && data[6] == 0x01 && data[7] == 0x00 {
        assert(data@.subrange(0, 8) =~= rar5_magic());
        return ArchiveKind::Rar;
    }
    if data.len() >= 7 && data[0] == 0x52 && data[1] == 0x61 && data[2] == 0x72 && data[3] == 0x21
        && data[4] == 0x1a && data[5] == 0x07 && data[6] == 0x00 {
        assert(data@.subrange(0, 7) =~= rar4_magic());
        return ArchiveKind::Rar;
    }
    proof {
        if data@.len() >= 8 && data@.subrange(0, 8) == rar5_magic() {
            assert(data@[0] == rar5_magic()[0] && data@[1] == rar5_magic()[1] && data@[2]
                == rar5_magic()[2] && data@[3] == rar5_magic()[3] && data@[4] == rar5_magic()[4]
                && data@[5] == rar5_magic()[5] && data@[6] == rar5_magic()[6] && data@[7]
                == rar5_magic()[7]) by {
                assert forall|j: int| 0 <= j < 8 implies data@[j] == rar5_magic()[j] by {
                    assert(data@.subrange(0, 8)[j] == data@[j]);
                }
            }
        }
        if data@.len() >= 7 && data@.subrange(0, 7) == rar4_magic() {
            assert forall|j: int| 0 <= j < 7 implies data@[j] == rar4_magic()[j] by {
                assert(data@.subrange(0, 7)[j] == data@[j]);
            }
        }
    }
    ArchiveKind::Unknown
}

/// Law: classification is pure over the first eight bytes — two payloads that
/// agree on them classify alike.
pub proof fn lemma_classify_first_eight(d1: Seq<u8>, d2: Seq<u8>)
    requires
        d1.len() >= 8,
        d2.len() >= 8,
        d1.subrange(0, 8) == d2.subrange(0, 8),
    ensures
        classify_spec(d1) == classify_spec(d2),
{
    assert forall|j: int| 0 <= j < 8 implies d1[j] == d2[j] by {
        assert(d1.subrange(0, 8)[j] == d1[j]);
        assert(d2.subrange(0, 8)[j] == d2[j]);
    }
    assert(d1.subrange(0, 8) =~= d2.subrange(0, 8));
    assert(d1.subrange(0, 7) =~= d2.subrange(0, 7));
}

/// Extension given to a payload that is not a recognized archive: a fixed
/// format-to-extension table, with a generic binary fallback.
pub open spec fn extension_spec(format: Seq<char>) -> Seq<char> {
    if format == "128"@ || format == "MP3"@ {
        "mp3"@
    } else if format == "FLAC"@ {
        "flac"@
    } else if format == "gift"@ {
        "unknown"@
    } else {
        "bin"@
    }
}

/// The file extension used when a downloaded payload is saved verbatim.
pub fn get_file_extension(format: &str) -> (r: String)
    ensures
        r@ == extension_spec(format@),
{
    if str_eq(format, "128") || str_eq(format, "MP3") {
        let r: String = String::from_str("mp3");
        r
    } else if str_eq(format, "FLAC") {
        let r: String = String::from_str("flac");
        r
    } else if str_eq(format, "gift") {
        let r: String = String::from_str("unknown");
        r
    } else {
        let r: String = String::from_str("bin");
        r
    }
}

/// The file name under which an unrecognized payload is written verbatim:
/// the item's title, a dot, and the format's table extension.
pub fn unknown_payload_filename(title: &str, format: &str) -> (r: String)
    ensures
        r@ == title@ + "."@ + extension_spec(format@),
{
    let mut r: String = String::from_str(title);
    r.append(".");
    let ext = get_file_extension(format);
    r.append(ext.as_str());
    r
}

/// What the GBK decoder of encoding_rs yields on the given bytes; the result
/// depends on the bytes alone.
pub uninterp spec fn gbk_of(raw: Seq<u8>) -> Seq<char>;

/// Relies on `str::from_utf8`: it succeeds exactly on valid UTF-8 and yields
/// the string those bytes encode.
#[verifier::external_body]
fn utf8_decode(raw: &Vec<u8>) -> (r: Option<String>)
    ensures
        r is Some <==> valid_utf8(raw@),
        match r {
            Some(s) => s@ == decode_utf8(raw@),
            None => true,
        },
{
    match std::str::from_utf8(raw.as_slice()) {
        Ok(s) => Some(s.to_owned()),
        Err(_) => None,
    }
}

/// Relies on encoding_rs's `GBK.decode`: a pure function of the bytes.
#[verifier::external_body]
fn gbk_decode(raw: &Vec<u8>) -> (r: String)
    ensures
        r@ == gbk_of(raw@),
{
    encoding_rs::GBK.decode(raw.as_slice()).0.into_owned()
}

/// A stored member name decoded: strict text decoding first, with the fixed
/// legacy regional encoding as the fallback.
pub open spec fn decoded_name_spec(raw: Seq<u8>) -> Seq<char> {
    if valid_utf8(raw) {
        decode_utf8(raw)
    } else {
        gbk_of(raw)
    }
}

/// Decode a member's stored name: strict UTF-8 first, GBK on failure.
pub fn decode_member_name(raw: &Vec<u8>) -> (r: String)
    ensures
        r@ == decoded_name_spec(raw@),
{
    match utf8_decode(raw) {
        Some(s) => s,
        None => gbk_decode(raw),
    }
}

/// Index of the last `'/'` in `name`, or -1.
pub open spec fn last_slash(name: Seq<char>) -> int
    decreases name.len(),
{
    if name.len() == 0 {
        -1
    } else if name.last() == '/' {
        name.len() - 1
    } else {
        last_slash(name.drop_last())
    }
}

/// The part of `name` after its last `'/'` (the whole name if none).
pub open spec fn basename_spec(name: Seq<char>) -> Seq<char> {
    name.skip(last_slash(name) + 1)
}

proof fn lemma_last_slash_is(name: Seq<char>, j0: int)
    requires
        0 <= j0 < name.len(),
        name[j0] == '/',
        forall|k: int| j0 < k < name.len() ==> name[k] != '/',
    ensures
        last_slash(name) == j0,
    decreases name.len(),
{
    if j0 == name.len() - 1 {
    } else {
        assert(name.drop_last()[j0] == name[j0]);
        lemma_last_slash_is(name.drop_last(), j0);
    }
}

proof fn lemma_last_slash_none(name: Seq<char>)
    requires
        forall|k: int| 0 <= k < name.len() ==> name[k] != '/',
    ensures
        last_slash(name) == -1,
    decreases name.len(),
{
    if name.len() > 0 {
        lemma_last_slash_none(name.drop_last());
    }
}

/// The part of `name` after the last `'/'`.
pub fn basename(name: &Vec<char>) -> (r: Vec<char>)
    ensures
        r@ == basename_spec(name@),
{
    let n = name.len();
    let mut cut: usize = 0;
    for i in 0..n
        invariant
            cut <= i <= n,
            n == name@.len(),
            cut == 0 ==> forall|k: int| 0 <= k < i ==> name@[k] != '/',
            cut > 0 ==> cut - 1 < i && name@[cut - 1] == '/' && forall|k: int|
                cut <= k < i ==> name@[k] != '/',
    {
        if name[i] == '/' {
            cut = i + 1;
        }
    }
    proof {
        if cut == 0 {
            lemma_last_slash_none(name@);
        } else {
            lemma_last_slash_is(name@, cut - 1);
        }
    }
    let mut r: Vec<char> = Vec::new();
    let mut i: usize = cut;
    while i < n
        invariant
            cut <= i <= n,
            n == name@.len(),
            r@ == name@.subrange(cut as int, i as int),
        decreases n - i,
    {
        r.push(name[i]);
        assert(r@ =~= name@.subrange(cut as int, i + 1));
        i = i + 1;
    }
    assert(r@ =~= name@.skip(cut as int));
    r
}

/// A member whose decoded name ends in `'/'` is a directory entry.
pub open spec fn is_dir_name(name: Seq<char>) -> bool {
    name.len() > 0 && name.last() == '/'
}

/// Output path of one member, relative to the item directory: under the
/// flatten policy the member's sub-path is discarded and its base name lands
/// directly in the item directory; otherwise the full member path goes under
/// a subdirectory named for the requested format.
pub open spec fn member_rel_path_spec(name: Seq<char>, format: Seq<char>, flatten: bool) -> Seq<
    char,
> {
    if flatten {
        basename_spec(name)
    } else {
        format + seq!['/'] + name
    }
}

/// The placement plan for a member list: directory entries are skipped, every
/// other member is paired with its relative output path, order preserved.
pub open spec fn place_spec(
    members: Seq<(Seq<char>, Seq<u8>)>,
    format: Seq<char>,
    flatten: bool,
) -> Seq<(Seq<char>, Seq<u8>)>
    decreases members.len(),
{
    if members.len() == 0 {
        Seq::empty()
    } else {
        let rest = place_spec(members.drop_first(), format, flatten);
        if is_dir_name(members[0].0) {
            rest
        } else {
            seq![(member_rel_path_spec(members[0].0, format, flatten), members[0].1)] + rest
        }
    }
}

/// The mathematical view of a member list.
pub open spec fn members_view(ms: Seq<ArchiveMember>) -> Seq<(Seq<char>, Seq<u8>)> {
    ms.map_values(|m: ArchiveMember| (m.name@, m.bytes@))
}

/// A file the extractor plans to write, relative to the item directory.
#[derive(Clone, Debug)]
pub struct PlannedFile {
    pub path: String,
    pub bytes: Vec<u8>,
}

/// The mathematical view of a placement plan.
pub open spec fn planned_view(ps: Seq<PlannedFile>) -> Seq<(Seq<char>, Seq<u8>)> {
    ps.map_values(|p: PlannedFile| (p.path@, p.bytes@))
}

proof fn lemma_place_push(
    ms: Seq<(Seq<char>, Seq<u8>)>,
    m: (Seq<char>, Seq<u8>),
    format: Seq<char>,
    flatten: bool,
)
    ensures
        place_spec(ms.push(m), format, flatten) == if is_dir_name(m.0) {
            place_spec(ms, format, flatten)
        } else {
            place_spec(ms, format, flatten) + seq![
                (member_rel_path_spec(m.0, format, flatten), m.1),
            ]
        },
    decreases ms.len(),
{
    assert(place_spec(Seq::<(Seq<char>, Seq<u8>)>::empty(), format, flatten) == Seq::<(
        Seq<char>,
        Seq<u8>,
    )>::empty());
    if ms.len() == 0 {
        assert(ms.push(m)[0] == m);
        assert(ms.push(m).drop_first() =~= Seq::<(Seq<char>, Seq<u8>)>::empty());
        assert(ms =~= Seq::<(Seq<char>, Seq<u8>)>::empty());
        if is_dir_name(m.0) {
        } else {
            assert(place_spec(ms.push(m), format, flatten) =~= place_spec(ms, format, flatten)
                + seq![(member_rel_path_spec(m.0, format, flatten), m.1)]);
        }
    } else {
        assert(ms.push(m).drop_first() =~= ms.drop_first().push(m));
        assert(ms.push(m)[0] == ms[0]);
        lemma_place_push(ms.drop_first(), m, format, flatten);
        if is_dir_name(m.0) {
        } else {
            if is_dir_name(ms[0].0) {
            } else {
                assert(seq![(member_rel_path_spec(ms[0].0, format, flatten), ms[0].1)]
                    + (place_spec(ms.drop_first(), format, flatten) + seq![
                    (member_rel_path_spec(m.0, format, flatten), m.1),
                ]) =~= (seq![(member_rel_path_spec(ms[0].0, format, flatten), ms[0].1)]
                    + place_spec(ms.drop_first(), format, flatten)) + seq![
                    (member_rel_path_spec(m.0, format, flatten), m.1),
                ]);
            }
        }
    }
}

fn copy_bytes(v: &Vec<u8>) -> (r: Vec<u8>)
    ensures
        r@ == v@,
{
    let n = v.len();
    let mut r: Vec<u8> = Vec::new();
    for i in 0..n
        invariant
            n == v@.len(),
            r@ == v@.take(i as int),
    {
        r.push(v[i]);
        assert(r@ =~= v@.take(i + 1));
    }
    assert(v@.take(n as int) =~= v@);
    r
}

/// Compute output paths for extracted members under one of the two placement
/// policies: flatten (base names directly under the item directory) or
/// by-format-subfolder. Directory entries are skipped.
pub fn place_members(members: &Vec<ArchiveMember>, format: &str, flatten: bool) -> (r: Vec<
    PlannedFile,
>)
    ensures
        planned_view(r@) == place_spec(members_view(members@), format@, flatten),
{
    let n = members.len();
    let mut r: Vec<PlannedFile> = Vec::new();
    for i in 0..n
        invariant
            n == members@.len(),
            planned_view(r@) == place_spec(members_view(members@).take(i as int), format@, flatten),
    {
        let name_chars = crate::text::chars_of(members[i].name.as_str());
        let is_dir = name_chars.len() > 0 && name_chars[name_chars.len() - 1] == '/';
        assert(is_dir == is_dir_name(members@[i as int].name@));
        if !is_dir {
            let path: String = if flatten {
                let base = basename(&name_chars);
                crate::text::string_of(&base)
            } else {
                proof {
                    reveal_strlit("/");
                    assert("/"@ =~= seq!['/']);
                }
                let mut p: String = String::from_str(format);
                p.append("/");
                p.append(members[i].name.as_str());
                p
            };
            assert(path@ == member_rel_path_spec(members@[i as int].name@, format@, flatten));
            let bytes = copy_bytes(&members[i].bytes);
            r.push(PlannedFile { path, bytes });
        }
        proof {
            let ghost mv = members_view(members@);
            assert(mv.take(i + 1) =~= mv.take(i as int).push(mv[i as int]));
            lemma_place_push(mv.take(i as int), mv[i as int], format@, flatten);
            assert(mv[i as int] == (members@[i as int].name@, members@[i as int].bytes@));
            if !is_dir_name(mv[i as int].0) {
                assert(planned_view(r@) =~= place_spec(mv.take(i as int), format@, flatten) + seq![
                    (member_rel_path_spec(mv[i as int].0, format@, flatten), mv[i as int].1),
                ]);
            }
        }
    }
    assert(members_view(members@).take(n as int) =~= members_view(members@));
    r
}

#[verifier::external_type_specification]
#[verifier::external_body]
#[verifier::reject_recursive_types(T)]
pub struct ExCursor<T>(std::io::Cursor<T>);

#[verifier::external_type_specification]
#[verifier::external_body]
#[verifier::reject_recursive_types(R)]
pub struct ExZipArchive<R>(zip::read::ZipArchive<R>);

#[verifier::external_type_specification]
#[verifier::external_body]
pub struct ExZipError(zip::result::ZipError);

/// What the zip central directory of `data` lists: for each member, in
/// order, its raw stored name and its uncompressed bytes. The directory is a
/// pure function of the payload bytes.
pub uninterp spec fn zip_entries_of(data: Seq<u8>) -> Seq<(Seq<u8>, Seq<u8>)>;

/// The member list (raw stored name, uncompressed bytes) an opened zip
/// archive holds.
pub uninterp spec fn zip_entries(a: zip::read::ZipArchive<std::io::Cursor<Vec<u8>>>) -> Seq<
    (Seq<u8>, Seq<u8>),
>;

/// The zip reader accepts `data`: its central directory parses. A pure
/// function of the payload bytes.
pub uninterp spec fn zip_open_ok(data: Seq<u8>) -> bool;

/// Member `i` of the payload `data` can be read back in full (the entry is
/// supported and its stream decompresses). A pure function of the bytes.
pub uninterp spec fn zip_member_ok(data: Seq<u8>, i: int) -> bool;

/// Member `i` of an opened archive can be read back in full.
pub uninterp spec fn zip_member_readable(
    a: zip::read::ZipArchive<std::io::Cursor<Vec<u8>>>,
    i: int,
) -> bool;

/// Every member the payload's directory lists can be read back.
pub open spec fn zip_all_members_ok(data: Seq<u8>) -> bool {
    forall|i: int| 0 <= i < zip_entries_of(data).len() ==> zip_member_ok(data, i)
}

/// Relies on zip's `ZipArchive::new`: it reads the central directory of
/// `data` deterministically, succeeding exactly when that directory parses.
/// The opened archive holds exactly the members the directory lists, and
/// which of them can be read back is fixed by the payload bytes alone (the
/// reader works on nothing else).
#[verifier::external_body]
fn zip_open(data: Vec<u8>) -> (r: Result<
    zip::read::ZipArchive<std::io::Cursor<Vec<u8>>>,
    zip::result::ZipError,
>)
    ensures
        r is Ok <==> zip_open_ok(data@),
        match r {
            Ok(a) => zip_entries(a) == zip_entries_of(data@) && forall|i: int|
                zip_member_readable(a, i) == zip_member_ok(data@, i),
            Err(_) => true,
        },
{
    zip::read::ZipArchive::new(std::io::Cursor::new(data))
}

/// Relies on zip's `ZipArchive::len`: the number of members in the archive's
/// central directory.
#[verifier::external_body]
fn zip_member_count(a: &zip::read::ZipArchive<std::io::Cursor<Vec<u8>>>) -> (r: usize)
    ensures
        r == zip_entries(*a).len(),
{
    a.len()
}

/// Relies on zip's `ZipArchive::by_index` (an out-of-range index is refused
/// with `FileNotFound`), `ZipFile::name_raw`, and `Read::read_to_end`: the
/// read succeeds exactly on an in-range member whose stream reads back, and
/// yields that member's raw stored name and uncompressed bytes. Reading
/// moves only the cursor: the central directory and every member's
/// readability are left as they were.
#[verifier::external_body]
fn zip_read_member(a: &mut zip::read::ZipArchive<std::io::Cursor<Vec<u8>>>, i: usize) -> (r: Result<
    (Vec<u8>, Vec<u8>),
    zip::result::ZipError,
>)
    ensures
        zip_entries(*final(a)) == zip_entries(*old(a)),
        forall|j: int| zip_member_readable(*final(a), j) == zip_member_readable(*old(a), j),
        r is Ok <==> i < zip_entries(*old(a)).len() && zip_member_readable(*old(a), i as int),
        match r {
            Ok(p) => p.0@ == zip_entries(*old(a))[i as int].0 && p.1@ == zip_entries(*old(a))[
                i as int
            ].1,
            Err(_) => true,
        },
{
    let mut f = a.by_index(i)?;
    let name = f.name_raw().to_vec();
    let mut buf: Vec<u8> = Vec::new();
    std::io::Read::read_to_end(&mut f, &mut buf)?;
    Ok((name, buf))
}

/// Read every member of a zip payload: raw stored name and uncompressed
/// bytes, in directory order. The read succeeds exactly on the payloads the
/// zip reader accepts in full; any payload it rejects aborts the format with
/// an extraction error.
fn read_zip_members(data: Vec<u8>) -> (r: Result<Vec<(Vec<u8>, Vec<u8>)>, SyncError>)
    ensures
        r is Ok <==> zip_open_ok(data@) && zip_all_members_ok(data@),
        match r {
            Ok(v) => {
                let entries = zip_entries_of(data@);
                v@.len() == entries.len() && forall|j: int|
                    0 <= j < v@.len() ==> v@[j].0@ == entries[j].0 && v@[j].1@ == entries[j].1
            },
            Err(e) => e == SyncError::Extraction,
        },
{
    let ghost d = data@;
    let mut a = match zip_open(data) {
        Ok(a) => a,
        Err(_) => {
            return Err(SyncError::Extraction);
        },
    };
    let n = zip_member_count(&a);
    let mut out: Vec<(Vec<u8>, Vec<u8>)> = Vec::new();
    for i in 0..n
        invariant
            d == data@,
            zip_open_ok(d),
            zip_entries(a) == zip_entries_of(d),
            forall|j: int| zip_member_readable(a, j) == zip_member_ok(d, j),
            n == zip_entries_of(d).len(),
            out@.len() == i,
            forall|j: int| 0 <= j < i ==> zip_member_ok(d, j),
            forall|j: int|
                0 <= j < i ==> out@[j].0@ == zip_entries_of(d)[j].0 && out@[j].1@ == zip_entries_of(
                    d,
                )[j].1,
    {
        match zip_read_member(&mut a, i) {
            Ok(p) => {
                out.push(p);
            },
            Err(_) => {
                assert(!zip_member_ok(d, i as int));
                assert(!zip_all_members_ok(d));
                return Err(SyncError::Extraction);
            },
        }
    }
    assert(zip_all_members_ok(d));
    Ok(out)
}

/// The extraction plan a zip payload yields: every member name decoded, then
/// the non-directory members placed under the configured policy.
pub open spec fn zip_plan_spec(data: Seq<u8>, format: Seq<char>, flatten: bool) -> Seq<
    (Seq<char>, Seq<u8>),
> {
    place_spec(
        zip_entries_of(data).map_values(|e: (Seq<u8>, Seq<u8>)| (decoded_name_spec(e.0), e.1)),
        format,
        flatten,
    )
}

/// Plan the extraction of a zip payload: read every member, decode its stored
/// name (strict text decoding, then the legacy fallback), skip directories,
/// and pair each file with its output path under the placement policy. The
/// plan succeeds exactly on the payloads the zip reader accepts in full; the
/// extraction error comes exactly on those it rejects.
pub fn extract_zip(data: Vec<u8>, format: &str, flatten: bool) -> (r: Result<
    Vec<PlannedFile>,
    SyncError,
>)
    ensures
        r is Ok <==> zip_open_ok(data@) && zip_all_members_ok(data@),
        match r {
            Ok(v) => planned_view(v@) == zip_plan_spec(data@, format@, flatten),
            Err(e) => e == SyncError::Extraction,
        },
{
    let ghost d = data@;
    let raw = match read_zip_members(data) {
        Ok(v) => v,
        Err(e) => {
            return Err(e);
        },
    };
    let ghost decoded = zip_entries_of(d).map_values(
        |e: (Seq<u8>, Seq<u8>)| (decoded_name_spec(e.0), e.1),
    );
    let n = raw.len();
    let mut members: Vec<ArchiveMember> = Vec::new();
    for i in 0..n
        invariant
            n == raw@.len(),
            n == zip_entries_of(d).len(),
            decoded == zip_entries_of(d).map_values(
                |e: (Seq<u8>, Seq<u8>)| (decoded_name_spec(e.0), e.1),
            ),
            forall|j: int|
                0 <= j < n ==> raw@[j].0@ == zip_entries_of(d)[j].0 && raw@[j].1@ == zip_entries_of(
                    d,
                )[j].1,
            members@.len() == i,
            members_view(members@) =~= decoded.take(i as int),
    {
        let name = decode_member_name(&raw[i].0);
        let bytes = copy_bytes(&raw[i].1);
        members.push(ArchiveMember { name, bytes });
        proof {
            assert(decoded[i as int] == (
                decoded_name_spec(zip_entries_of(d)[i as int].0),
                zip_entries_of(d)[i as int].1,
            ));
            assert(members_view(members@)[i as int] == (
                members@[i as int].name@,
                members@[i as int].bytes@,
            ));
            assert(members_view(members@) =~= decoded.take(i + 1));
        }
    }
    assert(members_view(members@) =~= decoded);
    Ok(place_members(&members, format, flatten))
}

} // verus!
