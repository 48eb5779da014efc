//! The data model: catalog items, catalog pages, archive members, and the
//! error taxonomy.

use vstd::prelude::*;

verus! {

/// The authenticated user, as reported by the site.
#[derive(Clone, Debug)]
pub struct UserInfo {
    pub uid: u32,
    pub allcount: u32,
}

/// One catalog item (an album). Partially populated after catalog listing;
/// enriched in place by metadata resolution. `id` is the stable external key.
#[derive(Clone, Debug)]
pub struct Album {
    pub id: String,
    pub title: String,
    pub label: String,
    pub cover: String,
    pub only_have_gift: bool,
    pub release_date: Option<String>,
    pub description: Option<String>,
    pub tags: Vec<String>,
    pub year: Option<String>,
    pub authors: Option<String>,
}

/// One page of the paginated catalog listing. `can_show_more` drives
/// pagination termination.
#[derive(Clone, Debug)]
pub struct AlbumListResponse {
    pub user: UserInfo,
    pub discs: Vec<Album>,
    pub can_show_more: bool,
}

/// A file taken out of an archive, after its stored name was decoded.
#[derive(Clone, Debug)]
pub struct ArchiveMember {
    pub name: String,
    pub bytes: Vec<u8>,
}

/// The error taxonomy: transport failures carry the numeric status code;
/// decode failures mean a required field could not be found; extraction
/// failures abort a single format.
#[derive(Clone, Copy, Debug, PartialEq, Eq, Structural)]
pub enum SyncError {
    Transport { status: u16 },
    Decode,
    Extraction,
}

/// The placeholder title used before metadata resolution.
pub fn unknown_title() -> (r: String)
    ensures
        r@ == "未知专辑"@,
{
    let r: String = String::from_str("未知专辑");
    r
}

/// The placeholder label used before metadata resolution.
pub fn unknown_label() -> (r: String)
    ensures
        r@ == "未知厂牌"@,
{
    let r: String = String::from_str("未知厂牌");
    r
}

impl Album {
    /// A skeleton item known only by its id, with placeholder title and
    /// label; every optional field absent.
    pub fn placeholder(id: String) -> (a: Album)
        ensures
            a.id == id,
            a.title@ == "未知专辑"@,
            a.label@ == "未知厂牌"@,
            a.cover@ == Seq::<char>::empty(),
            !a.only_have_gift,
            a.release_date is None,
            a.description is None,
            a.tags@ == Seq::<String>::empty(),
            a.year is None,
            a.authors is None,
    {
        Album {
            id,
            title: unknown_title(),
            label: unknown_label(),
            cover: String::new(),
            only_have_gift: false,
            release_date: None,
            description: None,
            tags: Vec::new(),
            year: None,
            authors: None,
        }
    }
}

} // verus!
