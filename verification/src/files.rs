//! The file list: git status and frecency of a file, the names of a project's
//! databases, and what a file search is asked and hands back.

use crate::text;
use crate::types::{Badge, FileMatch, FileSearchView, GitKind};
use sha1::Digest;
use std::path::PathBuf;
use vstd::prelude::*;
use vstd::utf8::*;

verus! {

/// What git says of a file, as a set of flags.
#[derive(Debug, Clone, Copy, PartialEq, Eq)]
pub struct GitStatus {
    pub bits: u32,
}

pub const INDEX_NEW: u32 = 1;

pub const INDEX_MODIFIED: u32 = 2;

pub const INDEX_DELETED: u32 = 4;

pub const INDEX_RENAMED: u32 = 8;

pub const WT_NEW: u32 = 128;

pub const WT_MODIFIED: u32 = 256;

pub const WT_DELETED: u32 = 512;

pub const WT_RENAMED: u32 = 2048;

/// `git2::Status::contains` tells whether every flag of the second set is in
/// the first. Any 32 bits make a `git2::Status`.
#[verifier::external_body]
pub(crate) fn status_contains(status: u32, flags: u32) -> (r: bool)
    ensures
        r == (status & flags == flags),
{
    git2::Status::from_bits_retain(status).contains(git2::Status::from_bits_retain(flags))
}

/// Whether a status has a flag of the working tree or the same one of the
/// index.
pub open spec fn has_either(status: GitStatus, in_tree: u32, in_index: u32) -> bool {
    status.bits & in_tree == in_tree || status.bits & in_index == in_index
}

/// What the list shows of a git status. Of several flags the first of these
/// counts: deleted, renamed, new, modified.
pub open spec fn kind_of(status: Option<GitStatus>) -> GitKind {
    match status {
        Some(s) => if has_either(s, WT_DELETED, INDEX_DELETED) {
            GitKind::Deleted
        } else if has_either(s, WT_RENAMED, INDEX_RENAMED) {
            GitKind::Renamed
        } else if has_either(s, WT_NEW, INDEX_NEW) {
            GitKind::Added
        } else if has_either(s, WT_MODIFIED, INDEX_MODIFIED) {
            GitKind::Modified
        } else {
            GitKind::Clean
        },
        None => GitKind::Clean,
    }
}

/// What the list shows of a git status.
pub fn git_kind(status: Option<GitStatus>) -> (r: GitKind)
    ensures
        r == kind_of(status),
{
    match status {
        Some(s) => {
            if status_contains(s.bits, WT_DELETED) || status_contains(s.bits, INDEX_DELETED) {
                GitKind::Deleted
            } else if status_contains(s.bits, WT_RENAMED) || status_contains(
                s.bits,
                INDEX_RENAMED,
            ) {
                GitKind::Renamed
            } else if status_contains(s.bits, WT_NEW) || status_contains(s.bits, INDEX_NEW) {
                GitKind::Added
            } else if status_contains(s.bits, WT_MODIFIED) || status_contains(
                s.bits,
                INDEX_MODIFIED,
            ) {
                GitKind::Modified
            } else {
                GitKind::Clean
            }
        },
        None => GitKind::Clean,
    }
}

/// A deleted file is shown as deleted, whatever else git says of it.
pub proof fn law_deleted_comes_first(bits: u32)
    ensures
        kind_of(Some(GitStatus { bits: bits | WT_DELETED })) == GitKind::Deleted,
        kind_of(Some(GitStatus { bits: bits | INDEX_DELETED })) == GitKind::Deleted,
{
    assert((bits | 512) & 512 == 512) by (bit_vector);
    assert((bits | 4) & 4 == 4) by (bit_vector);
}

/// The icon of a file's frecency: flame for much edited, star for much opened,
/// sparkles and a dot for some use, none for no use.
pub open spec fn frecency_icon(total: i32, access: i32, modified: i32) -> Option<Seq<char>> {
    if total <= 0 {
        None
    } else if modified >= 6 {
        Some("🔥"@)
    } else if access >= 4 {
        Some("⭐"@)
    } else if total >= 3 {
        Some("✨"@)
    } else {
        Some("•"@)
    }
}

/// The badge of a file, from its frecency scores.
pub fn frecency_badge(total: i32, access: i32, modified: i32) -> (r: Option<Badge>)
    ensures
        match frecency_icon(total, access, modified) {
            Some(icon) => r is Some && r->Some_0.icon@ == icon && r->Some_0.score == total,
            None => r is None,
        },
{
    if total <= 0 {
        return None;
    }
    let icon: &'static str = if modified >= 6 {
        "🔥"
    } else if access >= 4 {
        "⭐"
    } else if total >= 3 {
        "✨"
    } else {
        "•"
    };
    Some(Badge { icon, score: total })
}

/// A file has a badge exactly where its total score is positive, and then the
/// badge shows that score.
pub proof fn law_badge_iff_used(total: i32, access: i32, modified: i32)
    ensures
        frecency_icon(total, access, modified) is Some <==> total > 0,
{
}

/// The SHA-1 digest of bytes: a function of the bytes alone.
pub uninterp spec fn sha1_digest(bytes: Seq<u8>) -> Seq<u8>;

/// `sha1::Sha1::digest` hashes bytes. A digest has 20 bytes; which ones is
/// named and left unsaid.
#[verifier::external_body]
pub(crate) fn sha1_of(bytes: &[u8]) -> (r: Vec<u8>)
    ensures
        r@ == sha1_digest(bytes@),
        r@.len() == 20,
{
    sha1::Sha1::digest(bytes).to_vec()
}

/// The first twelve hexadecimal digits of a digest.
pub open spec fn key_of(digest: Seq<u8>) -> Seq<char> {
    text::hex(digest).take(12)
}

/// Two digits for each byte.
pub proof fn lemma_hex_len(bytes: Seq<u8>)
    ensures
        text::hex(bytes).len() == 2 * bytes.len(),
    decreases bytes.len(),
{
    if bytes.len() > 0 {
        lemma_hex_len(bytes.drop_last());
    }
}

/// The first twelve hexadecimal digits of a digest.
pub fn digest_key(digest: &Vec<u8>) -> (r: String)
    requires
        digest@.len() >= 6,
    ensures
        r@ == key_of(digest@),
        r@.len() == 12,
{
    let all = text::chars_of(text::hex_string(digest).as_str());
    proof {
        lemma_hex_len(digest@);
    }
    assert(all@.subrange(0, 12) =~= key_of(digest@));
    text::string_of(&all, 0, 12)
}

/// The key of a project, from the path of its root.
pub fn project_key(base_path: &str) -> (r: String)
    ensures
        r@ == key_of(sha1_digest(encode_utf8(base_path@))),
        r@.len() == 12,
{
    digest_key(&sha1_of(base_path.as_bytes()))
}

/// The name of the database of a project's file accesses.
pub fn frecency_db_name(key: &str) -> (r: String)
    ensures
        r@ == key@ + "-frecency.mdb"@,
{
    let mut r = key.to_owned();
    r.append("-frecency.mdb");
    r
}

/// The name of the database of a project's queries.
pub fn history_db_name(key: &str) -> (r: String)
    ensures
        r@ == key@ + "-history.mdb"@,
{
    let mut r = key.to_owned();
    r.append("-history.mdb");
    r
}

/// How a file search is run.
#[derive(Debug, Clone, Copy, PartialEq, Eq)]
pub struct FileSearchOptions {
    pub max_threads: usize,
    pub combo_boost_score_multiplier: i32,
    pub min_combo_count: u32,
    pub offset: usize,
    pub limit: usize,
}

/// How a search for a query is run: one page of 200 files, and for an empty
/// query past choices weighed only where there is at least one.
pub fn file_search_options(query: &str) -> (r: FileSearchOptions)
    ensures
        r.max_threads == 0,
        r.combo_boost_score_multiplier == 100,
        r.min_combo_count == if query@.len() == 0 {
            1u32
        } else {
            0u32
        },
        r.offset == 0,
        r.limit == 200,
{
    FileSearchOptions {
        max_threads: 0,
        combo_boost_score_multiplier: 100,
        min_combo_count: if query.is_empty() {
            1
        } else {
            0
        },
        offset: 0,
        limit: 200,
    }
}

/// A file that a search found.
#[derive(Debug, Clone)]
pub struct FileHit {
    pub path: PathBuf,
    pub relative_path: String,
    pub file_name: String,
    pub git_status: Option<GitStatus>,
    pub total_score: i32,
    pub access_score: i32,
    pub modification_score: i32,
}

/// Whether an entry of the list shows a file that a search found.
pub open spec fn shows(entry: FileMatch, hit: FileHit) -> bool {
    &&& entry.path == hit.path
    &&& entry.relative_path@ == hit.relative_path@
    &&& entry.file_name@ == hit.file_name@
    &&& entry.git == kind_of(hit.git_status)
    &&& match frecency_icon(hit.total_score, hit.access_score, hit.modification_score) {
        Some(icon) => entry.badge matches Some(badge) && badge.icon@ == icon && badge.score
            == hit.total_score,
        None => entry.badge is None,
    }
}

/// A found file as the list shows it.
pub fn file_match(hit: FileHit) -> (r: FileMatch)
    ensures
        shows(r, hit),
{
    FileMatch {
        path: hit.path,
        relative_path: hit.relative_path,
        file_name: hit.file_name,
        git: git_kind(hit.git_status),
        badge: frecency_badge(hit.total_score, hit.access_score, hit.modification_score),
    }
}

/// The list that found files make, in the order in which they were found.
pub fn file_search_view(
    hits: Vec<FileHit>,
    total_matched: usize,
    root_display: &str,
) -> (r: FileSearchView)
    ensures
        r.matches@.len() == hits@.len(),
        forall|i: int| 0 <= i < hits@.len() ==> shows(#[trigger] r.matches@[i], hits@[i]),
        r.loaded == hits@.len(),
        r.total_matched == total_matched,
        r.root_display@ == root_display@,
{
    let mut matches: Vec<FileMatch> = Vec::new();
    for hit in it: hits
        invariant
            it.seq() == hits@,
            matches@.len() == it.index(),
            forall|i: int| 0 <= i < it.index() ==> shows(#[trigger] matches@[i], hits@[i]),
    {
        matches.push(file_match(hit));
    }
    FileSearchView {
        loaded: matches.len(),
        matches,
        total_matched,
        root_display: root_display.to_owned(),
    }
}

/// A file is shown as deleted where git has it so in the tree or in the index;
/// else as renamed, else as added, else as modified; and as clean where none of
/// these is said of it. Each of these is one bit.
pub proof fn law_git_kind_by_first_flag(status: Option<GitStatus>, r: GitKind)
    requires
        call_ensures(git_kind, (status,), r),
    ensures
        status is None ==> r is Clean,
        status matches Some(s) ==> {
            let deleted = s.bits & 512 != 0 || s.bits & 4 != 0;
            let renamed = s.bits & 2048 != 0 || s.bits & 8 != 0;
            let added = s.bits & 128 != 0 || s.bits & 1 != 0;
            let modified = s.bits & 256 != 0 || s.bits & 2 != 0;
            &&& r is Deleted <==> deleted
            &&& r is Renamed <==> renamed && !deleted
            &&& r is Added <==> added && !renamed && !deleted
            &&& r is Modified <==> modified && !added && !renamed && !deleted
        },
{
    if let Some(s) = status {
        let bits = s.bits;
        assert(bits & 512 != 0 <==> bits & 512 == 512) by (bit_vector);
        assert(bits & 4 != 0 <==> bits & 4 == 4) by (bit_vector);
        assert(bits & 2048 != 0 <==> bits & 2048 == 2048) by (bit_vector);
        assert(bits & 8 != 0 <==> bits & 8 == 8) by (bit_vector);
        assert(bits & 128 != 0 <==> bits & 128 == 128) by (bit_vector);
        assert(bits & 1 != 0 <==> bits & 1 == 1) by (bit_vector);
        assert(bits & 256 != 0 <==> bits & 256 == 256) by (bit_vector);
        assert(bits & 2 != 0 <==> bits & 2 == 2) by (bit_vector);
    }
}

/// A file with a positive score has a badge with that score, and no other has
/// one. The icon is a flame from six edits on, else a star from four accesses on,
/// else sparkles from a score of three on, and else a dot.
pub proof fn law_badge_by_use(total: i32, access: i32, modified: i32, r: Option<Badge>)
    requires
        call_ensures(frecency_badge, (total, access, modified), r),
    ensures
        r is Some <==> total >= 1,
        r matches Some(badge) ==> {
            &&& badge.score == total
            &&& modified >= 6 ==> badge.icon@ == seq!['🔥']
            &&& modified < 6 && access >= 4 ==> badge.icon@ == seq!['⭐']
            &&& modified < 6 && access < 4 && total >= 3 ==> badge.icon@ == seq!['✨']
            &&& modified < 6 && access < 4 && total < 3 ==> badge.icon@ == seq!['•']
        },
{
    reveal_strlit("🔥");
    reveal_strlit("⭐");
    reveal_strlit("✨");
    reveal_strlit("•");
    assert("🔥"@ =~= seq!['🔥']);
    assert("⭐"@ =~= seq!['⭐']);
    assert("✨"@ =~= seq!['✨']);
    assert("•"@ =~= seq!['•']);
}

/// The list shows the files that were found, all of them and in the same order,
/// each with its own paths, git mark and badge.
pub proof fn law_list_shows_the_found_files(
    hits: Vec<FileHit>,
    total_matched: usize,
    root_display: &str,
    r: FileSearchView,
    i: int,
    kind: GitKind,
    badge: Option<Badge>,
)
    requires
        call_ensures(file_search_view, (hits, total_matched, root_display), r),
        0 <= i < hits@.len(),
        call_ensures(git_kind, (hits@[i].git_status,), kind),
        call_ensures(
            frecency_badge,
            (hits@[i].total_score, hits@[i].access_score, hits@[i].modification_score),
            badge,
        ),
    ensures
        r.matches@.len() == hits@.len(),
        r.loaded == hits@.len(),
        r.total_matched == total_matched,
        r.root_display@ == root_display@,
        r.matches@[i].path == hits@[i].path,
        r.matches@[i].relative_path@ == hits@[i].relative_path@,
        r.matches@[i].file_name@ == hits@[i].file_name@,
        r.matches@[i].git == kind,
        r.matches@[i].badge is Some <==> badge is Some,
        badge matches Some(b) ==> r.matches@[i].badge->Some_0.icon@ == b.icon@
            && r.matches@[i].badge->Some_0.score == b.score,
{
    assert(shows(r.matches@[i], hits@[i]));
}

/// A list of no files is empty.
pub proof fn law_list_of_nothing_is_empty(
    hits: Vec<FileHit>,
    total_matched: usize,
    root_display: &str,
    r: FileSearchView,
)
    requires
        call_ensures(file_search_view, (hits, total_matched, root_display), r),
        hits@.len() == 0,
    ensures
        r.matches@.len() == 0,
        r.loaded == 0,
        r.total_matched == total_matched,
{
}

proof fn lemma_hex_digits(bytes: Seq<u8>, i: int)
    requires
        0 <= i < bytes.len(),
    ensures
        text::hex(bytes).len() == 2 * bytes.len(),
        text::hex(bytes)[2 * i] == text::hex_char(bytes[i] as int / 16),
        text::hex(bytes)[2 * i + 1] == text::hex_char(bytes[i] as int % 16),
    decreases bytes.len(),
{
    lemma_hex_len(bytes);
    lemma_hex_len(bytes.drop_last());
    if i < bytes.len() - 1 {
        lemma_hex_digits(bytes.drop_last(), i);
    }
}

/// The key of a project is twelve digits: the first six bytes of the digest of its
/// path, each as two hexadecimal digits in lower case, the higher one first.
pub proof fn law_project_key_is_in_hexadecimal(base_path: &str, r: String, i: int)
    requires
        call_ensures(project_key, (base_path,), r),
        0 <= i < 6,
        sha1_digest(encode_utf8(base_path@)).len() == 20,
    ensures
        r@.len() == 12,
        ({
            let byte = sha1_digest(encode_utf8(base_path@))[i] as int;
            let high = byte / 16;
            let low = byte % 16;
            &&& high < 10 ==> r@[2 * i] as u32 == 48 + high
            &&& high >= 10 ==> r@[2 * i] as u32 == 87 + high
            &&& low < 10 ==> r@[2 * i + 1] as u32 == 48 + low
            &&& low >= 10 ==> r@[2 * i + 1] as u32 == 87 + low
        }),
{
    lemma_hex_digits(sha1_digest(encode_utf8(base_path@)), i);
}

/// The two databases of a project are named by its key and by what they hold.
pub proof fn law_databases_are_named_by_key(key: &str, frecency: String, history: String)
    requires
        call_ensures(frecency_db_name, (key,), frecency),
        call_ensures(history_db_name, (key,), history),
    ensures
        frecency@ == key@ + "-frecency.mdb"@,
        history@ == key@ + "-history.mdb"@,
{
}

/// A search asks for the first two hundred files; past choices count from the
/// first one on where the query is empty, and always where it is not.
pub proof fn law_search_asks_for_one_page(query: &str, r: FileSearchOptions)
    requires
        call_ensures(file_search_options, (query,), r),
    ensures
        r.offset == 0 && r.limit == 200,
        query@.len() == 0 ==> r.min_combo_count == 1,
        query@.len() > 0 ==> r.min_combo_count == 0,
        r.combo_boost_score_multiplier == 100,
        r.max_threads == 0,
{
}

} // verus!
