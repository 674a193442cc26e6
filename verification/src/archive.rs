//! Resolving logical asset paths against two ordered backing stores: a
//! preloaded immutable zip archive first, the filesystem second; the first
//! store that contains the path wins and no contents are merged. The
//! archive lives in memory behind the `zip` crate, modelled as a map from
//! member name to decompressed bytes; the filesystem can only be probed by
//! the caller, which hands its answer in as a plain value.

use vstd::prelude::*;
use crate::media::{
    content_range_rep, content_type_for, content_type_rep, ext_of, parse_range, serve_bytes,
    InvalidRange, Served,
};
use vstd::string::StringExecFns;
use vstd::utf8::encode_utf8;

verus! {

#[verifier::external_type_specification]
#[verifier::external_body]
#[verifier::reject_recursive_types(T)]
pub struct ExCursor<T>(std::io::Cursor<T>);

#[verifier::external_type_specification]
#[verifier::external_body]
#[verifier::reject_recursive_types(R)]
pub struct ExZipArchive<R>(zip::read::ZipArchive<R>);

#[verifier::external_type_specification]
#[verifier::external_body]
pub struct ExZipError(zip::result::ZipError);

/// The archive as held in memory: a zip read out of its own bytes.
pub type Archive = zip::read::ZipArchive<std::io::Cursor<Vec<u8>>>;

/// The archive's readable members: each member name mapped to the bytes
/// it decompresses to.
pub uninterp spec fn archive_entries(z: Archive) -> Map<Seq<char>, Seq<u8>>;

/// The readable members a zip file's bytes hold — a function of the bytes
/// alone — or nothing when the bytes are not a readable zip file.
pub uninterp spec fn zip_entries_of(data: Seq<u8>) -> Option<Map<Seq<char>, Seq<u8>>>;

/// Relies on `zip::read::ZipArchive::new` over an in-memory cursor: reads
/// the archive's directory out of the bytes, deterministically.
#[verifier::external_body]
fn open_zip(data: Vec<u8>) -> (r: Result<Archive, zip::result::ZipError>)
    ensures
        r matches Ok(z) ==> zip_entries_of(data@) is Some && archive_entries(z) == zip_entries_of(
            data@,
        )->0,
        r is Err ==> zip_entries_of(data@) is None,
{
    zip::read::ZipArchive::new(std::io::Cursor::new(data))
}

/// Relies on `zip::read::ZipArchive::by_name` and `std::io::Read::read_to_end`
/// on the member it returns: the named member's decompressed bytes. The
/// members modelled are exactly those such a read yields; over an in-memory
/// archive the outcome is a function of the archive alone, and neither call
/// changes what the archive holds.
#[verifier::external_body]
fn archive_member(z: &mut Archive, name: &str) -> (r: Option<Vec<u8>>)
    ensures
        archive_entries(*final(z)) == archive_entries(*old(z)),
        r is Some <==> archive_entries(*old(z)).contains_key(name@),
        r matches Some(v) ==> v@ == archive_entries(*old(z))[name@],
{
    match z.by_name(name) {
        Ok(mut f) => {
            let mut v = Vec::new();
            match std::io::Read::read_to_end(&mut f, &mut v) {
                Ok(_) => Some(v),
                Err(_) => None,
            }
        },
        Err(_) => None,
    }
}

/// The archive store's bytes could not be read as a zip file.
#[derive(Debug, Clone, Copy, PartialEq, Eq, Structural)]
pub struct ArchiveError;

/// The archive member a logical asset path names.
pub open spec fn member_name(path: Seq<char>) -> Seq<char> {
    "static/"@ + path
}

/// Which store a resolved asset's bytes come from: the archive hands its
/// bytes over outright; a filesystem asset is read by the caller.
#[derive(Debug)]
pub enum AssetBytes {
    Archive(Vec<u8>),
    Filesystem,
}

/// A resolved asset: where its bytes live, its full length, and the
/// content type its path's extension names.
#[derive(Debug)]
pub struct ResolvedAsset {
    pub source: AssetBytes,
    pub total_len: u64,
    pub content_type: String,
}

/// The two ordered backing stores. Only the archive lives here; the
/// filesystem store is the caller's, probed outside and handed in as a
/// plain answer.
pub struct AssetStore {
    archive: Option<Archive>,
}

impl AssetStore {
    /// The archive's members; empty when no archive is configured.
    pub closed spec fn entries(self) -> Map<Seq<char>, Seq<u8>> {
        match self.archive {
            Some(z) => archive_entries(z),
            None => Map::empty(),
        }
    }

    /// A store backed by the given zip file's bytes, or by no archive at
    /// all; fails exactly when bytes were given that are not a readable
    /// zip file.
    pub fn new(zip_bytes: Option<Vec<u8>>) -> (r: Result<AssetStore, ArchiveError>)
        ensures
            zip_bytes is None ==> (r matches Ok(s) && s.entries() == Map::<
                Seq<char>,
                Seq<u8>,
            >::empty()),
            zip_bytes matches Some(b) ==> match zip_entries_of(b@) {
                Some(m) => r matches Ok(s) && s.entries() == m,
                None => r is Err,
            },
    {
        match zip_bytes {
            None => Ok(AssetStore { archive: None }),
            Some(b) => match open_zip(b) {
                Ok(z) => Ok(AssetStore { archive: Some(z) }),
                Err(_) => Err(ArchiveError),
            },
        }
    }

    /// Resolves a logical path against the stores in their fixed order:
    /// the archive first, then the filesystem (whose probe result the
    /// caller supplies as the length it found, if any). The first store
    /// that has the path wins; when neither has it, the asset is not
    /// found — an outcome distinct from both success and client error.
    pub fn resolve(&mut self, path: &str, fs_len: Option<u64>) -> (r: Option<ResolvedAsset>)
        ensures
            final(self).entries() == old(self).entries(),
            old(self).entries().contains_key(member_name(path@)) ==> (r matches Some(a)
                && (a.source matches AssetBytes::Archive(d) && d@ == old(self).entries()[
                member_name(path@)] && a.total_len == d@.len())
                && a.content_type@ == content_type_rep(ext_of(encode_utf8(path@)))),
            !old(self).entries().contains_key(member_name(path@)) ==> match fs_len {
                Some(n) => (r matches Some(a) && a.source is Filesystem && a.total_len == n
                    && a.content_type@ == content_type_rep(ext_of(encode_utf8(path@)))),
                None => r is None,
            },
    {
        let from_archive = match &mut self.archive {
            Some(z) => {
                let mut member = "static/".to_owned();
                member.append(path);
                assert(member@ == member_name(path@));
                archive_member(z, member.as_str())
            },
            None => None,
        };
        match from_archive {
            Some(d) => {
                let total_len: u64 = d.len() as u64;
                let content_type = content_type_for(path.as_bytes());
                Some(ResolvedAsset { source: AssetBytes::Archive(d), total_len, content_type })
            },
            None => match fs_len {
                Some(n) => {
                    let content_type = content_type_for(path.as_bytes());
                    Some(ResolvedAsset { source: AssetBytes::Filesystem, total_len: n, content_type })
                },
                None => None,
            },
        }
    }

    /// Serves an asset straight out of the archive store: the whole
    /// member, or the single requested sub-range of it. Paths the archive
    /// does not hold yield nothing — the caller may then try the
    /// filesystem itself and hand the bytes it reads to `serve_bytes`.
    pub fn serve_from_archive(&mut self, path: &str, range_header: Option<&[u8]>) -> (r: Option<
        Result<Served, InvalidRange>,
    >)
        ensures
            final(self).entries() == old(self).entries(),
            !old(self).entries().contains_key(member_name(path@)) ==> r is None,
            old(self).entries().contains_key(member_name(path@)) ==> (r matches Some(res) && {
                let data = old(self).entries()[member_name(path@)];
                let ct = content_type_rep(ext_of(encode_utf8(path@)));
                match range_header {
                    None => res matches Ok(s) && (s matches Served::Full {
                        data: d,
                        content_type: c,
                    } && d@ == data && c@ == ct),
                    Some(h) => match parse_range(h@, data.len() as u64) {
                        Some(br) => res matches Ok(s) && (s matches Served::Partial {
                            data: d,
                            content_type: c,
                            content_range: cr,
                        } && d@ == data.subrange(br.start as int, br.start + br.length) && c@ == ct
                            && cr@ == content_range_rep(br, data.len() as u64)),
                        None => res is Err,
                    },
                }
            }),
    {
        let from_archive = match &mut self.archive {
            Some(z) => {
                let mut member = "static/".to_owned();
                member.append(path);
                assert(member@ == member_name(path@));
                archive_member(z, member.as_str())
            },
            None => None,
        };
        match from_archive {
            Some(d) => {
                let content_type = content_type_for(path.as_bytes());
                Some(serve_bytes(d, content_type, range_header))
            },
            None => None,
        }
    }
}

/// Idempotence of reading: the store is immutable once loaded, so the
/// payload served for a member — determined by the member's bytes alone —
/// is byte-identical on every read of the same unchanged store.
pub proof fn lemma_read_idempotent(
    entries: Map<Seq<char>, Seq<u8>>,
    path: Seq<char>,
    d1: Seq<u8>,
    d2: Seq<u8>,
)
    requires
        entries.contains_key(member_name(path)),
        d1 == entries[member_name(path)],
        d2 == entries[member_name(path)],
    ensures
        d1 == d2,
{
}

} // verus!
