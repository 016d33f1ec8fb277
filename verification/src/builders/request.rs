//! Builders for the request payload of every protocol operation. Each
//! returns the command name exactly as the dispatch table spells it, and
//! carries the required arguments through unmodified.

use std::collections::HashMap;

use vstd::prelude::*;

use crate::templates::{Checkport, FindHashIds, GetFile, GetHashfield, GetPieceFields,
    ListModified, Pex, SetHashfield, SetPieceFields, StreamFile, Update};
use crate::value::Value;

verus! {

/// Fetch one file at an offset; `read_bytes` is omitted from the wire when
/// absent.
pub fn get_file(
    site: &str,
    inner_path: &str,
    file_size: usize,
    location: usize,
    read_bytes: Option<usize>,
) -> (r: (&'static str, GetFile))
    ensures
        r.0@ == "getFile"@,
        r.1.site@ == site@,
        r.1.inner_path@ == inner_path@,
        r.1.file_size == file_size,
        r.1.location == location,
        r.1.read_bytes == read_bytes,
{
    (
        "getFile",
        GetFile {
            site: site.to_owned(),
            inner_path: inner_path.to_owned(),
            file_size,
            location,
            read_bytes,
        },
    )
}

/// Fetch one file as a stream of `read_bytes` bytes from an offset.
pub fn stream_file(
    site: &str,
    inner_path: &str,
    file_size: usize,
    location: usize,
    read_bytes: usize,
) -> (r: (&'static str, StreamFile))
    ensures
        r.0@ == "streamFile"@,
        r.1.site@ == site@,
        r.1.inner_path@ == inner_path@,
        r.1.file_size == file_size,
        r.1.location == location,
        r.1.read_bytes == read_bytes,
{
    (
        "streamFile",
        StreamFile {
            site: site.to_owned(),
            inner_path: inner_path.to_owned(),
            location,
            file_size,
            read_bytes,
        },
    )
}

/// Ask for `need` more peers of a site. The exchange offers no peers of its
/// own: all three peer lists start empty, the optional ones present.
pub fn pex(site: &str, need: usize) -> (r: (&'static str, Pex))
    ensures
        r.0@ == "pex"@,
        r.1.site@ == site@,
        r.1.peers@ == Seq::<Vec<u8>>::empty(),
        r.1.peers_onion matches Some(v) && v@ == Seq::<Vec<u8>>::empty(),
        r.1.peers_ipv6 matches Some(v) && v@ == Seq::<Vec<u8>>::empty(),
        r.1.need == need,
{
    (
        "pex",
        Pex {
            site: site.to_owned(),
            peers: Vec::new(),
            peers_onion: Some(Vec::new()),
            peers_ipv6: Some(Vec::new()),
            need,
        },
    )
}

/// Announce an updated file body together with its per-path diff records.
pub fn update_site(
    site: &str,
    inner_path: &str,
    body: Vec<u8>,
    diffs: HashMap<String, Vec<Value>>,
    modified: usize,
) -> (r: (&'static str, Update))
    ensures
        r.0@ == "update"@,
        r.1.site@ == site@,
        r.1.inner_path@ == inner_path@,
        r.1.body == body,
        r.1.diffs == diffs,
        r.1.modified == modified,
{
    (
        "update",
        Update { site: site.to_owned(), inner_path: inner_path.to_owned(), body, diffs, modified },
    )
}

/// List the files of a site modified since a timestamp.
pub fn list_modified(site: &str, since: usize) -> (r: (&'static str, ListModified))
    ensures
        r.0@ == "listModified"@,
        r.1.site@ == site@,
        r.1.since == since,
{
    ("listModified", ListModified { site: site.to_owned(), since })
}

/// Ask for the peer's hashfield of a site.
pub fn get_hashfield(site: &str) -> (r: (&'static str, GetHashfield))
    ensures
        r.0@ == "getHashfield"@,
        r.1.site@ == site@,
{
    ("getHashfield", GetHashfield { site: site.to_owned() })
}

/// Send this peer's packed hashfield for a site.
pub fn set_hashfield(site: &str, hashfield_raw: Vec<u8>) -> (r: (&'static str, SetHashfield))
    ensures
        r.0@ == "setHashfield"@,
        r.1.site@ == site@,
        r.1.hashfield_raw == hashfield_raw,
{
    ("setHashfield", SetHashfield { site: site.to_owned(), hashfield_raw })
}

/// Ask which peers hold content with the given numeric hash ids.
pub fn find_hash_ids(site: &str, hash_ids: Vec<usize>) -> (r: (&'static str, FindHashIds))
    ensures
        r.0@ == "findHashIds"@,
        r.1.site@ == site@,
        r.1.hash_ids == hash_ids,
{
    ("findHashIds", FindHashIds { site: site.to_owned(), hash_ids })
}

/// Ask the peer to probe whether a port of ours is externally reachable.
pub fn checkport(port: u16) -> (r: (&'static str, Checkport))
    ensures
        r.0@ == "checkport"@,
        r.1.port == port,
{
    ("checkport", Checkport { port })
}

/// Ask for the packed piece fields of a site's large files.
pub fn get_piece_fields(site: &str) -> (r: (&'static str, GetPieceFields))
    ensures
        r.0@ == "getPieceFields"@,
        r.1.site@ == site@,
{
    ("getPieceFields", GetPieceFields { site: site.to_owned() })
}

/// Send this peer's packed piece fields for a site.
pub fn set_piece_fields(site: &str, piecefields_packed: Vec<u8>) -> (r: (
    &'static str,
    SetPieceFields,
))
    ensures
        r.0@ == "setPieceFields"@,
        r.1.site@ == site@,
        r.1.piecefields_packed == piecefields_packed,
{
    ("setPieceFields", SetPieceFields { site: site.to_owned(), piecefields_packed })
}

} // verus!
