//! Builders for the response payload of every protocol operation, mirroring
//! the request builders: pure data assembly, arguments carried through
//! unmodified.

use std::collections::HashMap;

use vstd::prelude::*;

use crate::templates::{CheckportResponse, FindHashIdsResponse, GetFileResponse,
    GetHashfieldResponse, GetPieceFieldsResponse, ListModifiedResponse, PexResponse,
    SetHashfieldResponse, SetPieceFieldsResponse, StreamFileResponse, UpdateSiteResponse};

verus! {

/// A served file body with its size and offset.
pub fn get_file(body: Vec<u8>, size: usize, location: usize) -> (r: GetFileResponse)
    ensures
        r.body == body,
        r.size == size,
        r.location == location,
{
    GetFileResponse { body, size, location }
}

/// The byte count, offset and size of a streamed file.
pub fn stream_file(stream_bytes: usize, location: usize, size: usize) -> (r: StreamFileResponse)
    ensures
        r.stream_bytes == stream_bytes,
        r.location == location,
        r.size == size,
{
    StreamFileResponse { stream_bytes, location, size }
}

/// The three packed peer-address lists of a peer exchange.
pub fn pex(peers: Vec<Vec<u8>>, peers_ipv6: Vec<Vec<u8>>, peers_onion: Vec<Vec<u8>>) -> (r:
    PexResponse)
    ensures
        r.peers == peers,
        r.peers_ipv6 == peers_ipv6,
        r.peers_onion == peers_onion,
{
    PexResponse { peers, peers_ipv6, peers_onion }
}

/// Acknowledge a site update.
pub fn update_site(ok: &str) -> (r: UpdateSiteResponse)
    ensures
        r.ok@ == ok@,
{
    UpdateSiteResponse { ok: ok.to_owned() }
}

/// The modified-file listing of a site.
pub fn list_modified(modified_files: HashMap<String, usize>) -> (r: ListModifiedResponse)
    ensures
        r.modified_files == modified_files,
{
    ListModifiedResponse { modified_files }
}

/// The peer's packed hashfield.
pub fn get_hashfield(hashfield_raw: Vec<u8>) -> (r: GetHashfieldResponse)
    ensures
        r.hashfield_raw == hashfield_raw,
{
    GetHashfieldResponse { hashfield_raw }
}

/// Acknowledge a hashfield update.
pub fn set_hashfield(ok: &str) -> (r: SetHashfieldResponse)
    ensures
        r.ok@ == ok@,
{
    SetHashfieldResponse { ok: ok.to_owned() }
}

/// Per-id peer address lists, plus the ids held locally.
pub fn find_hash_ids(
    peers: HashMap<usize, Vec<Vec<u8>>>,
    peers_onion: HashMap<usize, Vec<Vec<u8>>>,
    peers_ipv6: HashMap<usize, Vec<Vec<u8>>>,
    my: Vec<usize>,
) -> (r: FindHashIdsResponse)
    ensures
        r.peers == peers,
        r.peers_onion == peers_onion,
        r.peers_ipv6 == peers_ipv6,
        r.my == my,
{
    FindHashIdsResponse { peers, peers_onion, peers_ipv6, my }
}

/// The probe's verdict and the address it observed.
pub fn checkport(status: &str, ip_external: &str) -> (r: CheckportResponse)
    ensures
        r.status@ == status@,
        r.ip_external@ == ip_external@,
{
    CheckportResponse { status: status.to_owned(), ip_external: ip_external.to_owned() }
}

/// The peer's packed piece fields.
pub fn get_piece_fields(piecefields_packed: Vec<u8>) -> (r: GetPieceFieldsResponse)
    ensures
        r.piecefields_packed == piecefields_packed,
{
    GetPieceFieldsResponse { piecefields_packed }
}

/// Acknowledge a piece-field update.
pub fn set_piece_fields(ok: bool) -> (r: SetPieceFieldsResponse)
    ensures
        r.ok == ok,
{
    SetPieceFieldsResponse { ok }
}

} // verus!
