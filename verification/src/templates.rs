//! The message catalog: one request shape and one response shape for every
//! protocol operation. Fields not semantically required carry a documented
//! default and are omitted from the wire form when equal to it; decoders
//! treat absence as that default.

use std::collections::HashMap;

use vstd::prelude::*;

use crate::value::Value;

verus! {

/// Either of two structurally different but equally well-formed responses:
/// the file-fetch family may answer with a success payload or with an
/// error payload, and neither is a transport failure.
#[derive(Debug, PartialEq, Eq)]
pub enum Either<A, B> {
    Left(A),
    Right(B),
}

/// The error-variant response of the file-fetch family: `{error: reason}`.
#[derive(Debug, PartialEq, Eq)]
pub struct ErrorResponse {
    pub error: String,
}

/// A plain acknowledgement carrying a status string.
#[derive(Debug, PartialEq, Eq)]
pub struct OkResponse {
    pub ok: String,
}

/// The connection-level handshake record. Only the peer identifier, the
/// file-server port and the timestamp are always carried; every other field
/// is omitted from the wire when equal to its default. The observed external
/// address travels under the wire name `target_ip`.
#[derive(Debug, PartialEq, Eq)]
pub struct Handshake {
    pub peer_id: String,
    pub fileserver_port: usize,
    pub time: u64,
    pub crypt: Option<String>,
    pub crypt_supported: Vec<String>,
    pub use_bin_type: bool,
    pub onion: Option<String>,
    pub protocol: String,
    pub port_opened: Option<bool>,
    pub rev: usize,
    pub target_address: Option<String>,
    pub version: String,
}

impl Default for Handshake {
    /// All fields at their documented defaults.
    fn default() -> (r: Self)
        ensures
            r.peer_id@ == Seq::<char>::empty(),
            r.fileserver_port == 0,
            r.time == 0,
            r.crypt is None,
            r.crypt_supported@ == Seq::<String>::empty(),
            r.use_bin_type == false,
            r.onion is None,
            r.protocol@ == Seq::<char>::empty(),
            r.port_opened is None,
            r.rev == 0,
            r.target_address is None,
            r.version@ == Seq::<char>::empty(),
    {
        Handshake {
            peer_id: String::new(),
            fileserver_port: 0,
            time: 0,
            crypt: None,
            crypt_supported: Vec::new(),
            use_bin_type: false,
            onion: None,
            protocol: String::new(),
            port_opened: None,
            rev: 0,
            target_address: None,
            version: String::new(),
        }
    }
}

/// A ping request carries nothing.
#[derive(Debug, PartialEq, Eq)]
pub struct Ping();

#[derive(Debug, PartialEq, Eq)]
pub struct PingResponse {
    pub body: String,
}

#[derive(Debug, PartialEq, Eq)]
pub struct GetFile {
    pub site: String,
    pub inner_path: String,
    pub location: usize,
    pub read_bytes: Option<usize>,
    pub file_size: usize,
}

#[derive(Debug, PartialEq, Eq)]
pub struct GetFileResponse {
    pub body: Vec<u8>,
    pub location: usize,
    pub size: usize,
}

#[derive(Debug, PartialEq, Eq)]
pub struct StreamFile {
    pub site: String,
    pub inner_path: String,
    pub location: usize,
    pub read_bytes: usize,
    pub file_size: usize,
}

#[derive(Debug, PartialEq, Eq)]
pub struct StreamFileResponse {
    pub location: usize,
    pub size: usize,
    pub stream_bytes: usize,
}

#[derive(Debug, PartialEq, Eq)]
pub struct Pex {
    pub site: String,
    pub peers: Vec<Vec<u8>>,
    pub peers_onion: Option<Vec<Vec<u8>>>,
    pub peers_ipv6: Option<Vec<Vec<u8>>>,
    pub need: usize,
}

#[derive(Debug, PartialEq, Eq)]
pub struct PexResponse {
    pub peers: Vec<Vec<u8>>,
    pub peers_ipv6: Vec<Vec<u8>>,
    pub peers_onion: Vec<Vec<u8>>,
}

#[derive(Debug, PartialEq, Eq)]
pub struct Update {
    pub site: String,
    pub inner_path: String,
    pub body: Vec<u8>,
    pub modified: usize,
    pub diffs: HashMap<String, Vec<Value>>,
}

#[derive(Debug, PartialEq, Eq)]
pub struct UpdateSiteResponse {
    pub ok: String,
}

#[derive(Debug, PartialEq, Eq)]
pub struct ListModified {
    pub site: String,
    pub since: usize,
}

#[derive(Debug, PartialEq, Eq)]
pub struct ListModifiedResponse {
    pub modified_files: HashMap<String, usize>,
}

#[derive(Debug, PartialEq, Eq)]
pub struct GetHashfield {
    pub site: String,
}

#[derive(Debug, PartialEq, Eq)]
pub struct GetHashfieldResponse {
    pub hashfield_raw: Vec<u8>,
}

#[derive(Debug, PartialEq, Eq)]
pub struct SetHashfield {
    pub site: String,
    pub hashfield_raw: Vec<u8>,
}

#[derive(Debug, PartialEq, Eq)]
pub struct SetHashfieldResponse {
    pub ok: String,
}

#[derive(Debug, PartialEq, Eq)]
pub struct FindHashIds {
    pub site: String,
    pub hash_ids: Vec<usize>,
}

#[derive(Debug, PartialEq, Eq)]
pub struct FindHashIdsResponse {
    pub peers: HashMap<usize, Vec<Vec<u8>>>,
    pub peers_ipv6: HashMap<usize, Vec<Vec<u8>>>,
    pub peers_onion: HashMap<usize, Vec<Vec<u8>>>,
    pub my: Vec<usize>,
}

#[derive(Debug, PartialEq, Eq)]
pub struct Checkport {
    pub port: u16,
}

#[derive(Debug, PartialEq, Eq)]
pub struct CheckportResponse {
    pub status: String,
    pub ip_external: String,
}

#[derive(Debug, PartialEq, Eq)]
pub struct GetPieceFields {
    pub site: String,
}

#[derive(Debug, PartialEq, Eq)]
pub struct GetPieceFieldsResponse {
    pub piecefields_packed: Vec<u8>,
}

#[derive(Debug, PartialEq, Eq)]
pub struct SetPieceFields {
    pub site: String,
    pub piecefields_packed: Vec<u8>,
}

#[derive(Debug, PartialEq, Eq)]
pub struct SetPieceFieldsResponse {
    pub ok: bool,
}

} // verus!
