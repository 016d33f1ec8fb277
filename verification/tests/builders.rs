use std::collections::HashMap;

use peermsg::builders::{request, response};
use peermsg::codec::{decode, encode};
use peermsg::templates::{Either, ErrorResponse, GetFile, Pex, PexResponse};
use peermsg::value::Value;
use peermsg::wire::file_result_from_value;

#[test]
fn command_names_match_dispatch_table() {
    assert_eq!(request::get_file("s", "p", 0, 0, None).0, "getFile");
    assert_eq!(request::stream_file("s", "p", 0, 0, 0).0, "streamFile");
    assert_eq!(request::pex("s", 0).0, "pex");
    assert_eq!(request::update_site("s", "p", vec![], HashMap::new(), 0).0, "update");
    assert_eq!(request::list_modified("s", 0).0, "listModified");
    assert_eq!(request::get_hashfield("s").0, "getHashfield");
    assert_eq!(request::set_hashfield("s", vec![]).0, "setHashfield");
    assert_eq!(request::find_hash_ids("s", vec![]).0, "findHashIds");
    assert_eq!(request::checkport(0).0, "checkport");
    assert_eq!(request::get_piece_fields("s").0, "getPieceFields");
    assert_eq!(request::set_piece_fields("s", vec![]).0, "setPieceFields");
}

#[test]
fn get_file_scenario() {
    let (cmd, req) = request::get_file("siteA", "index.html", 1024, 0, Some(512));
    assert_eq!(cmd, "getFile");
    assert_eq!(req.site, "siteA");
    assert_eq!(req.inner_path, "index.html");
    assert_eq!(req.file_size, 1024);
    assert_eq!(req.location, 0);
    assert_eq!(req.read_bytes, Some(512));
    // Through the codec and back: the request survives the wire.
    let bytes = encode(&req.to_value());
    let back = GetFile::from_value(&decode(&bytes).unwrap()).unwrap();
    assert_eq!(back, req);
    // A success response with a body of 512 bytes decodes to the success
    // branch, equal to the constructed value.
    let resp = response::get_file(vec![7u8; 512], 512, 0);
    let decoded = file_result_from_value(&decode(&encode(&resp.to_value())).unwrap()).unwrap();
    assert_eq!(decoded, Either::Left(response::get_file(vec![7u8; 512], 512, 0)));
    // An error-shaped payload decodes to the error branch, not a failure.
    let err = ErrorResponse { error: "file not found".to_string() };
    let decoded = file_result_from_value(&decode(&encode(&err.to_value())).unwrap()).unwrap();
    assert_eq!(decoded, Either::Right(ErrorResponse { error: "file not found".to_string() }));
}

#[test]
fn get_file_omits_absent_read_bytes() {
    let (_, with) = request::get_file("s", "p", 1, 0, Some(2));
    let (_, without) = request::get_file("s", "p", 1, 0, None);
    let with_value = with.to_value();
    let without_value = without.to_value();
    match (&with_value, &without_value) {
        (Value::Object(a), Value::Object(b)) => {
            assert!(a.iter().any(|(k, _)| k == "read_bytes"));
            assert!(!b.iter().any(|(k, _)| k == "read_bytes"));
        },
        _ => panic!("requests encode as objects"),
    }
    // Absence reads back as the default.
    let back = GetFile::from_value(&without_value).unwrap();
    assert_eq!(back.read_bytes, None);
}

#[test]
fn pex_scenario() {
    let (cmd, req) = request::pex("siteA", 5);
    assert_eq!(cmd, "pex");
    assert_eq!(req.site, "siteA");
    assert_eq!(req.peers, Vec::<Vec<u8>>::new());
    assert_eq!(req.peers_onion, Some(vec![]));
    assert_eq!(req.peers_ipv6, Some(vec![]));
    assert_eq!(req.need, 5);
    // The set-but-empty optional lists still travel, and come back as set.
    let back = Pex::from_value(&decode(&encode(&req.to_value())).unwrap()).unwrap();
    assert_eq!(back, request::pex("siteA", 5).1);
    // A response of three empty lists round-trips.
    let resp = response::pex(vec![], vec![], vec![]);
    let back = PexResponse::from_value(&decode(&encode(&resp.to_value())).unwrap()).unwrap();
    assert_eq!(back, response::pex(vec![], vec![], vec![]));
}

#[test]
fn pex_response_with_peers_round_trips() {
    let peers = vec![vec![1u8, 2, 3, 4, 0x1f, 0x90]];
    let onion = vec![vec![9u8; 12]];
    let resp = response::pex(peers.clone(), vec![], onion.clone());
    let back = PexResponse::from_value(&decode(&encode(&resp.to_value())).unwrap()).unwrap();
    assert_eq!(back.peers, peers);
    assert_eq!(back.peers_ipv6, Vec::<Vec<u8>>::new());
    assert_eq!(back.peers_onion, onion);
}

#[test]
fn builders_carry_fields_through() {
    let (_, sf) = request::stream_file("s", "file.bin", 4096, 100, 500);
    assert_eq!((sf.site.as_str(), sf.inner_path.as_str()), ("s", "file.bin"));
    assert_eq!((sf.file_size, sf.location, sf.read_bytes), (4096, 100, 500));

    let mut diffs = HashMap::new();
    diffs.insert("content.json".to_string(), vec![Value::Number(3)]);
    let (_, up) = request::update_site("s", "content.json", vec![1, 2], diffs, 77);
    assert_eq!(up.body, vec![1, 2]);
    assert_eq!(up.diffs.len(), 1);
    assert_eq!(up.diffs["content.json"], vec![Value::Number(3)]);
    assert_eq!(up.modified, 77);

    let (_, lm) = request::list_modified("s", 1234);
    assert_eq!(lm.since, 1234);

    let (_, sh) = request::set_hashfield("s", vec![0xab]);
    assert_eq!(sh.hashfield_raw, vec![0xab]);

    let (_, fh) = request::find_hash_ids("s", vec![1, 2, 3]);
    assert_eq!(fh.hash_ids, vec![1, 2, 3]);

    let (_, cp) = request::checkport(15441);
    assert_eq!(cp.port, 15441);

    let (_, spf) = request::set_piece_fields("s", vec![0x01]);
    assert_eq!(spf.piecefields_packed, vec![0x01]);
}

#[test]
fn response_builders_carry_fields_through() {
    assert_eq!(response::stream_file(10, 20, 30).stream_bytes, 10);
    assert_eq!(response::update_site("ok").ok, "ok");
    let mut files = HashMap::new();
    files.insert("a.txt".to_string(), 5usize);
    assert_eq!(response::list_modified(files.clone()).modified_files, files);
    assert_eq!(response::get_hashfield(vec![1]).hashfield_raw, vec![1]);
    assert_eq!(response::set_hashfield("Updated").ok, "Updated");
    let r = response::find_hash_ids(HashMap::new(), HashMap::new(), HashMap::new(), vec![4]);
    assert_eq!(r.my, vec![4]);
    let r = response::checkport("open", "1.2.3.4");
    assert_eq!((r.status.as_str(), r.ip_external.as_str()), ("open", "1.2.3.4"));
    assert_eq!(response::get_piece_fields(vec![2]).piecefields_packed, vec![2]);
    assert!(response::set_piece_fields(true).ok);
}
