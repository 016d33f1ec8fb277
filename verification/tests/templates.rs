use peermsg::codec::{decode, encode};
use peermsg::error::Error;
use peermsg::templates::{
    Checkport, CheckportResponse, FindHashIds, GetFile, GetHashfield, GetHashfieldResponse,
    GetPieceFields, GetPieceFieldsResponse, Handshake, ListModified, OkResponse, Pex, PexResponse,
    Ping, PingResponse, SetHashfield, SetHashfieldResponse, SetPieceFields,
    SetPieceFieldsResponse, StreamFile, StreamFileResponse, UpdateSiteResponse,
};
use peermsg::value::Value;

#[test]
fn handshake_defaults() {
    let h = Handshake::default();
    assert_eq!(h.peer_id, "");
    assert_eq!(h.fileserver_port, 0);
    assert_eq!(h.time, 0);
    assert_eq!(h.crypt, None);
    assert!(h.crypt_supported.is_empty());
    assert!(!h.use_bin_type);
    assert_eq!(h.onion, None);
    assert_eq!(h.protocol, "");
    assert_eq!(h.port_opened, None);
    assert_eq!(h.rev, 0);
    assert_eq!(h.target_address, None);
    assert_eq!(h.version, "");
}

#[test]
fn non_object_values_are_the_wrong_shape() {
    assert_eq!(GetFile::from_value(&Value::Null), Err(Error::WrongShape));
    assert_eq!(Pex::from_value(&Value::Number(3)), Err(Error::WrongShape));
    assert_eq!(PexResponse::from_value(&Value::Bool(true)), Err(Error::WrongShape));
}

#[test]
fn mistyped_fields_are_the_wrong_shape() {
    // `site` carried as a number, not a string.
    let v = Value::Object(vec![("site".to_string(), Value::Number(1))]);
    assert_eq!(GetFile::from_value(&v), Err(Error::WrongShape));
    // A peer list whose entry is not a byte buffer.
    let v = Value::Object(vec![(
        "peers".to_string(),
        Value::Array(vec![Value::String("1.2.3.4".to_string())]),
    )]);
    assert_eq!(PexResponse::from_value(&v), Err(Error::WrongShape));
}

#[test]
fn absent_fields_read_as_defaults() {
    // An empty object reads as an all-default request.
    let g = GetFile::from_value(&Value::Object(vec![])).unwrap();
    assert_eq!(g.site, "");
    assert_eq!(g.inner_path, "");
    assert_eq!(g.location, 0);
    assert_eq!(g.read_bytes, None);
    assert_eq!(g.file_size, 0);
    let p = PexResponse::from_value(&Value::Object(vec![])).unwrap();
    assert!(p.peers.is_empty() && p.peers_ipv6.is_empty() && p.peers_onion.is_empty());
    // Absent optional peer lists read as unset, present-but-empty as set.
    let x = Pex::from_value(&Value::Object(vec![])).unwrap();
    assert_eq!(x.peers_onion, None);
    let v = Value::Object(vec![("peers_onion".to_string(), Value::Array(vec![]))]);
    let x = Pex::from_value(&v).unwrap();
    assert_eq!(x.peers_onion, Some(vec![]));
}

fn s(text: &str) -> String {
    text.to_string()
}

fn through_codec(v: &Value) -> Value {
    decode(&encode(v)).unwrap()
}

#[test]
fn simple_shapes_survive_the_wire() {
    assert_eq!(Ping::from_value(&through_codec(&Ping().to_value())), Ok(Ping()));
    let x = PingResponse { body: s("Pong!") };
    assert_eq!(PingResponse::from_value(&through_codec(&x.to_value())), Ok(x));
    let x = OkResponse { ok: s("ok") };
    assert_eq!(OkResponse::from_value(&through_codec(&x.to_value())), Ok(x));
    let x = UpdateSiteResponse { ok: s("Thanks, file updated!") };
    assert_eq!(UpdateSiteResponse::from_value(&through_codec(&x.to_value())), Ok(x));
    let x = GetHashfield { site: s("siteA") };
    assert_eq!(GetHashfield::from_value(&through_codec(&x.to_value())), Ok(x));
    let x = GetHashfieldResponse { hashfield_raw: vec![1, 2, 3] };
    assert_eq!(GetHashfieldResponse::from_value(&through_codec(&x.to_value())), Ok(x));
    let x = SetHashfield { site: s("siteA"), hashfield_raw: vec![9, 8] };
    assert_eq!(SetHashfield::from_value(&through_codec(&x.to_value())), Ok(x));
    let x = SetHashfieldResponse { ok: s("Updated") };
    assert_eq!(SetHashfieldResponse::from_value(&through_codec(&x.to_value())), Ok(x));
    let x = GetPieceFields { site: s("siteB") };
    assert_eq!(GetPieceFields::from_value(&through_codec(&x.to_value())), Ok(x));
    let x = GetPieceFieldsResponse { piecefields_packed: vec![0xff] };
    assert_eq!(GetPieceFieldsResponse::from_value(&through_codec(&x.to_value())), Ok(x));
    let x = SetPieceFields { site: s("siteB"), piecefields_packed: vec![7] };
    assert_eq!(SetPieceFields::from_value(&through_codec(&x.to_value())), Ok(x));
    let x = SetPieceFieldsResponse { ok: true };
    assert_eq!(SetPieceFieldsResponse::from_value(&through_codec(&x.to_value())), Ok(x));
    let x = Checkport { port: 15441 };
    assert_eq!(Checkport::from_value(&through_codec(&x.to_value())), Ok(x));
    let x = CheckportResponse { status: s("open"), ip_external: s("1.2.3.4") };
    assert_eq!(CheckportResponse::from_value(&through_codec(&x.to_value())), Ok(x));
    let x = ListModified { site: s("siteA"), since: 1234567 };
    assert_eq!(ListModified::from_value(&through_codec(&x.to_value())), Ok(x));
    let x = FindHashIds { site: s("siteA"), hash_ids: vec![5, 77, 4096] };
    assert_eq!(FindHashIds::from_value(&through_codec(&x.to_value())), Ok(x));
    let x = StreamFile {
        site: s("siteA"),
        inner_path: s("big.bin"),
        location: 100,
        read_bytes: 512,
        file_size: 4096,
    };
    assert_eq!(StreamFile::from_value(&through_codec(&x.to_value())), Ok(x));
    let x = StreamFileResponse { location: 612, size: 4096, stream_bytes: 512 };
    assert_eq!(StreamFileResponse::from_value(&through_codec(&x.to_value())), Ok(x));
}

#[test]
fn zero_valued_defaulted_fields_are_omitted_and_read_back() {
    let sf = StreamFile {
        site: "siteA".to_string(),
        inner_path: "a".to_string(),
        location: 3,
        read_bytes: 0,
        file_size: 0,
    };
    let v = sf.to_value();
    match &v {
        Value::Object(fields) => {
            assert!(!fields.iter().any(|(k, _)| k == "read_bytes" || k == "file_size"));
        },
        _ => panic!("requests encode as objects"),
    }
    assert_eq!(StreamFile::from_value(&v), Ok(sf));
}

#[test]
fn handshake_wire_form_omits_defaults_and_renames() {
    let mut h = Handshake::default();
    h.peer_id = "-UT3530-abc".to_string();
    h.fileserver_port = 15441;
    h.time = 1700000000;
    let v = h.to_value();
    match &v {
        Value::Object(fields) => {
            let keys: Vec<&str> = fields.iter().map(|(k, _)| k.as_str()).collect();
            assert_eq!(keys, vec!["peer_id", "fileserver_port", "time"]);
        },
        _ => panic!("the handshake encodes as an object"),
    }
    // The observed external address travels as `target_ip`.
    h.target_address = Some("7.8.9.10".to_string());
    h.rev = 4555;
    let v = h.to_value();
    match &v {
        Value::Object(fields) => {
            assert!(fields.iter().any(|(k, _)| k == "target_ip"));
            assert!(!fields.iter().any(|(k, _)| k == "target_address"));
            assert!(fields.iter().any(|(k, _)| k == "rev"));
        },
        _ => panic!("the handshake encodes as an object"),
    }
    // And the whole record survives the codec.
    let bytes = encode(&h.to_value());
    assert_eq!(decode(&bytes).unwrap(), h.to_value());
}
