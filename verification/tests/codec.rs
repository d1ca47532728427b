use moray_records::codec::{decode, encode, StoredValueError};
use moray_records::records::{MantaObject, MantaObjectShark};

fn chars(s: &str) -> Vec<char> {
    s.chars().collect()
}

fn text(v: &[char]) -> String {
    v.iter().collect()
}

#[test]
fn round_trip_minimal_object() {
    // A record with `content_length` left at its default and no sharks.
    let mut r = MantaObject::default();
    r.key = String::from("obj1");
    r.mtime = 100;
    let encoded = encode(&r);
    let decoded = decode(Some(&encoded)).expect("canonical text must decode");
    assert_eq!(decoded, r);
    assert_eq!(decoded.content_length, 0);
    assert!(decoded.sharks.is_empty());
}

#[test]
fn round_trip_full_object() {
    let r = MantaObject {
        headers: vec![
            (String::from("m-custom"), String::from("a \"quoted\" value")),
            (String::from("m-other"), String::from("back\\slash")),
        ],
        key: String::from("/account/stor/some key"),
        mtime: 1234567890123,
        name: String::from("some key"),
        creator: String::from("bcf17e83-3d55-4b5e-9df7-ee8b04dd6c83"),
        dirname: String::from("/account/stor"),
        owner: String::from("bcf17e83-3d55-4b5e-9df7-ee8b04dd6c83"),
        roles: vec![String::from("role-a"), String::from("role-b")],
        vnode: 42,
        content_length: 9000,
        content_md5: String::from("1B2M2Y8AsgTpgAmY7PhCfg=="),
        content_type: String::from("application/octet-stream"),
        object_id: String::from("0e25e933-7bcd-4c1a-8596-6c48e49b21f2"),
        etag: String::from("54d9b46a-f6a1-4f9e-a553-0eab2e531b1c"),
        sharks: vec![
            MantaObjectShark {
                datacenter: String::from("dc-one"),
                manta_storage_id: String::from("1.stor.domain"),
            },
            MantaObjectShark {
                datacenter: String::from("dc-two"),
                manta_storage_id: String::from("2.stor.domain"),
            },
        ],
        obj_type: String::from("object"),
    };
    let encoded = encode(&r);
    let decoded = decode(Some(&encoded)).expect("canonical text must decode");
    assert_eq!(decoded, r);
}

#[test]
fn encode_produces_canonical_text() {
    let mut r = MantaObject::default();
    r.key = String::from("obj1");
    r.mtime = 100;
    let expected = "{\"headers\":{},\"key\":\"obj1\",\"mtime\":100,\"name\":\"\",\"creator\":\"\",\"dirname\":\"\",\"owner\":\"\",\"roles\":[],\"vnode\":0,\"contentLength\":0,\"contentMd5\":\"\",\"contentType\":\"\",\"objectId\":\"\",\"etag\":\"\",\"sharks\":[],\"objType\":\"\"}";
    assert_eq!(text(&encode(&r)), expected);
}

#[test]
fn encode_escapes_quotes_and_backslashes() {
    let mut r = MantaObject::default();
    r.key = String::from("a\"b\\c");
    let encoded = text(&encode(&r));
    assert!(encoded.contains("\"key\":\"a\\\"b\\\\c\""));
    let decoded = decode(Some(&encode(&r))).unwrap();
    assert_eq!(decoded.key, "a\"b\\c");
}

#[test]
fn decode_absent_cell_is_missing_stored_value() {
    let r = decode(None);
    assert_eq!(r, Err(StoredValueError::MissingStoredValue));
    assert_ne!(r, Err(StoredValueError::DecodeError));
}

#[test]
fn decode_corrupt_text_is_decode_error() {
    for bad in [
        "",
        "not json at all",
        "{\"key\":\"x\"",
        "{\"key\":\"x\"}",
        "[1,2,3]",
        "{\"mtime\":-5}",
        "{\"mtime\":18446744073709551616}",
    ] {
        let cell = chars(bad);
        assert_eq!(decode(Some(&cell)), Err(StoredValueError::DecodeError), "input: {}", bad);
    }
}

#[test]
fn decode_rejects_trailing_garbage() {
    let mut r = MantaObject::default();
    r.key = String::from("k");
    let mut encoded = encode(&r);
    encoded.push(' ');
    assert_eq!(decode(Some(&encoded)), Err(StoredValueError::DecodeError));
}

#[test]
fn decode_large_integers_round_trip() {
    let mut r = MantaObject::default();
    r.mtime = u64::MAX;
    r.vnode = 0;
    r.content_length = 10;
    let decoded = decode(Some(&encode(&r))).unwrap();
    assert_eq!(decoded.mtime, u64::MAX);
    assert_eq!(decoded.content_length, 10);
}
