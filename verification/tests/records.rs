use moray_records::json::JsonValue;
use moray_records::records::{
    MalformedRecord, MantaDirectory, MantaObject, ObjectType,
};

fn s(v: &str) -> String {
    String::from(v)
}

fn str_val(v: &str) -> JsonValue {
    JsonValue::Str(s(v))
}

/// The required fields of a file-object record, as external-format pairs.
fn required_object_pairs() -> Vec<(String, JsonValue)> {
    vec![
        (s("headers"), JsonValue::Obj(Vec::new())),
        (s("key"), str_val("obj1")),
        (s("mtime"), JsonValue::UInt(100)),
        (s("name"), str_val("obj1")),
        (s("creator"), str_val("c-uuid")),
        (s("dirname"), str_val("/stor")),
        (s("owner"), str_val("o-uuid")),
        (s("roles"), JsonValue::Arr(Vec::new())),
        (s("vnode"), JsonValue::UInt(7)),
    ]
}

#[test]
fn default_filling_for_omitted_optional_fields() {
    let tree = JsonValue::Obj(required_object_pairs());
    let r = MantaObject::from_tree(&tree).expect("required fields are present");
    assert_eq!(r.content_length, 0);
    assert_eq!(r.content_md5, "");
    assert_eq!(r.content_type, "");
    assert_eq!(r.object_id, "");
    assert_eq!(r.etag, "");
    assert!(r.sharks.is_empty());
    assert_eq!(r.obj_type, "");
}

#[test]
fn alias_and_primary_key_populate_the_same_field() {
    let mut with_primary = required_object_pairs();
    with_primary.push((s("contentMd5"), str_val("digest==")));
    with_primary.push((s("contentLength"), JsonValue::UInt(12)));
    with_primary.push((s("objType"), str_val("object")));
    let mut with_alias = required_object_pairs();
    with_alias.push((s("contentMD5"), str_val("digest==")));
    with_alias.push((s("contentLength"), JsonValue::UInt(12)));
    with_alias.push((s("type"), str_val("object")));
    let a = MantaObject::from_tree(&JsonValue::Obj(with_primary)).unwrap();
    let b = MantaObject::from_tree(&JsonValue::Obj(with_alias)).unwrap();
    assert_eq!(a.content_md5, "digest==");
    assert_eq!(a.content_length, 12);
    assert_eq!(a.obj_type, "object");
    assert_eq!(a, b);
}

#[test]
fn primary_key_wins_over_alias() {
    let mut pairs = required_object_pairs();
    pairs.push((s("contentMd5"), str_val("primary")));
    pairs.push((s("contentMD5"), str_val("alias")));
    let r = MantaObject::from_tree(&JsonValue::Obj(pairs)).unwrap();
    assert_eq!(r.content_md5, "primary");
}

#[test]
fn missing_required_field_is_malformed() {
    let pairs: Vec<(String, JsonValue)> = required_object_pairs()
        .into_iter()
        .filter(|p| p.0 != "key")
        .collect();
    assert_eq!(MantaObject::from_tree(&JsonValue::Obj(pairs)), Err(MalformedRecord));
}

#[test]
fn wrong_field_shape_is_malformed() {
    let mut pairs = required_object_pairs();
    for p in pairs.iter_mut() {
        if p.0 == "mtime" {
            p.1 = str_val("one hundred");
        }
    }
    assert_eq!(MantaObject::from_tree(&JsonValue::Obj(pairs)), Err(MalformedRecord));
    let mut pairs2 = required_object_pairs();
    pairs2.push((s("sharks"), str_val("not a list")));
    assert_eq!(MantaObject::from_tree(&JsonValue::Obj(pairs2)), Err(MalformedRecord));
}

#[test]
fn directory_text_decodes_to_directory_variant() {
    let text: Vec<char> = "{\"type\":\"directory\",\"creator\":\"c\",\"dirname\":\"/stor\",\"headers\":{},\"key\":\"d1\",\"mtime\":5,\"name\":\"d1\",\"owner\":\"o\",\"roles\":[],\"vnode\":3}"
        .chars()
        .collect();
    match ObjectType::from_text(&text) {
        Ok(ObjectType::Directory(d)) => {
            assert_eq!(d.key, "d1");
            assert_eq!(d.mtime, 5);
            assert_eq!(d.vnode, 3);
        },
        other => panic!("expected a directory record, got {:?}", other),
    }
}

#[test]
fn unknown_discriminator_is_malformed() {
    let text: Vec<char> = "{\"type\":\"unknown\",\"creator\":\"c\",\"dirname\":\"/stor\",\"headers\":{},\"key\":\"d1\",\"mtime\":5,\"name\":\"d1\",\"owner\":\"o\",\"roles\":[],\"vnode\":3}"
        .chars()
        .collect();
    assert_eq!(ObjectType::from_text(&text), Err(MalformedRecord));
}

#[test]
fn object_type_text_round_trip() {
    let mut o = MantaObject::default();
    o.key = s("obj1");
    o.obj_type = s("object");
    let u = ObjectType::Object(o);
    let round = ObjectType::from_text(&u.to_text()).unwrap();
    assert_eq!(round, u);

    let mut d = MantaDirectory::default();
    d.key = s("dir1");
    d.mtime = 9;
    let u2 = ObjectType::Directory(d);
    let round2 = ObjectType::from_text(&u2.to_text()).unwrap();
    assert_eq!(round2, u2);
}

#[test]
fn object_tag_aliases_are_accepted() {
    let mut pairs = required_object_pairs();
    pairs.insert(0, (s("type"), str_val("object")));
    let tree = JsonValue::Obj(pairs);
    match ObjectType::from_tree(&tree) {
        Ok(ObjectType::Object(o)) => {
            // The `type` key also serves as the alias of `obj_type`.
            assert_eq!(o.obj_type, "object");
        },
        other => panic!("expected a file-object record, got {:?}", other),
    }
}

#[test]
fn default_values_are_zero() {
    let r = MantaObject::default();
    assert_eq!(r.key, "");
    assert_eq!(r.mtime, 0);
    assert_eq!(r.vnode, 0);
    assert_eq!(r.content_length, 0);
    assert!(r.headers.is_empty());
    assert!(r.roles.is_empty());
    assert!(r.sharks.is_empty());
    let d = MantaDirectory::default();
    assert_eq!(d.key, "");
    assert_eq!(d.mtime, 0);
}

#[test]
fn records_clone_and_compare_by_value() {
    let mut r = MantaObject::default();
    r.key = s("obj1");
    let copy = r.clone();
    assert_eq!(copy, r);
    let mut other = r.clone();
    other.mtime = 1;
    assert_ne!(other, r);
}
