//! The record model: file-object records, directory records, storage-location
//! records, and the tagged union over the two record kinds.
//!
//! Each record converts to and from the structured external format.  The
//! conversion from a tree honours the lower-camel-case naming convention,
//! accepts the documented aliases on input, and fills documented defaults for
//! the optional fields; every other field is required and a missing or
//! ill-shaped field is a `MalformedRecord` error.

use vstd::prelude::*;
use crate::json::{JsonModel, JsonValue, jmodel, jmodel_list, jmodel_pairs, lemma_jmodel_list,
    lemma_jmodel_pairs};

verus! {

/// Conversion from the external format failed: a required field was missing,
/// a field had the wrong shape, or the union discriminator was absent or
/// unrecognized.
#[derive(Debug, Clone, PartialEq, Eq)]
pub struct MalformedRecord;

// ---------------------------------------------------------------------------
// Record types and their models
// ---------------------------------------------------------------------------
#[verifier::ext_equal]
pub struct SharkModel {
    pub datacenter: Seq<char>,
    pub manta_storage_id: Seq<char>,
}

#[verifier::ext_equal]
pub struct ObjectModel {
    pub headers: Seq<(Seq<char>, Seq<char>)>,
    pub key: Seq<char>,
    pub mtime: u64,
    pub name: Seq<char>,
    pub creator: Seq<char>,
    pub dirname: Seq<char>,
    pub owner: Seq<char>,
    pub roles: Seq<Seq<char>>,
    pub vnode: u64,
    pub content_length: u64,
    pub content_md5: Seq<char>,
    pub content_type: Seq<char>,
    pub object_id: Seq<char>,
    pub etag: Seq<char>,
    pub sharks: Seq<SharkModel>,
    pub obj_type: Seq<char>,
}

#[verifier::ext_equal]
pub struct DirectoryModel {
    pub creator: Seq<char>,
    pub dirname: Seq<char>,
    pub headers: Seq<(Seq<char>, Seq<char>)>,
    pub key: Seq<char>,
    pub mtime: u64,
    pub name: Seq<char>,
    pub owner: Seq<char>,
    pub roles: Seq<Seq<char>>,
    pub vnode: u64,
}

pub enum ObjectTypeModel {
    Object(ObjectModel),
    Directory(DirectoryModel),
}

/// One physical storage replica of an object.
#[derive(Debug, Clone, PartialEq, Eq)]
pub struct MantaObjectShark {
    pub datacenter: String,
    pub manta_storage_id: String,
}

/// One stored file's metadata.
#[derive(Debug, Clone, PartialEq, Eq)]
pub struct MantaObject {
    pub headers: Vec<(String, String)>,
    pub key: String,
    pub mtime: u64,
    pub name: String,
    pub creator: String,
    pub dirname: String,
    pub owner: String,
    pub roles: Vec<String>,
    pub vnode: u64,
    pub content_length: u64,
    pub content_md5: String,
    pub content_type: String,
    pub object_id: String,
    pub etag: String,
    pub sharks: Vec<MantaObjectShark>,
    pub obj_type: String,
}

/// One directory's metadata.
#[derive(Debug, Clone, PartialEq, Eq)]
pub struct MantaDirectory {
    pub creator: String,
    pub dirname: String,
    pub headers: Vec<(String, String)>,
    pub key: String,
    pub mtime: u64,
    pub name: String,
    pub owner: String,
    pub roles: Vec<String>,
    pub vnode: u64,
}

/// The tagged union over the two record kinds, discriminated by the
/// external `type` field.
#[derive(Debug, Clone, PartialEq, Eq)]
pub enum ObjectType {
    Object(MantaObject),
    Directory(MantaDirectory),
}

pub open spec fn headers_view(hs: Seq<(String, String)>) -> Seq<(Seq<char>, Seq<char>)> {
    hs.map_values(|p: (String, String)| (p.0@, p.1@))
}

pub open spec fn roles_view(rs: Seq<String>) -> Seq<Seq<char>> {
    rs.map_values(|r: String| r@)
}

impl View for MantaObjectShark {
    type V = SharkModel;

    open spec fn view(&self) -> SharkModel {
        SharkModel { datacenter: self.datacenter@, manta_storage_id: self.manta_storage_id@ }
    }
}

impl View for MantaObject {
    type V = ObjectModel;

    open spec fn view(&self) -> ObjectModel {
        ObjectModel {
            headers: headers_view(self.headers@),
            key: self.key@,
            mtime: self.mtime,
            name: self.name@,
            creator: self.creator@,
            dirname: self.dirname@,
            owner: self.owner@,
            roles: roles_view(self.roles@),
            vnode: self.vnode,
            content_length: self.content_length,
            content_md5: self.content_md5@,
            content_type: self.content_type@,
            object_id: self.object_id@,
            etag: self.etag@,
            sharks: self.sharks@.map_values(|s: MantaObjectShark| s@),
            obj_type: self.obj_type@,
        }
    }
}

impl View for MantaDirectory {
    type V = DirectoryModel;

    open spec fn view(&self) -> DirectoryModel {
        DirectoryModel {
            creator: self.creator@,
            dirname: self.dirname@,
            headers: headers_view(self.headers@),
            key: self.key@,
            mtime: self.mtime,
            name: self.name@,
            owner: self.owner@,
            roles: roles_view(self.roles@),
            vnode: self.vnode,
        }
    }
}

impl View for ObjectType {
    type V = ObjectTypeModel;

    open spec fn view(&self) -> ObjectTypeModel {
        match self {
            ObjectType::Object(o) => ObjectTypeModel::Object(o@),
            ObjectType::Directory(d) => ObjectTypeModel::Directory(d@),
        }
    }
}

// ---------------------------------------------------------------------------
// The canonical tree of a record
// ---------------------------------------------------------------------------
pub open spec fn headers_tree(hs: Seq<(Seq<char>, Seq<char>)>) -> JsonModel {
    JsonModel::Obj(hs.map_values(|p: (Seq<char>, Seq<char>)| (p.0, JsonModel::Str(p.1))))
}

pub open spec fn roles_tree(rs: Seq<Seq<char>>) -> JsonModel {
    JsonModel::Arr(rs.map_values(|r: Seq<char>| JsonModel::Str(r)))
}

pub open spec fn shark_tree(s: SharkModel) -> JsonModel {
    JsonModel::Obj(
        seq![
            ("datacenter"@, JsonModel::Str(s.datacenter)),
            ("manta_storage_id"@, JsonModel::Str(s.manta_storage_id)),
        ],
    )
}

pub open spec fn sharks_tree(ss: Seq<SharkModel>) -> JsonModel {
    JsonModel::Arr(ss.map_values(|s: SharkModel| shark_tree(s)))
}

pub open spec fn obj_pairs(m: ObjectModel) -> Seq<(Seq<char>, JsonModel)> {
    seq![
        ("headers"@, headers_tree(m.headers)),
        ("key"@, JsonModel::Str(m.key)),
        ("mtime"@, JsonModel::UInt(m.mtime)),
        ("name"@, JsonModel::Str(m.name)),
        ("creator"@, JsonModel::Str(m.creator)),
        ("dirname"@, JsonModel::Str(m.dirname)),
        ("owner"@, JsonModel::Str(m.owner)),
        ("roles"@, roles_tree(m.roles)),
        ("vnode"@, JsonModel::UInt(m.vnode)),
        ("contentLength"@, JsonModel::UInt(m.content_length)),
        ("contentMd5"@, JsonModel::Str(m.content_md5)),
        ("contentType"@, JsonModel::Str(m.content_type)),
        ("objectId"@, JsonModel::Str(m.object_id)),
        ("etag"@, JsonModel::Str(m.etag)),
        ("sharks"@, sharks_tree(m.sharks)),
        ("objType"@, JsonModel::Str(m.obj_type)),
    ]
}

pub open spec fn obj_tree(m: ObjectModel) -> JsonModel {
    JsonModel::Obj(obj_pairs(m))
}

pub open spec fn dir_pairs(m: DirectoryModel) -> Seq<(Seq<char>, JsonModel)> {
    seq![
        ("creator"@, JsonModel::Str(m.creator)),
        ("dirname"@, JsonModel::Str(m.dirname)),
        ("headers"@, headers_tree(m.headers)),
        ("key"@, JsonModel::Str(m.key)),
        ("mtime"@, JsonModel::UInt(m.mtime)),
        ("name"@, JsonModel::Str(m.name)),
        ("owner"@, JsonModel::Str(m.owner)),
        ("roles"@, roles_tree(m.roles)),
        ("vnode"@, JsonModel::UInt(m.vnode)),
    ]
}

pub open spec fn dir_tree(m: DirectoryModel) -> JsonModel {
    JsonModel::Obj(dir_pairs(m))
}

pub open spec fn type_tree(m: ObjectTypeModel) -> JsonModel {
    match m {
        ObjectTypeModel::Object(om) => JsonModel::Obj(
            seq![("type"@, JsonModel::Str("Object"@))] + obj_pairs(om),
        ),
        ObjectTypeModel::Directory(dm) => JsonModel::Obj(
            seq![("type"@, JsonModel::Str("Directory"@))] + dir_pairs(dm),
        ),
    }
}

// ---------------------------------------------------------------------------
// Reading a record out of a tree
// ---------------------------------------------------------------------------
/// First binding of `k` among the pairs, scanning from index `i`.
pub open spec fn tree_lookup(ps: Seq<(Seq<char>, JsonModel)>, k: Seq<char>, i: int) -> Option<
    JsonModel,
>
    decreases ps.len() - i,
{
    if i < 0 || i >= ps.len() {
        None
    } else if ps[i].0 == k {
        Some(ps[i].1)
    } else {
        tree_lookup(ps, k, i + 1)
    }
}

pub open spec fn value_of<A>(o: Option<A>) -> A
    recommends
        o is Some,
{
    match o {
        Some(a) => a,
        None => vstd::pervasive::arbitrary(),
    }
}

/// A required string field: present and string-shaped, else malformed.
pub open spec fn req_str(ps: Seq<(Seq<char>, JsonModel)>, k: Seq<char>) -> Option<Seq<char>> {
    match tree_lookup(ps, k, 0) {
        Some(JsonModel::Str(s)) => Some(s),
        _ => None,
    }
}

/// A required unsigned-integer field.
pub open spec fn req_u64(ps: Seq<(Seq<char>, JsonModel)>, k: Seq<char>) -> Option<u64> {
    match tree_lookup(ps, k, 0) {
        Some(JsonModel::UInt(n)) => Some(n),
        _ => None,
    }
}

/// An optional string field: absent means empty, present with the wrong
/// shape is malformed.
pub open spec fn opt_str(ps: Seq<(Seq<char>, JsonModel)>, k: Seq<char>) -> Option<Seq<char>> {
    match tree_lookup(ps, k, 0) {
        Some(JsonModel::Str(s)) => Some(s),
        Some(_) => None,
        None => Some(Seq::empty()),
    }
}

/// An optional string field with an accepted input alias.
pub open spec fn opt_str2(ps: Seq<(Seq<char>, JsonModel)>, k: Seq<char>, alias: Seq<char>) -> Option<
    Seq<char>,
> {
    match tree_lookup(ps, k, 0) {
        Some(JsonModel::Str(s)) => Some(s),
        Some(_) => None,
        None => match tree_lookup(ps, alias, 0) {
            Some(JsonModel::Str(s)) => Some(s),
            Some(_) => None,
            None => Some(Seq::empty()),
        },
    }
}

/// An optional unsigned-integer field: absent means zero.
pub open spec fn opt_u64(ps: Seq<(Seq<char>, JsonModel)>, k: Seq<char>) -> Option<u64> {
    match tree_lookup(ps, k, 0) {
        Some(JsonModel::UInt(n)) => Some(n),
        Some(_) => None,
        None => Some(0),
    }
}

/// A headers value: a map whose values are all strings.
pub open spec fn headers_model(j: JsonModel) -> Option<Seq<(Seq<char>, Seq<char>)>> {
    match j {
        JsonModel::Obj(hs) => if forall|k: int|
            0 <= k < hs.len() ==> (#[trigger] hs[k].1) matches JsonModel::Str(_) {
            Some(
                hs.map_values(
                    |p: (Seq<char>, JsonModel)|
                        (
                            p.0,
                            match p.1 {
                                JsonModel::Str(s) => s,
                                _ => Seq::empty(),
                            },
                        ),
                ),
            )
        } else {
            None
        },
        _ => None,
    }
}

/// A roles value: a sequence of strings.
pub open spec fn roles_model(j: JsonModel) -> Option<Seq<Seq<char>>> {
    match j {
        JsonModel::Arr(items) => if forall|k: int|
            0 <= k < items.len() ==> (#[trigger] items[k]) matches JsonModel::Str(_) {
            Some(
                items.map_values(
                    |x: JsonModel|
                        match x {
                            JsonModel::Str(s) => s,
                            _ => Seq::empty(),
                        },
                ),
            )
        } else {
            None
        },
        _ => None,
    }
}

pub open spec fn shark_of_tree(j: JsonModel) -> Option<SharkModel> {
    match j {
        JsonModel::Obj(ps) => if req_str(ps, "datacenter"@) is Some && req_str(
            ps,
            "manta_storage_id"@,
        ) is Some {
            Some(
                SharkModel {
                    datacenter: value_of(req_str(ps, "datacenter"@)),
                    manta_storage_id: value_of(req_str(ps, "manta_storage_id"@)),
                },
            )
        } else {
            None
        },
        _ => None,
    }
}

pub open spec fn sharks_model(j: JsonModel) -> Option<Seq<SharkModel>> {
    match j {
        JsonModel::Arr(items) => if forall|k: int|
            0 <= k < items.len() ==> shark_of_tree(#[trigger] items[k]) is Some {
            Some(items.map_values(|x: JsonModel| value_of(shark_of_tree(x))))
        } else {
            None
        },
        _ => None,
    }
}

pub open spec fn headers_field(ps: Seq<(Seq<char>, JsonModel)>) -> Option<
    Seq<(Seq<char>, Seq<char>)>,
> {
    match tree_lookup(ps, "headers"@, 0) {
        Some(j) => headers_model(j),
        None => None,
    }
}

pub open spec fn roles_field(ps: Seq<(Seq<char>, JsonModel)>) -> Option<Seq<Seq<char>>> {
    match tree_lookup(ps, "roles"@, 0) {
        Some(j) => roles_model(j),
        None => None,
    }
}

/// The sharks field defaults to the empty sequence when absent.
pub open spec fn sharks_field(ps: Seq<(Seq<char>, JsonModel)>) -> Option<Seq<SharkModel>> {
    match tree_lookup(ps, "sharks"@, 0) {
        Some(j) => sharks_model(j),
        None => Some(Seq::empty()),
    }
}

pub open spec fn obj_of_pairs(ps: Seq<(Seq<char>, JsonModel)>) -> Option<ObjectModel> {
    if headers_field(ps) is Some && req_str(ps, "key"@) is Some && req_u64(ps, "mtime"@) is Some
        && req_str(ps, "name"@) is Some && req_str(ps, "creator"@) is Some && req_str(
        ps,
        "dirname"@,
    ) is Some && req_str(ps, "owner"@) is Some && roles_field(ps) is Some && req_u64(
        ps,
        "vnode"@,
    ) is Some && opt_u64(ps, "contentLength"@) is Some && opt_str2(
        ps,
        "contentMd5"@,
        "contentMD5"@,
    ) is Some && opt_str(ps, "contentType"@) is Some && opt_str(ps, "objectId"@) is Some && opt_str(
        ps,
        "etag"@,
    ) is Some && sharks_field(ps) is Some && opt_str2(ps, "objType"@, "type"@) is Some {
        Some(
            ObjectModel {
                headers: value_of(headers_field(ps)),
                key: value_of(req_str(ps, "key"@)),
                mtime: value_of(req_u64(ps, "mtime"@)),
                name: value_of(req_str(ps, "name"@)),
                creator: value_of(req_str(ps, "creator"@)),
                dirname: value_of(req_str(ps, "dirname"@)),
                owner: value_of(req_str(ps, "owner"@)),
                roles: value_of(roles_field(ps)),
                vnode: value_of(req_u64(ps, "vnode"@)),
                content_length: value_of(opt_u64(ps, "contentLength"@)),
                content_md5: value_of(opt_str2(ps, "contentMd5"@, "contentMD5"@)),
                content_type: value_of(opt_str(ps, "contentType"@)),
                object_id: value_of(opt_str(ps, "objectId"@)),
                etag: value_of(opt_str(ps, "etag"@)),
                sharks: value_of(sharks_field(ps)),
                obj_type: value_of(opt_str2(ps, "objType"@, "type"@)),
            },
        )
    } else {
        None
    }
}

pub open spec fn obj_of_tree(j: JsonModel) -> Option<ObjectModel> {
    match j {
        JsonModel::Obj(ps) => obj_of_pairs(ps),
        _ => None,
    }
}

pub open spec fn dir_of_pairs(ps: Seq<(Seq<char>, JsonModel)>) -> Option<DirectoryModel> {
    if req_str(ps, "creator"@) is Some && req_str(ps, "dirname"@) is Some && headers_field(
        ps,
    ) is Some && req_str(ps, "key"@) is Some && req_u64(ps, "mtime"@) is Some && req_str(
        ps,
        "name"@,
    ) is Some && req_str(ps, "owner"@) is Some && roles_field(ps) is Some && req_u64(
        ps,
        "vnode"@,
    ) is Some {
        Some(
            DirectoryModel {
                creator: value_of(req_str(ps, "creator"@)),
                dirname: value_of(req_str(ps, "dirname"@)),
                headers: value_of(headers_field(ps)),
                key: value_of(req_str(ps, "key"@)),
                mtime: value_of(req_u64(ps, "mtime"@)),
                name: value_of(req_str(ps, "name"@)),
                owner: value_of(req_str(ps, "owner"@)),
                roles: value_of(roles_field(ps)),
                vnode: value_of(req_u64(ps, "vnode"@)),
            },
        )
    } else {
        None
    }
}

pub open spec fn dir_of_tree(j: JsonModel) -> Option<DirectoryModel> {
    match j {
        JsonModel::Obj(ps) => dir_of_pairs(ps),
        _ => None,
    }
}

/// Reading the union: dispatch on the `type` discriminator, accepting the
/// variant tags and their lower-case aliases, exactly.
pub open spec fn type_of_tree(j: JsonModel) -> Option<ObjectTypeModel> {
    match j {
        JsonModel::Obj(ps) => match tree_lookup(ps, "type"@, 0) {
            Some(JsonModel::Str(tag)) => if tag == "Object"@ || tag == "object"@ {
                match obj_of_pairs(ps) {
                    Some(om) => Some(ObjectTypeModel::Object(om)),
                    None => None,
                }
            } else if tag == "Directory"@ || tag == "directory"@ {
                match dir_of_pairs(ps) {
                    Some(dm) => Some(ObjectTypeModel::Directory(dm)),
                    None => None,
                }
            } else {
                None
            },
            _ => None,
        },
        _ => None,
    }
}

// ---------------------------------------------------------------------------
// Executable conversions
// ---------------------------------------------------------------------------
/// First pair bound to `key`, if any.
fn tree_get<'a>(pairs: &'a Vec<(String, JsonValue)>, key: &String) -> (r: Option<&'a JsonValue>)
    ensures
        r matches Some(v) ==> tree_lookup(jmodel_pairs(pairs@, 0), key@, 0) == Some(jmodel(*v)),
        r is None ==> tree_lookup(jmodel_pairs(pairs@, 0), key@, 0) is None,
{
    proof {
        lemma_jmodel_pairs(pairs@, 0);
    }
    let ghost m = jmodel_pairs(pairs@, 0);
    let n = pairs.len();
    let mut i: usize = 0;
    while i < n
        invariant
            n == pairs@.len(),
            i <= n,
            m == jmodel_pairs(pairs@, 0),
            m.len() == n,
            forall|k: int| 0 <= k < n ==> #[trigger] m[k] == (pairs@[k].0@, jmodel(pairs@[k].1)),
            tree_lookup(m, key@, 0) == tree_lookup(m, key@, i as int),
        decreases n - i,
    {
        if pairs[i].0 == *key {
            return Some(&pairs[i].1);
        }
        i += 1;
    }
    None
}

fn get_req_str(pairs: &Vec<(String, JsonValue)>, key: &String) -> (r: Result<
    String,
    MalformedRecord,
>)
    ensures
        r matches Ok(s) ==> req_str(jmodel_pairs(pairs@, 0), key@) == Some(s@),
        r is Err ==> req_str(jmodel_pairs(pairs@, 0), key@) is None,
{
    match tree_get(pairs, key) {
        Some(v) => match v {
            JsonValue::Str(s) => Ok(s.clone()),
            _ => Err(MalformedRecord),
        },
        None => Err(MalformedRecord),
    }
}

fn get_req_u64(pairs: &Vec<(String, JsonValue)>, key: &String) -> (r: Result<u64, MalformedRecord>)
    ensures
        r matches Ok(n) ==> req_u64(jmodel_pairs(pairs@, 0), key@) == Some(n),
        r is Err ==> req_u64(jmodel_pairs(pairs@, 0), key@) is None,
{
    match tree_get(pairs, key) {
        Some(v) => match v {
            JsonValue::UInt(n) => Ok(*n),
            _ => Err(MalformedRecord),
        },
        None => Err(MalformedRecord),
    }
}

fn get_opt_str(pairs: &Vec<(String, JsonValue)>, key: &String) -> (r: Result<
    String,
    MalformedRecord,
>)
    ensures
        r matches Ok(s) ==> opt_str(jmodel_pairs(pairs@, 0), key@) == Some(s@),
        r is Err ==> opt_str(jmodel_pairs(pairs@, 0), key@) is None,
{
    match tree_get(pairs, key) {
        Some(v) => match v {
            JsonValue::Str(s) => Ok(s.clone()),
            _ => Err(MalformedRecord),
        },
        None => Ok(String::new()),
    }
}

fn get_opt_str2(pairs: &Vec<(String, JsonValue)>, key: &String, alias: &String) -> (r: Result<
    String,
    MalformedRecord,
>)
    ensures
        r matches Ok(s) ==> opt_str2(jmodel_pairs(pairs@, 0), key@, alias@) == Some(s@),
        r is Err ==> opt_str2(jmodel_pairs(pairs@, 0), key@, alias@) is None,
{
    match tree_get(pairs, key) {
        Some(v) => match v {
            JsonValue::Str(s) => Ok(s.clone()),
            _ => Err(MalformedRecord),
        },
        None => match tree_get(pairs, alias) {
            Some(v) => match v {
                JsonValue::Str(s) => Ok(s.clone()),
                _ => Err(MalformedRecord),
            },
            None => Ok(String::new()),
        },
    }
}

fn get_opt_u64(pairs: &Vec<(String, JsonValue)>, key: &String) -> (r: Result<u64, MalformedRecord>)
    ensures
        r matches Ok(n) ==> opt_u64(jmodel_pairs(pairs@, 0), key@) == Some(n),
        r is Err ==> opt_u64(jmodel_pairs(pairs@, 0), key@) is None,
{
    match tree_get(pairs, key) {
        Some(v) => match v {
            JsonValue::UInt(n) => Ok(*n),
            _ => Err(MalformedRecord),
        },
        None => Ok(0),
    }
}

fn get_headers(pairs: &Vec<(String, JsonValue)>) -> (r: Result<
    Vec<(String, String)>,
    MalformedRecord,
>)
    ensures
        r matches Ok(h) ==> headers_field(jmodel_pairs(pairs@, 0)) == Some(headers_view(h@)),
        r is Err ==> headers_field(jmodel_pairs(pairs@, 0)) is None,
{
    let k = String::from_str("headers");
    match tree_get(pairs, &k) {
        None => Err(MalformedRecord),
        Some(v) => match v {
            JsonValue::Obj(hs) => {
                proof {
                    lemma_jmodel_pairs(hs@, 0);
                }
                let ghost hm = jmodel_pairs(hs@, 0);
                let mut out: Vec<(String, String)> = Vec::new();
                let n = hs.len();
                let mut i: usize = 0;
                while i < n
                    invariant
                        tree_lookup(jmodel_pairs(pairs@, 0), "headers"@, 0) == Some(
                            JsonModel::Obj(hm),
                        ),
                        n == hs@.len(),
                        i <= n,
                        hm == jmodel_pairs(hs@, 0),
                        hm.len() == n,
                        forall|k: int|
                            0 <= k < n ==> #[trigger] hm[k] == (hs@[k].0@, jmodel(hs@[k].1)),
                        out@.len() == i,
                        forall|k: int|
                            0 <= k < i ==> (#[trigger] hm[k]).1 == JsonModel::Str(out@[k].1@)
                                && hm[k].0 == out@[k].0@,
                    decreases n - i,
                {
                    match &hs[i].1 {
                        JsonValue::Str(s) => {
                            out.push((hs[i].0.clone(), s.clone()));
                        },
                        _ => {
                            proof {
                                assert(hm[i as int].1 == jmodel(hs@[i as int].1));
                                assert(!(hm[i as int].1 matches JsonModel::Str(_)));
                            }
                            return Err(MalformedRecord);
                        },
                    }
                    i += 1;
                }
                proof {
                    let mapped = hm.map_values(
                        |p: (Seq<char>, JsonModel)|
                            (
                                p.0,
                                match p.1 {
                                    JsonModel::Str(s) => s,
                                    _ => Seq::<char>::empty(),
                                },
                            ),
                    );
                    assert(headers_view(out@) =~= mapped);
                }
                Ok(out)
            },
            _ => Err(MalformedRecord),
        },
    }
}

fn get_roles(pairs: &Vec<(String, JsonValue)>) -> (r: Result<Vec<String>, MalformedRecord>)
    ensures
        r matches Ok(rs) ==> roles_field(jmodel_pairs(pairs@, 0)) == Some(roles_view(rs@)),
        r is Err ==> roles_field(jmodel_pairs(pairs@, 0)) is None,
{
    let k = String::from_str("roles");
    match tree_get(pairs, &k) {
        None => Err(MalformedRecord),
        Some(v) => match v {
            JsonValue::Arr(items) => {
                proof {
                    lemma_jmodel_list(items@, 0);
                }
                let ghost im = jmodel_list(items@, 0);
                let mut out: Vec<String> = Vec::new();
                let n = items.len();
                let mut i: usize = 0;
                while i < n
                    invariant
                        tree_lookup(jmodel_pairs(pairs@, 0), "roles"@, 0) == Some(
                            JsonModel::Arr(im),
                        ),
                        n == items@.len(),
                        i <= n,
                        im == jmodel_list(items@, 0),
                        im.len() == n,
                        forall|k: int| 0 <= k < n ==> #[trigger] im[k] == jmodel(items@[k]),
                        out@.len() == i,
                        forall|k: int|
                            0 <= k < i ==> #[trigger] im[k] == JsonModel::Str(out@[k]@),
                    decreases n - i,
                {
                    match &items[i] {
                        JsonValue::Str(s) => {
                            out.push(s.clone());
                        },
                        _ => {
                            proof {
                                assert(!(im[i as int] matches JsonModel::Str(_)));
                            }
                            return Err(MalformedRecord);
                        },
                    }
                    i += 1;
                }
                proof {
                    let mapped = im.map_values(
                        |x: JsonModel|
                            match x {
                                JsonModel::Str(s) => s,
                                _ => Seq::<char>::empty(),
                            },
                    );
                    assert(roles_view(out@) =~= mapped);
                }
                Ok(out)
            },
            _ => Err(MalformedRecord),
        },
    }
}

fn shark_from_tree(v: &JsonValue) -> (r: Result<MantaObjectShark, MalformedRecord>)
    ensures
        r matches Ok(s) ==> shark_of_tree(jmodel(*v)) == Some(s@),
        r is Err ==> shark_of_tree(jmodel(*v)) is None,
{
    match v {
        JsonValue::Obj(ps) => {
            let kd = String::from_str("datacenter");
            let ki = String::from_str("manta_storage_id");
            let dc = match get_req_str(ps, &kd) {
                Ok(d) => d,
                Err(e) => {
                    return Err(e);
                },
            };
            let id = match get_req_str(ps, &ki) {
                Ok(d) => d,
                Err(e) => {
                    return Err(e);
                },
            };
            Ok(MantaObjectShark { datacenter: dc, manta_storage_id: id })
        },
        _ => Err(MalformedRecord),
    }
}

fn get_sharks(pairs: &Vec<(String, JsonValue)>) -> (r: Result<
    Vec<MantaObjectShark>,
    MalformedRecord,
>)
    ensures
        r matches Ok(ss) ==> sharks_field(jmodel_pairs(pairs@, 0)) == Some(
            ss@.map_values(|s: MantaObjectShark| s@),
        ),
        r is Err ==> sharks_field(jmodel_pairs(pairs@, 0)) is None,
{
    let k = String::from_str("sharks");
    match tree_get(pairs, &k) {
        None => {
            let out: Vec<MantaObjectShark> = Vec::new();
            proof {
                assert(out@.map_values(|s: MantaObjectShark| s@) =~= Seq::<SharkModel>::empty());
            }
            Ok(out)
        },
        Some(v) => match v {
            JsonValue::Arr(items) => {
                proof {
                    lemma_jmodel_list(items@, 0);
                }
                let ghost im = jmodel_list(items@, 0);
                let mut out: Vec<MantaObjectShark> = Vec::new();
                let n = items.len();
                let mut i: usize = 0;
                while i < n
                    invariant
                        tree_lookup(jmodel_pairs(pairs@, 0), "sharks"@, 0) == Some(
                            JsonModel::Arr(im),
                        ),
                        n == items@.len(),
                        i <= n,
                        im == jmodel_list(items@, 0),
                        im.len() == n,
                        forall|k: int| 0 <= k < n ==> #[trigger] im[k] == jmodel(items@[k]),
                        out@.len() == i,
                        forall|k: int|
                            0 <= k < i ==> shark_of_tree(#[trigger] im[k]) == Some(out@[k]@),
                    decreases n - i,
                {
                    match shark_from_tree(&items[i]) {
                        Ok(s) => {
                            out.push(s);
                        },
                        Err(e) => {
                            proof {
                                assert(shark_of_tree(im[i as int]) is None);
                            }
                            return Err(e);
                        },
                    }
                    i += 1;
                }
                proof {
                    let mapped = im.map_values(|x: JsonModel| value_of(shark_of_tree(x)));
                    assert(out@.map_values(|s: MantaObjectShark| s@) =~= mapped);
                }
                Ok(out)
            },
            _ => Err(MalformedRecord),
        },
    }
}

impl MantaObject {
    /// Read a file-object record out of the pairs of a map of the external
    /// format, honouring aliases and defaults.
    pub fn from_pairs(pairs: &Vec<(String, JsonValue)>) -> (r: Result<MantaObject, MalformedRecord>)
        ensures
            r matches Ok(o) ==> obj_of_pairs(jmodel_pairs(pairs@, 0)) == Some(o@),
            r is Err ==> obj_of_pairs(jmodel_pairs(pairs@, 0)) is None,
    {
        let headers = match get_headers(pairs) {
            Ok(h) => h,
            Err(e) => {
                return Err(e);
            },
        };
        let key = match get_req_str(pairs, &String::from_str("key")) {
            Ok(s) => s,
            Err(e) => {
                return Err(e);
            },
        };
        let mtime = match get_req_u64(pairs, &String::from_str("mtime")) {
            Ok(n) => n,
            Err(e) => {
                return Err(e);
            },
        };
        let name = match get_req_str(pairs, &String::from_str("name")) {
            Ok(s) => s,
            Err(e) => {
                return Err(e);
            },
        };
        let creator = match get_req_str(pairs, &String::from_str("creator")) {
            Ok(s) => s,
            Err(e) => {
                return Err(e);
            },
        };
        let dirname = match get_req_str(pairs, &String::from_str("dirname")) {
            Ok(s) => s,
            Err(e) => {
                return Err(e);
            },
        };
        let owner = match get_req_str(pairs, &String::from_str("owner")) {
            Ok(s) => s,
            Err(e) => {
                return Err(e);
            },
        };
        let roles = match get_roles(pairs) {
            Ok(rs) => rs,
            Err(e) => {
                return Err(e);
            },
        };
        let vnode = match get_req_u64(pairs, &String::from_str("vnode")) {
            Ok(n) => n,
            Err(e) => {
                return Err(e);
            },
        };
        let content_length = match get_opt_u64(pairs, &String::from_str("contentLength")) {
            Ok(n) => n,
            Err(e) => {
                return Err(e);
            },
        };
        let content_md5 = match get_opt_str2(
            pairs,
            &String::from_str("contentMd5"),
            &String::from_str("contentMD5"),
        ) {
            Ok(s) => s,
            Err(e) => {
                return Err(e);
            },
        };
        let content_type = match get_opt_str(pairs, &String::from_str("contentType")) {
            Ok(s) => s,
            Err(e) => {
                return Err(e);
            },
        };
        let object_id = match get_opt_str(pairs, &String::from_str("objectId")) {
            Ok(s) => s,
            Err(e) => {
                return Err(e);
            },
        };
        let etag = match get_opt_str(pairs, &String::from_str("etag")) {
            Ok(s) => s,
            Err(e) => {
                return Err(e);
            },
        };
        let sharks = match get_sharks(pairs) {
            Ok(ss) => ss,
            Err(e) => {
                return Err(e);
            },
        };
        let obj_type = match get_opt_str2(
            pairs,
            &String::from_str("objType"),
            &String::from_str("type"),
        ) {
            Ok(s) => s,
            Err(e) => {
                return Err(e);
            },
        };
        Ok(
            MantaObject {
                headers,
                key,
                mtime,
                name,
                creator,
                dirname,
                owner,
                roles,
                vnode,
                content_length,
                content_md5,
                content_type,
                object_id,
                etag,
                sharks,
                obj_type,
            },
        )
    }

    /// Read a file-object record out of a tree of the external format.
    pub fn from_tree(v: &JsonValue) -> (r: Result<MantaObject, MalformedRecord>)
        ensures
            r matches Ok(o) ==> obj_of_tree(jmodel(*v)) == Some(o@),
            r is Err ==> obj_of_tree(jmodel(*v)) is None,
    {
        match v {
            JsonValue::Obj(pairs) => MantaObject::from_pairs(pairs),
            _ => Err(MalformedRecord),
        }
    }
}

impl MantaDirectory {
    /// Read a directory record out of the pairs of a map of the external
    /// format; every field is required.
    pub fn from_pairs(pairs: &Vec<(String, JsonValue)>) -> (r: Result<
        MantaDirectory,
        MalformedRecord,
    >)
        ensures
            r matches Ok(d) ==> dir_of_pairs(jmodel_pairs(pairs@, 0)) == Some(d@),
            r is Err ==> dir_of_pairs(jmodel_pairs(pairs@, 0)) is None,
    {
        let creator = match get_req_str(pairs, &String::from_str("creator")) {
            Ok(s) => s,
            Err(e) => {
                return Err(e);
            },
        };
        let dirname = match get_req_str(pairs, &String::from_str("dirname")) {
            Ok(s) => s,
            Err(e) => {
                return Err(e);
            },
        };
        let headers = match get_headers(pairs) {
            Ok(h) => h,
            Err(e) => {
                return Err(e);
            },
        };
        let key = match get_req_str(pairs, &String::from_str("key")) {
            Ok(s) => s,
            Err(e) => {
                return Err(e);
            },
        };
        let mtime = match get_req_u64(pairs, &String::from_str("mtime")) {
            Ok(n) => n,
            Err(e) => {
                return Err(e);
            },
        };
        let name = match get_req_str(pairs, &String::from_str("name")) {
            Ok(s) => s,
            Err(e) => {
                return Err(e);
            },
        };
        let owner = match get_req_str(pairs, &String::from_str("owner")) {
            Ok(s) => s,
            Err(e) => {
                return Err(e);
            },
        };
        let roles = match get_roles(pairs) {
            Ok(rs) => rs,
            Err(e) => {
                return Err(e);
            },
        };
        let vnode = match get_req_u64(pairs, &String::from_str("vnode")) {
            Ok(n) => n,
            Err(e) => {
                return Err(e);
            },
        };
        Ok(MantaDirectory { creator, dirname, headers, key, mtime, name, owner, roles, vnode })
    }

    /// Read a directory record out of a tree of the external format.
    pub fn from_tree(v: &JsonValue) -> (r: Result<MantaDirectory, MalformedRecord>)
        ensures
            r matches Ok(d) ==> dir_of_tree(jmodel(*v)) == Some(d@),
            r is Err ==> dir_of_tree(jmodel(*v)) is None,
    {
        match v {
            JsonValue::Obj(pairs) => MantaDirectory::from_pairs(pairs),
            _ => Err(MalformedRecord),
        }
    }
}

impl ObjectType {
    /// Read the tagged union out of a tree: dispatch on the `type`
    /// discriminator, accepting `Object`/`object` and
    /// `Directory`/`directory` exactly.
    pub fn from_tree(v: &JsonValue) -> (r: Result<ObjectType, MalformedRecord>)
        ensures
            r matches Ok(o) ==> type_of_tree(jmodel(*v)) == Some(o@),
            r is Err ==> type_of_tree(jmodel(*v)) is None,
    {
        match v {
            JsonValue::Obj(pairs) => {
                let kt = String::from_str("type");
                match tree_get(pairs, &kt) {
                    Some(tv) => match tv {
                        JsonValue::Str(tag) => {
                            let is_obj = *tag == String::from_str("Object") || *tag
                                == String::from_str("object");
                            if is_obj {
                                match MantaObject::from_pairs(pairs) {
                                    Ok(o) => Ok(ObjectType::Object(o)),
                                    Err(e) => Err(e),
                                }
                            } else {
                                let is_dir = *tag == String::from_str("Directory") || *tag
                                    == String::from_str("directory");
                                if is_dir {
                                    match MantaDirectory::from_pairs(pairs) {
                                        Ok(d) => Ok(ObjectType::Directory(d)),
                                        Err(e) => Err(e),
                                    }
                                } else {
                                    Err(MalformedRecord)
                                }
                            }
                        },
                        _ => Err(MalformedRecord),
                    },
                    None => Err(MalformedRecord),
                }
            },
            _ => Err(MalformedRecord),
        }
    }
}

// ---------------------------------------------------------------------------
// Writing a record into a tree
// ---------------------------------------------------------------------------
fn headers_to_tree(hs: &Vec<(String, String)>) -> (j: JsonValue)
    ensures
        jmodel(j) == headers_tree(headers_view(hs@)),
{
    let mut out: Vec<(String, JsonValue)> = Vec::new();
    let n = hs.len();
    let mut i: usize = 0;
    while i < n
        invariant
            n == hs@.len(),
            i <= n,
            out@.len() == i,
            forall|k: int|
                0 <= k < i ==> #[trigger] out@[k].0@ == hs@[k].0@ && jmodel(out@[k].1)
                    == JsonModel::Str(hs@[k].1@),
        decreases n - i,
    {
        out.push((hs[i].0.clone(), JsonValue::Str(hs[i].1.clone())));
        i += 1;
    }
    let j = JsonValue::Obj(out);
    proof {
        lemma_jmodel_pairs(j->Obj_0@, 0);
        let target = headers_view(hs@).map_values(
            |p: (Seq<char>, Seq<char>)| (p.0, JsonModel::Str(p.1)),
        );
        assert(jmodel_pairs(j->Obj_0@, 0) =~= target);
    }
    j
}

fn roles_to_tree(rs: &Vec<String>) -> (j: JsonValue)
    ensures
        jmodel(j) == roles_tree(roles_view(rs@)),
{
    let mut out: Vec<JsonValue> = Vec::new();
    let n = rs.len();
    let mut i: usize = 0;
    while i < n
        invariant
            n == rs@.len(),
            i <= n,
            out@.len() == i,
            forall|k: int| 0 <= k < i ==> jmodel(#[trigger] out@[k]) == JsonModel::Str(rs@[k]@),
        decreases n - i,
    {
        out.push(JsonValue::Str(rs[i].clone()));
        i += 1;
    }
    let j = JsonValue::Arr(out);
    proof {
        lemma_jmodel_list(j->Arr_0@, 0);
        let target = roles_view(rs@).map_values(|r: Seq<char>| JsonModel::Str(r));
        assert(jmodel_list(j->Arr_0@, 0) =~= target);
    }
    j
}

impl MantaObjectShark {
    /// Write this storage-location record as a tree of the external format.
    pub fn to_tree(&self) -> (j: JsonValue)
        ensures
            jmodel(j) == shark_tree(self@),
    {
        let mut out: Vec<(String, JsonValue)> = Vec::new();
        out.push((String::from_str("datacenter"), JsonValue::Str(self.datacenter.clone())));
        out.push(
            (String::from_str("manta_storage_id"), JsonValue::Str(self.manta_storage_id.clone())),
        );
        let j = JsonValue::Obj(out);
        proof {
            lemma_jmodel_pairs(j->Obj_0@, 0);
            assert(jmodel_pairs(j->Obj_0@, 0) =~= shark_tree(self@)->Obj_0);
        }
        j
    }
}

fn sharks_to_tree(ss: &Vec<MantaObjectShark>) -> (j: JsonValue)
    ensures
        jmodel(j) == sharks_tree(ss@.map_values(|s: MantaObjectShark| s@)),
{
    let mut out: Vec<JsonValue> = Vec::new();
    let n = ss.len();
    let mut i: usize = 0;
    while i < n
        invariant
            n == ss@.len(),
            i <= n,
            out@.len() == i,
            forall|k: int| 0 <= k < i ==> jmodel(#[trigger] out@[k]) == shark_tree(ss@[k]@),
        decreases n - i,
    {
        out.push(ss[i].to_tree());
        i += 1;
    }
    let j = JsonValue::Arr(out);
    proof {
        lemma_jmodel_list(j->Arr_0@, 0);
        let target = ss@.map_values(|s: MantaObjectShark| s@).map_values(
            |s: SharkModel| shark_tree(s),
        );
        assert(jmodel_list(j->Arr_0@, 0) =~= target);
    }
    j
}

impl MantaObject {
    /// The pairs of this record's canonical map of the external format, in
    /// canonical field order.
    pub fn to_pairs(&self) -> (ps: Vec<(String, JsonValue)>)
        ensures
            jmodel_pairs(ps@, 0) == obj_pairs(self@),
    {
        let mut out: Vec<(String, JsonValue)> = Vec::new();
        out.push((String::from_str("headers"), headers_to_tree(&self.headers)));
        out.push((String::from_str("key"), JsonValue::Str(self.key.clone())));
        out.push((String::from_str("mtime"), JsonValue::UInt(self.mtime)));
        out.push((String::from_str("name"), JsonValue::Str(self.name.clone())));
        out.push((String::from_str("creator"), JsonValue::Str(self.creator.clone())));
        out.push((String::from_str("dirname"), JsonValue::Str(self.dirname.clone())));
        out.push((String::from_str("owner"), JsonValue::Str(self.owner.clone())));
        out.push((String::from_str("roles"), roles_to_tree(&self.roles)));
        out.push((String::from_str("vnode"), JsonValue::UInt(self.vnode)));
        out.push((String::from_str("contentLength"), JsonValue::UInt(self.content_length)));
        out.push((String::from_str("contentMd5"), JsonValue::Str(self.content_md5.clone())));
        out.push((String::from_str("contentType"), JsonValue::Str(self.content_type.clone())));
        out.push((String::from_str("objectId"), JsonValue::Str(self.object_id.clone())));
        out.push((String::from_str("etag"), JsonValue::Str(self.etag.clone())));
        out.push((String::from_str("sharks"), sharks_to_tree(&self.sharks)));
        out.push((String::from_str("objType"), JsonValue::Str(self.obj_type.clone())));
        proof {
            lemma_jmodel_pairs(out@, 0);
            assert(jmodel_pairs(out@, 0) =~= obj_pairs(self@));
        }
        out
    }

    /// Write this record as a tree of the external format.
    pub fn to_tree(&self) -> (j: JsonValue)
        ensures
            jmodel(j) == obj_tree(self@),
    {
        JsonValue::Obj(self.to_pairs())
    }
}

impl MantaDirectory {
    /// The pairs of this record's canonical map of the external format, in
    /// canonical field order.
    pub fn to_pairs(&self) -> (ps: Vec<(String, JsonValue)>)
        ensures
            jmodel_pairs(ps@, 0) == dir_pairs(self@),
    {
        let mut out: Vec<(String, JsonValue)> = Vec::new();
        out.push((String::from_str("creator"), JsonValue::Str(self.creator.clone())));
        out.push((String::from_str("dirname"), JsonValue::Str(self.dirname.clone())));
        out.push((String::from_str("headers"), headers_to_tree(&self.headers)));
        out.push((String::from_str("key"), JsonValue::Str(self.key.clone())));
        out.push((String::from_str("mtime"), JsonValue::UInt(self.mtime)));
        out.push((String::from_str("name"), JsonValue::Str(self.name.clone())));
        out.push((String::from_str("owner"), JsonValue::Str(self.owner.clone())));
        out.push((String::from_str("roles"), roles_to_tree(&self.roles)));
        out.push((String::from_str("vnode"), JsonValue::UInt(self.vnode)));
        proof {
            lemma_jmodel_pairs(out@, 0);
            assert(jmodel_pairs(out@, 0) =~= dir_pairs(self@));
        }
        out
    }

    /// Write this record as a tree of the external format.
    pub fn to_tree(&self) -> (j: JsonValue)
        ensures
            jmodel(j) == dir_tree(self@),
    {
        JsonValue::Obj(self.to_pairs())
    }
}

impl ObjectType {
    /// Write the tagged union as a tree: the discriminator pair first, then
    /// the variant's own fields.
    pub fn to_tree(&self) -> (j: JsonValue)
        ensures
            jmodel(j) == type_tree(self@),
    {
        match self {
            ObjectType::Object(o) => {
                let mut out: Vec<(String, JsonValue)> = Vec::new();
                out.push((String::from_str("type"), JsonValue::Str(String::from_str("Object"))));
                let mut rest = o.to_pairs();
                let ghost restv = rest@;
                out.append(&mut rest);
                let j = JsonValue::Obj(out);
                proof {
                    lemma_jmodel_pairs(j->Obj_0@, 0);
                    lemma_jmodel_pairs(restv, 0);
                    assert(jmodel_pairs(j->Obj_0@, 0) =~= seq![
                        ("type"@, JsonModel::Str("Object"@)),
                    ] + obj_pairs(o@));
                }
                j
            },
            ObjectType::Directory(d) => {
                let mut out: Vec<(String, JsonValue)> = Vec::new();
                out.push(
                    (String::from_str("type"), JsonValue::Str(String::from_str("Directory"))),
                );
                let mut rest = d.to_pairs();
                let ghost restv = rest@;
                out.append(&mut rest);
                let j = JsonValue::Obj(out);
                proof {
                    lemma_jmodel_pairs(j->Obj_0@, 0);
                    lemma_jmodel_pairs(restv, 0);
                    assert(jmodel_pairs(j->Obj_0@, 0) =~= seq![
                        ("type"@, JsonModel::Str("Directory"@)),
                    ] + dir_pairs(d@));
                }
                j
            },
        }
    }
}

// ---------------------------------------------------------------------------
// Zero values
// ---------------------------------------------------------------------------
pub open spec fn shark_default_model() -> SharkModel {
    SharkModel { datacenter: Seq::empty(), manta_storage_id: Seq::empty() }
}

pub open spec fn obj_default_model() -> ObjectModel {
    ObjectModel {
        headers: Seq::empty(),
        key: Seq::empty(),
        mtime: 0,
        name: Seq::empty(),
        creator: Seq::empty(),
        dirname: Seq::empty(),
        owner: Seq::empty(),
        roles: Seq::empty(),
        vnode: 0,
        content_length: 0,
        content_md5: Seq::empty(),
        content_type: Seq::empty(),
        object_id: Seq::empty(),
        etag: Seq::empty(),
        sharks: Seq::empty(),
        obj_type: Seq::empty(),
    }
}

pub open spec fn dir_default_model() -> DirectoryModel {
    DirectoryModel {
        creator: Seq::empty(),
        dirname: Seq::empty(),
        headers: Seq::empty(),
        key: Seq::empty(),
        mtime: 0,
        name: Seq::empty(),
        owner: Seq::empty(),
        roles: Seq::empty(),
        vnode: 0,
    }
}

impl Default for MantaObjectShark {
    /// The zero value: empty strings.
    fn default() -> (r: Self)
        ensures
            r@ == shark_default_model(),
    {
        let r = MantaObjectShark { datacenter: String::new(), manta_storage_id: String::new() };
        proof {
            assert(r@ =~= shark_default_model());
        }
        r
    }
}

impl Default for MantaObject {
    /// The zero value: empty strings, zero integers, empty sequences.
    fn default() -> (r: Self)
        ensures
            r@ == obj_default_model(),
    {
        let r = MantaObject {
            headers: Vec::new(),
            key: String::new(),
            mtime: 0,
            name: String::new(),
            creator: String::new(),
            dirname: String::new(),
            owner: String::new(),
            roles: Vec::new(),
            vnode: 0,
            content_length: 0,
            content_md5: String::new(),
            content_type: String::new(),
            object_id: String::new(),
            etag: String::new(),
            sharks: Vec::new(),
            obj_type: String::new(),
        };
        proof {
            assert(r@ =~= obj_default_model());
        }
        r
    }
}

impl Default for MantaDirectory {
    /// The zero value: empty strings, zero integers, empty sequences.
    fn default() -> (r: Self)
        ensures
            r@ == dir_default_model(),
    {
        let r = MantaDirectory {
            creator: String::new(),
            dirname: String::new(),
            headers: Vec::new(),
            key: String::new(),
            mtime: 0,
            name: String::new(),
            owner: String::new(),
            roles: Vec::new(),
            vnode: 0,
        };
        proof {
            assert(r@ =~= dir_default_model());
        }
        r
    }
}

// ---------------------------------------------------------------------------
// Laws of the conversion
// ---------------------------------------------------------------------------
proof fn lemma_lookup_shift(
    p: (Seq<char>, JsonModel),
    ps: Seq<(Seq<char>, JsonModel)>,
    k: Seq<char>,
    i: int,
)
    requires
        0 <= i,
    ensures
        tree_lookup(seq![p] + ps, k, i + 1) == tree_lookup(ps, k, i),
    decreases ps.len() - i,
{
    let full = seq![p] + ps;
    if i < ps.len() {
        assert(full[i + 1] == ps[i]);
        lemma_lookup_shift(p, ps, k, i + 1);
    }
}

/// Looking a key up in a map with one pair prepended: the new pair answers
/// for its own key and every other key falls through.
pub proof fn lemma_lookup_cons(
    p: (Seq<char>, JsonModel),
    ps: Seq<(Seq<char>, JsonModel)>,
    k: Seq<char>,
)
    ensures
        tree_lookup(seq![p] + ps, k, 0) == if p.0 == k {
            Some(p.1)
        } else {
            tree_lookup(ps, k, 0)
        },
{
    let full = seq![p] + ps;
    assert(full[0] == p);
    lemma_lookup_shift(p, ps, k, 0);
}

/// A key that first occurs at index `n` answers the lookup.
proof fn lemma_lookup_at(ps: Seq<(Seq<char>, JsonModel)>, k: Seq<char>, i: int, n: int)
    requires
        0 <= i <= n < ps.len(),
        forall|j: int| i <= j < n ==> (#[trigger] ps[j]).0 != k,
        ps[n].0 == k,
    ensures
        tree_lookup(ps, k, i) == Some(ps[n].1),
    decreases n - i,
{
    if i < n {
        lemma_lookup_at(ps, k, i + 1, n);
    }
}

proof fn lemma_headers_model_round(hs: Seq<(Seq<char>, Seq<char>)>)
    ensures
        headers_model(headers_tree(hs)) == Some(hs),
{
    let mapped = hs.map_values(|p: (Seq<char>, Seq<char>)| (p.0, JsonModel::Str(p.1)));
    assert(forall|k: int|
        0 <= k < mapped.len() ==> (#[trigger] mapped[k].1) matches JsonModel::Str(_));
    let back = mapped.map_values(
        |p: (Seq<char>, JsonModel)|
            (
                p.0,
                match p.1 {
                    JsonModel::Str(s) => s,
                    _ => Seq::<char>::empty(),
                },
            ),
    );
    assert(back =~= hs);
}

proof fn lemma_roles_model_round(rs: Seq<Seq<char>>)
    ensures
        roles_model(roles_tree(rs)) == Some(rs),
{
    let mapped = rs.map_values(|r: Seq<char>| JsonModel::Str(r));
    assert(forall|k: int| 0 <= k < mapped.len() ==> (#[trigger] mapped[k]) matches JsonModel::Str(
        _,
    ));
    let back = mapped.map_values(
        |x: JsonModel|
            match x {
                JsonModel::Str(s) => s,
                _ => Seq::<char>::empty(),
            },
    );
    assert(back =~= rs);
}

proof fn lemma_shark_model_round(s: SharkModel)
    ensures
        shark_of_tree(shark_tree(s)) == Some(s),
{
    reveal_strlit("datacenter");
    reveal_strlit("manta_storage_id");
    assert("datacenter"@.len() == 10);
    assert("manta_storage_id"@.len() == 16);
    assert("datacenter"@ != "manta_storage_id"@);
    let ps = shark_tree(s)->Obj_0;
    assert(ps[0] == ("datacenter"@, JsonModel::Str(s.datacenter)));
    assert(ps[1] == ("manta_storage_id"@, JsonModel::Str(s.manta_storage_id)));
    assert(tree_lookup(ps, "datacenter"@, 0) == Some(JsonModel::Str(s.datacenter)));
    assert(tree_lookup(ps, "manta_storage_id"@, 1) == Some(JsonModel::Str(s.manta_storage_id)));
    assert(tree_lookup(ps, "manta_storage_id"@, 0) == Some(JsonModel::Str(s.manta_storage_id)));
    assert(shark_of_tree(shark_tree(s)) == Some(
        SharkModel {
            datacenter: value_of(req_str(ps, "datacenter"@)),
            manta_storage_id: value_of(req_str(ps, "manta_storage_id"@)),
        },
    ));
    assert(value_of(req_str(ps, "datacenter"@)) == s.datacenter);
}

proof fn lemma_sharks_model_round(ss: Seq<SharkModel>)
    ensures
        sharks_model(sharks_tree(ss)) == Some(ss),
{
    let mapped = ss.map_values(|s: SharkModel| shark_tree(s));
    assert forall|k: int| 0 <= k < mapped.len() implies shark_of_tree(
        #[trigger] mapped[k],
    ) is Some by {
        lemma_shark_model_round(ss[k]);
    }
    let back = mapped.map_values(|x: JsonModel| value_of(shark_of_tree(x)));
    assert forall|k: int| 0 <= k < back.len() implies #[trigger] back[k] == ss[k] by {
        lemma_shark_model_round(ss[k]);
    }
    assert(back =~= ss);
}

#[verifier::rlimit(100)]
proof fn lemma_obj_pairs_fields(m: ObjectModel)
    ensures
        headers_field(obj_pairs(m)) == Some(m.headers),
        req_str(obj_pairs(m), "key"@) == Some(m.key),
        req_u64(obj_pairs(m), "mtime"@) == Some(m.mtime),
        req_str(obj_pairs(m), "name"@) == Some(m.name),
        req_str(obj_pairs(m), "creator"@) == Some(m.creator),
        req_str(obj_pairs(m), "dirname"@) == Some(m.dirname),
        req_str(obj_pairs(m), "owner"@) == Some(m.owner),
        roles_field(obj_pairs(m)) == Some(m.roles),
        req_u64(obj_pairs(m), "vnode"@) == Some(m.vnode),
        opt_u64(obj_pairs(m), "contentLength"@) == Some(m.content_length),
        opt_str2(obj_pairs(m), "contentMd5"@, "contentMD5"@) == Some(m.content_md5),
        opt_str(obj_pairs(m), "contentType"@) == Some(m.content_type),
        opt_str(obj_pairs(m), "objectId"@) == Some(m.object_id),
        opt_str(obj_pairs(m), "etag"@) == Some(m.etag),
        sharks_field(obj_pairs(m)) == Some(m.sharks),
        opt_str2(obj_pairs(m), "objType"@, "type"@) == Some(m.obj_type),
        tree_lookup(obj_pairs(m), "contentMd5"@, 0) == Some(JsonModel::Str(m.content_md5)),
        tree_lookup(obj_pairs(m), "objType"@, 0) == Some(JsonModel::Str(m.obj_type)),
{
    reveal_strlit("headers");
    reveal_strlit("key");
    reveal_strlit("mtime");
    reveal_strlit("name");
    reveal_strlit("creator");
    reveal_strlit("dirname");
    reveal_strlit("owner");
    reveal_strlit("roles");
    reveal_strlit("vnode");
    reveal_strlit("contentLength");
    reveal_strlit("contentMd5");
    reveal_strlit("contentMD5");
    reveal_strlit("contentType");
    reveal_strlit("objectId");
    reveal_strlit("etag");
    reveal_strlit("sharks");
    reveal_strlit("objType");
    reveal_strlit("type");
    assert("headers"@[0] == 'h');
    assert("creator"@[0] == 'c');
    assert("dirname"@[0] == 'd');
    assert("objType"@[0] == 'o');
    assert("mtime"@[0] == 'm');
    assert("owner"@[0] == 'o');
    assert("roles"@[0] == 'r');
    assert("vnode"@[0] == 'v');
    assert("name"@[0] == 'n');
    assert("etag"@[0] == 'e');
    assert("type"@[0] == 't');
    assert("contentMd5"@[8] == 'd');
    assert("contentMD5"@[8] == 'D');
    lemma_headers_model_round(m.headers);
    lemma_roles_model_round(m.roles);
    lemma_sharks_model_round(m.sharks);
    let ps = obj_pairs(m);
    assert(ps[0].0 == "headers"@);
    assert(ps[1].0 == "key"@);
    assert(ps[2].0 == "mtime"@);
    assert(ps[3].0 == "name"@);
    assert(ps[4].0 == "creator"@);
    assert(ps[5].0 == "dirname"@);
    assert(ps[6].0 == "owner"@);
    assert(ps[7].0 == "roles"@);
    assert(ps[8].0 == "vnode"@);
    assert(ps[9].0 == "contentLength"@);
    assert(ps[10].0 == "contentMd5"@);
    assert(ps[11].0 == "contentType"@);
    assert(ps[12].0 == "objectId"@);
    assert(ps[13].0 == "etag"@);
    assert(ps[14].0 == "sharks"@);
    assert(ps[15].0 == "objType"@);
    lemma_lookup_at(ps, "headers"@, 0, 0);
    lemma_lookup_at(ps, "key"@, 0, 1);
    lemma_lookup_at(ps, "mtime"@, 0, 2);
    lemma_lookup_at(ps, "name"@, 0, 3);
    lemma_lookup_at(ps, "creator"@, 0, 4);
    lemma_lookup_at(ps, "dirname"@, 0, 5);
    lemma_lookup_at(ps, "owner"@, 0, 6);
    lemma_lookup_at(ps, "roles"@, 0, 7);
    lemma_lookup_at(ps, "vnode"@, 0, 8);
    lemma_lookup_at(ps, "contentLength"@, 0, 9);
    lemma_lookup_at(ps, "contentMd5"@, 0, 10);
    lemma_lookup_at(ps, "contentType"@, 0, 11);
    lemma_lookup_at(ps, "objectId"@, 0, 12);
    lemma_lookup_at(ps, "etag"@, 0, 13);
    lemma_lookup_at(ps, "sharks"@, 0, 14);
    lemma_lookup_at(ps, "objType"@, 0, 15);
    assert(tree_lookup(ps, "headers"@, 0) == Some(headers_tree(m.headers)));
    assert(tree_lookup(ps, "key"@, 0) == Some(JsonModel::Str(m.key)));
    assert(tree_lookup(ps, "mtime"@, 0) == Some(JsonModel::UInt(m.mtime)));
    assert(tree_lookup(ps, "name"@, 0) == Some(JsonModel::Str(m.name)));
    assert(tree_lookup(ps, "creator"@, 0) == Some(JsonModel::Str(m.creator)));
    assert(tree_lookup(ps, "dirname"@, 0) == Some(JsonModel::Str(m.dirname)));
    assert(tree_lookup(ps, "owner"@, 0) == Some(JsonModel::Str(m.owner)));
    assert(tree_lookup(ps, "roles"@, 0) == Some(roles_tree(m.roles)));
    assert(tree_lookup(ps, "vnode"@, 0) == Some(JsonModel::UInt(m.vnode)));
    assert(tree_lookup(ps, "contentLength"@, 0) == Some(JsonModel::UInt(m.content_length)));
    assert(tree_lookup(ps, "contentMd5"@, 0) == Some(JsonModel::Str(m.content_md5)));
    assert(tree_lookup(ps, "contentType"@, 0) == Some(JsonModel::Str(m.content_type)));
    assert(tree_lookup(ps, "objectId"@, 0) == Some(JsonModel::Str(m.object_id)));
    assert(tree_lookup(ps, "etag"@, 0) == Some(JsonModel::Str(m.etag)));
    assert(tree_lookup(ps, "sharks"@, 0) == Some(sharks_tree(m.sharks)));
    assert(tree_lookup(ps, "objType"@, 0) == Some(JsonModel::Str(m.obj_type)));
}

#[verifier::rlimit(100)]
proof fn lemma_dir_pairs_fields(m: DirectoryModel)
    ensures
        req_str(dir_pairs(m), "creator"@) == Some(m.creator),
        req_str(dir_pairs(m), "dirname"@) == Some(m.dirname),
        headers_field(dir_pairs(m)) == Some(m.headers),
        req_str(dir_pairs(m), "key"@) == Some(m.key),
        req_u64(dir_pairs(m), "mtime"@) == Some(m.mtime),
        req_str(dir_pairs(m), "name"@) == Some(m.name),
        req_str(dir_pairs(m), "owner"@) == Some(m.owner),
        roles_field(dir_pairs(m)) == Some(m.roles),
        req_u64(dir_pairs(m), "vnode"@) == Some(m.vnode),
{
    reveal_strlit("headers");
    reveal_strlit("key");
    reveal_strlit("mtime");
    reveal_strlit("name");
    reveal_strlit("creator");
    reveal_strlit("dirname");
    reveal_strlit("owner");
    reveal_strlit("roles");
    reveal_strlit("vnode");
    reveal_strlit("contentLength");
    reveal_strlit("contentMd5");
    reveal_strlit("contentMD5");
    reveal_strlit("contentType");
    reveal_strlit("objectId");
    reveal_strlit("etag");
    reveal_strlit("sharks");
    reveal_strlit("objType");
    reveal_strlit("type");
    assert("headers"@[0] == 'h');
    assert("creator"@[0] == 'c');
    assert("dirname"@[0] == 'd');
    assert("objType"@[0] == 'o');
    assert("mtime"@[0] == 'm');
    assert("owner"@[0] == 'o');
    assert("roles"@[0] == 'r');
    assert("vnode"@[0] == 'v');
    assert("name"@[0] == 'n');
    assert("etag"@[0] == 'e');
    assert("type"@[0] == 't');
    assert("contentMd5"@[8] == 'd');
    assert("contentMD5"@[8] == 'D');
    lemma_headers_model_round(m.headers);
    lemma_roles_model_round(m.roles);
    let ps = dir_pairs(m);
    assert(ps[0].0 == "creator"@);
    assert(ps[1].0 == "dirname"@);
    assert(ps[2].0 == "headers"@);
    assert(ps[3].0 == "key"@);
    assert(ps[4].0 == "mtime"@);
    assert(ps[5].0 == "name"@);
    assert(ps[6].0 == "owner"@);
    assert(ps[7].0 == "roles"@);
    assert(ps[8].0 == "vnode"@);
    lemma_lookup_at(ps, "creator"@, 0, 0);
    lemma_lookup_at(ps, "dirname"@, 0, 1);
    lemma_lookup_at(ps, "headers"@, 0, 2);
    lemma_lookup_at(ps, "key"@, 0, 3);
    lemma_lookup_at(ps, "mtime"@, 0, 4);
    lemma_lookup_at(ps, "name"@, 0, 5);
    lemma_lookup_at(ps, "owner"@, 0, 6);
    lemma_lookup_at(ps, "roles"@, 0, 7);
    lemma_lookup_at(ps, "vnode"@, 0, 8);
    assert(tree_lookup(ps, "creator"@, 0) == Some(JsonModel::Str(m.creator)));
    assert(tree_lookup(ps, "dirname"@, 0) == Some(JsonModel::Str(m.dirname)));
    assert(tree_lookup(ps, "headers"@, 0) == Some(headers_tree(m.headers)));
    assert(tree_lookup(ps, "key"@, 0) == Some(JsonModel::Str(m.key)));
    assert(tree_lookup(ps, "mtime"@, 0) == Some(JsonModel::UInt(m.mtime)));
    assert(tree_lookup(ps, "name"@, 0) == Some(JsonModel::Str(m.name)));
    assert(tree_lookup(ps, "owner"@, 0) == Some(JsonModel::Str(m.owner)));
    assert(tree_lookup(ps, "roles"@, 0) == Some(roles_tree(m.roles)));
    assert(tree_lookup(ps, "vnode"@, 0) == Some(JsonModel::UInt(m.vnode)));
}

/// Reading back the canonical tree of a file-object record reproduces the
/// record exactly.
pub proof fn lemma_obj_round_trip(m: ObjectModel)
    ensures
        obj_of_tree(obj_tree(m)) == Some(m),
{
    lemma_obj_pairs_fields(m);
    assert(obj_of_pairs(obj_pairs(m)) == Some(m));
}

/// Reading back the canonical tree of a directory record reproduces the
/// record exactly.
pub proof fn lemma_dir_round_trip(m: DirectoryModel)
    ensures
        dir_of_tree(dir_tree(m)) == Some(m),
{
    lemma_dir_pairs_fields(m);
    assert(dir_of_pairs(dir_pairs(m)) == Some(m));
}

/// Reading back the canonical tree of the tagged union reproduces it: the
/// discriminator pair dispatches to the right variant and does not disturb
/// the variant's own fields.
#[verifier::rlimit(100)]
pub proof fn lemma_type_round_trip(m: ObjectTypeModel)
    ensures
        type_of_tree(type_tree(m)) == Some(m),
{
    reveal_strlit("headers");
    reveal_strlit("key");
    reveal_strlit("mtime");
    reveal_strlit("name");
    reveal_strlit("creator");
    reveal_strlit("dirname");
    reveal_strlit("owner");
    reveal_strlit("roles");
    reveal_strlit("vnode");
    reveal_strlit("contentLength");
    reveal_strlit("contentMd5");
    reveal_strlit("contentMD5");
    reveal_strlit("contentType");
    reveal_strlit("objectId");
    reveal_strlit("etag");
    reveal_strlit("sharks");
    reveal_strlit("objType");
    reveal_strlit("type");
    assert("headers"@[0] == 'h');
    assert("creator"@[0] == 'c');
    assert("dirname"@[0] == 'd');
    assert("objType"@[0] == 'o');
    assert("mtime"@[0] == 'm');
    assert("owner"@[0] == 'o');
    assert("roles"@[0] == 'r');
    assert("vnode"@[0] == 'v');
    assert("name"@[0] == 'n');
    assert("etag"@[0] == 'e');
    assert("type"@[0] == 't');
    assert("contentMd5"@[8] == 'd');
    assert("contentMD5"@[8] == 'D');
    match m {
        ObjectTypeModel::Object(om) => {
            let tp = ("type"@, JsonModel::Str("Object"@));
            let full = seq![tp] + obj_pairs(om);
            assert(type_tree(m) == JsonModel::Obj(full));
            lemma_lookup_cons(tp, obj_pairs(om), "type"@);
            assert(tree_lookup(full, "type"@, 0) == Some(JsonModel::Str("Object"@)));
            lemma_obj_pairs_fields(om);
            lemma_lookup_cons(tp, obj_pairs(om), "headers"@);
            lemma_lookup_cons(tp, obj_pairs(om), "key"@);
            lemma_lookup_cons(tp, obj_pairs(om), "mtime"@);
            lemma_lookup_cons(tp, obj_pairs(om), "name"@);
            lemma_lookup_cons(tp, obj_pairs(om), "creator"@);
            lemma_lookup_cons(tp, obj_pairs(om), "dirname"@);
            lemma_lookup_cons(tp, obj_pairs(om), "owner"@);
            lemma_lookup_cons(tp, obj_pairs(om), "roles"@);
            lemma_lookup_cons(tp, obj_pairs(om), "vnode"@);
            lemma_lookup_cons(tp, obj_pairs(om), "contentLength"@);
            lemma_lookup_cons(tp, obj_pairs(om), "contentMd5"@);
            lemma_lookup_cons(tp, obj_pairs(om), "contentType"@);
            lemma_lookup_cons(tp, obj_pairs(om), "objectId"@);
            lemma_lookup_cons(tp, obj_pairs(om), "etag"@);
            lemma_lookup_cons(tp, obj_pairs(om), "sharks"@);
            lemma_lookup_cons(tp, obj_pairs(om), "objType"@);
            assert(headers_field(full) == Some(om.headers));
            assert(req_str(full, "key"@) == Some(om.key));
            assert(req_u64(full, "mtime"@) == Some(om.mtime));
            assert(req_str(full, "name"@) == Some(om.name));
            assert(req_str(full, "creator"@) == Some(om.creator));
            assert(req_str(full, "dirname"@) == Some(om.dirname));
            assert(req_str(full, "owner"@) == Some(om.owner));
            assert(roles_field(full) == Some(om.roles));
            assert(req_u64(full, "vnode"@) == Some(om.vnode));
            assert(opt_u64(full, "contentLength"@) == Some(om.content_length));
            assert(opt_str2(full, "contentMd5"@, "contentMD5"@) == Some(om.content_md5));
            assert(opt_str(full, "contentType"@) == Some(om.content_type));
            assert(opt_str(full, "objectId"@) == Some(om.object_id));
            assert(opt_str(full, "etag"@) == Some(om.etag));
            assert(sharks_field(full) == Some(om.sharks));
            assert(opt_str2(full, "objType"@, "type"@) == Some(om.obj_type));
            assert(obj_of_pairs(full) == Some(om));
            assert(type_of_tree(type_tree(m)) == Some(m));
        },
        ObjectTypeModel::Directory(dm) => {
            let tp = ("type"@, JsonModel::Str("Directory"@));
            let full = seq![tp] + dir_pairs(dm);
            assert(type_tree(m) == JsonModel::Obj(full));
            lemma_lookup_cons(tp, dir_pairs(dm), "type"@);
            assert(tree_lookup(full, "type"@, 0) == Some(JsonModel::Str("Directory"@)));
            reveal_strlit("Directory");
            reveal_strlit("Object");
            reveal_strlit("object");
            assert("Directory"@.len() == 9);
            assert("Object"@.len() == 6);
            assert("object"@.len() == 6);
            lemma_dir_pairs_fields(dm);
            lemma_lookup_cons(tp, dir_pairs(dm), "creator"@);
            lemma_lookup_cons(tp, dir_pairs(dm), "dirname"@);
            lemma_lookup_cons(tp, dir_pairs(dm), "headers"@);
            lemma_lookup_cons(tp, dir_pairs(dm), "key"@);
            lemma_lookup_cons(tp, dir_pairs(dm), "mtime"@);
            lemma_lookup_cons(tp, dir_pairs(dm), "name"@);
            lemma_lookup_cons(tp, dir_pairs(dm), "owner"@);
            lemma_lookup_cons(tp, dir_pairs(dm), "roles"@);
            lemma_lookup_cons(tp, dir_pairs(dm), "vnode"@);
            assert(req_str(full, "creator"@) == Some(dm.creator));
            assert(req_str(full, "dirname"@) == Some(dm.dirname));
            assert(headers_field(full) == Some(dm.headers));
            assert(req_str(full, "key"@) == Some(dm.key));
            assert(req_u64(full, "mtime"@) == Some(dm.mtime));
            assert(req_str(full, "name"@) == Some(dm.name));
            assert(req_str(full, "owner"@) == Some(dm.owner));
            assert(roles_field(full) == Some(dm.roles));
            assert(req_u64(full, "vnode"@) == Some(dm.vnode));
            assert(dir_of_pairs(full) == Some(dm));
            assert(type_of_tree(type_tree(m)) == Some(m));
        },
    }
}

/// The alias of an optional field is interchangeable with its primary name:
/// a value bound to the primary key in one map and to the alias in another
/// yields the same field either way.
pub proof fn lemma_alias_acceptance(
    ps1: Seq<(Seq<char>, JsonModel)>,
    ps2: Seq<(Seq<char>, JsonModel)>,
    k: Seq<char>,
    alias: Seq<char>,
    s: Seq<char>,
)
    requires
        tree_lookup(ps1, k, 0) == Some(JsonModel::Str(s)),
        tree_lookup(ps2, k, 0) is None,
        tree_lookup(ps2, alias, 0) == Some(JsonModel::Str(s)),
    ensures
        opt_str2(ps1, k, alias) == Some(s),
        opt_str2(ps2, k, alias) == Some(s),
{
}

/// Every optional field of a file-object record falls back to its
/// documented default when both its primary key and its alias are absent.
pub proof fn lemma_default_filling(ps: Seq<(Seq<char>, JsonModel)>, m: ObjectModel)
    requires
        obj_of_pairs(ps) == Some(m),
        tree_lookup(ps, "contentLength"@, 0) is None,
        tree_lookup(ps, "contentMd5"@, 0) is None,
        tree_lookup(ps, "contentMD5"@, 0) is None,
        tree_lookup(ps, "contentType"@, 0) is None,
        tree_lookup(ps, "objectId"@, 0) is None,
        tree_lookup(ps, "etag"@, 0) is None,
        tree_lookup(ps, "sharks"@, 0) is None,
        tree_lookup(ps, "objType"@, 0) is None,
        tree_lookup(ps, "type"@, 0) is None,
    ensures
        m.content_length == 0,
        m.content_md5 == Seq::<char>::empty(),
        m.content_type == Seq::<char>::empty(),
        m.object_id == Seq::<char>::empty(),
        m.etag == Seq::<char>::empty(),
        m.sharks == Seq::<SharkModel>::empty(),
        m.obj_type == Seq::<char>::empty(),
{
}

} // verus!
