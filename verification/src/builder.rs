//! Generative instance builder: structurally valid random records, built by
//! guaranteed-valid composition rather than generate-then-validate.
//!
//! The caller supplies the randomness as an `EntropySource`; nothing is
//! assumed about its output, so every guarantee below holds whatever the
//! source returns.

use vstd::prelude::*;
use crate::ident::{
    is_storage_id, is_token_char, is_uuid_text, storage_id_form,
};
use crate::json::{dec_digits, emit_u64, is_digit, lemma_dec_digits_shape};
use crate::parse::chars_to_string;
use crate::records::{MantaObject, MantaObjectShark};

verus! {

/// A caller-supplied source of randomness: raw integers, raw bytes, and a
/// free-text string utility with an unconstrained character set.
pub trait EntropySource {
    fn next_u64(&mut self) -> u64;

    fn next_byte(&mut self) -> u8;

    fn random_string(&mut self, len: usize) -> String;
}

/// Relies on `uuid::Uuid::new_v4` and the hyphenated lower-case `Display`
/// form: fresh random UUID text, 32 lowercase hex digits in 8-4-4-4-12
/// grouping.
#[verifier::external_body]
fn fresh_uuid_string() -> (r: String)
    ensures
        is_uuid_text(r@),
{
    uuid::Uuid::new_v4().to_string()
}

pub uninterp spec fn md5_digest_of(s: Seq<char>) -> Seq<u8>;

/// Relies on `md5::compute`: the MD5 digest of the text's bytes, a pure
/// function of the text, 16 bytes long.
#[verifier::external_body]
fn md5_digest(s: &str) -> (r: Vec<u8>)
    ensures
        r@ == md5_digest_of(s@),
        r@.len() == 16,
{
    md5::compute(s.as_bytes()).0.to_vec()
}

pub uninterp spec fn base64_of(b: Seq<u8>) -> Seq<char>;

/// Relies on `base64::encode`: standard-alphabet base64 with padding, a
/// pure function of the input bytes, four output characters for every
/// three input bytes begun.
#[verifier::external_body]
fn base64_string(b: &Vec<u8>) -> (r: String)
    ensures
        r@ == base64_of(b@),
        r@.len() == 4 * ((b@.len() + 2) / 3),
{
    base64::encode(b.as_slice())
}

fn letter_char(d: u8) -> (c: char)
    requires
        d < 26,
    ensures
        'a' <= c && c <= 'z',
{
    (97 + d) as char
}

fn digit_char_of(d: u8) -> (c: char)
    requires
        d < 10,
    ensures
        '0' <= c && c <= '9',
{
    (48 + d) as char
}

fn token_char<G: EntropySource>(g: &mut G) -> (c: char)
    ensures
        is_token_char(c),
{
    let b = g.next_byte() % 36;
    if b < 26 {
        letter_char(b)
    } else {
        digit_char_of(b - 26)
    }
}

fn build_token<G: EntropySource>(g: &mut G, len: usize) -> (r: Vec<char>)
    requires
        len >= 1,
    ensures
        r@.len() == len,
        forall|k: int| 0 <= k < r@.len() ==> is_token_char(#[trigger] r@[k]),
{
    let mut out: Vec<char> = Vec::new();
    let mut i: usize = 0;
    while i < len
        invariant
            i <= len,
            out@.len() == i,
            forall|k: int| 0 <= k < out@.len() ==> is_token_char(#[trigger] out@[k]),
        decreases len - i,
    {
        out.push(token_char(g));
        i += 1;
    }
    out
}

/// The token length used for a given size hint: the hint itself, lifted to
/// one where it is zero so that the tokens stay non-empty.
pub open spec fn token_hint(size_hint: usize) -> int {
    if size_hint == 0 {
        1
    } else {
        size_hint as int
    }
}

/// Build a random storage-location record.  The `datacenter` is free text
/// of the hinted length; the `manta_storage_id` is composed as the decimal
/// rendering of the token length (the hint, lifted to one where it is
/// zero) and two random alphanumeric tokens of exactly that length, so it
/// matches the storage-identifier pattern by construction, whatever the
/// source yields.
pub fn build_storage_location<G: EntropySource>(g: &mut G, size_hint: usize) -> (r:
    MantaObjectShark)
    ensures
        is_storage_id(r@.manta_storage_id),
        exists|t1: Seq<char>, t2: Seq<char>|
            {
                &&& r@.manta_storage_id == #[trigger] storage_id_form(
                    dec_digits(token_hint(size_hint)),
                    t1,
                    t2,
                )
                &&& t1.len() == token_hint(size_hint)
                &&& t2.len() == token_hint(size_hint)
                &&& (forall|k: int| 0 <= k < t1.len() ==> is_token_char(#[trigger] t1[k]))
                &&& (forall|k: int| 0 <= k < t2.len() ==> is_token_char(#[trigger] t2[k]))
            },
{
    let tok_len = if size_hint == 0 {
        1
    } else {
        size_hint
    };
    let datacenter = g.random_string(size_hint);
    let hint64 = tok_len as u64;
    let mut id = emit_u64(hint64, Vec::new());
    let ghost digits = id@;
    id.push('.');
    let mut t1 = build_token(g, tok_len);
    let ghost t1v = t1@;
    id.append(&mut t1);
    id.push('.');
    let mut t2 = build_token(g, tok_len);
    let ghost t2v = t2@;
    id.append(&mut t2);
    proof {
        lemma_dec_digits_shape(hint64 as int);
        assert(digits =~= dec_digits(hint64 as int));
        assert(id@ =~= storage_id_form(digits, t1v, t2v));
        assert(forall|k: int| 0 <= k < digits.len() ==> is_digit(#[trigger] digits[k]));
        assert(is_storage_id(id@));
    }
    let manta_storage_id = chars_to_string(&id);
    let r = MantaObjectShark { datacenter, manta_storage_id };
    proof {
        assert(hint64 as int == token_hint(size_hint));
        assert(r@.manta_storage_id == storage_id_form(
            dec_digits(token_hint(size_hint)),
            t1v,
            t2v,
        ));
        assert(t1v.len() == token_hint(size_hint) && t2v.len() == token_hint(size_hint));
    }
    r
}

/// Build a random file-object record.  Identity fields are fresh random
/// UUID text; the storage locations are pattern-valid; `content_md5` is
/// the base64 encoding of the digest of one of the random strings; the
/// discriminator field holds the literal `object`.
pub fn build_file_object<G: EntropySource>(g: &mut G) -> (r: MantaObject)
    ensures
        is_uuid_text(r@.owner),
        is_uuid_text(r@.etag),
        is_uuid_text(r@.object_id),
        r@.headers.len() == 3,
        r@.roles.len() == 1,
        r@.sharks.len() == 2,
        forall|k: int|
            0 <= k < r@.sharks.len() ==> is_storage_id(#[trigger] r@.sharks[k].manta_storage_id),
        exists|s: Seq<char>| r@.content_md5 == base64_of(#[trigger] md5_digest_of(s)),
        r@.content_md5.len() == 24,
        r@.obj_type == "object"@,
{
    let len = g.next_byte() as usize;
    let mut headers: Vec<(String, String)> = Vec::new();
    headers.push((g.random_string(len), g.random_string(len)));
    headers.push((g.random_string(len), g.random_string(len)));
    headers.push((g.random_string(len), g.random_string(len)));
    let key = g.random_string(len);
    let mtime = g.next_u64();
    let creator = g.random_string(len);
    let dirname = g.random_string(len);
    let name = g.random_string(len);
    let owner = fresh_uuid_string();
    let mut roles: Vec<String> = Vec::new();
    roles.push(g.random_string(len));
    let vnode = g.next_u64();
    let content_length = g.next_u64();
    let datum = g.random_string(len);
    let digest = md5_digest(datum.as_str());
    let content_md5 = base64_string(&digest);
    let etag = fresh_uuid_string();
    let content_type = g.random_string(len);
    let object_id = fresh_uuid_string();
    let hint1 = 1 + (g.next_u64() % 99) as usize;
    let shark1 = build_storage_location(g, hint1);
    let hint2 = 1 + (g.next_u64() % 99) as usize;
    let shark2 = build_storage_location(g, hint2);
    let mut sharks: Vec<MantaObjectShark> = Vec::new();
    sharks.push(shark1);
    sharks.push(shark2);
    let obj_type = String::from_str("object");
    let r = MantaObject {
        headers,
        key,
        mtime,
        name,
        creator,
        dirname,
        owner,
        roles,
        vnode,
        content_length,
        content_md5,
        content_type,
        object_id,
        etag,
        sharks,
        obj_type,
    };
    proof {
        assert(r@.content_md5 == base64_of(md5_digest_of(datum@)));
        assert(r@.sharks =~= sharks@.map_values(|s: MantaObjectShark| s@));
        assert(r@.sharks[0] == sharks@[0]@);
        assert(r@.sharks[1] == sharks@[1]@);
    }
    r
}

} // verus!
