//! Shapes of the identifier fields: UUID text and the composite
//! storage-node identifier `<decimal>.<token>.<token>`.

use vstd::prelude::*;
use crate::json::is_digit;

verus! {

pub open spec fn is_hex_lower(c: char) -> bool {
    ('0' <= c && c <= '9') || ('a' <= c && c <= 'f')
}

/// Valid UUID text: 32 lowercase hex digits in 8-4-4-4-12 grouping,
/// hyphen-separated.
pub open spec fn is_uuid_text(s: Seq<char>) -> bool {
    &&& s.len() == 36
    &&& forall|i: int|
        0 <= i < 36 ==> if i == 8 || i == 13 || i == 18 || i == 23 {
            s[i] == '-'
        } else {
            is_hex_lower(#[trigger] s[i])
        }
}

/// A character allowed in a storage-identifier token.
pub open spec fn is_token_char(c: char) -> bool {
    ('a' <= c && c <= 'z') || ('A' <= c && c <= 'Z') || ('0' <= c && c <= '9') || c == '-'
}

pub open spec fn storage_id_form(d: Seq<char>, t1: Seq<char>, t2: Seq<char>) -> Seq<char> {
    d + seq!['.'] + t1 + seq!['.'] + t2
}

/// A valid storage identifier: one or more decimal digits, a dot, a
/// non-empty token, a dot, a non-empty token, and nothing else.
pub open spec fn is_storage_id(s: Seq<char>) -> bool {
    exists|d: Seq<char>, t1: Seq<char>, t2: Seq<char>|
        {
            &&& s == #[trigger] storage_id_form(d, t1, t2)
            &&& d.len() >= 1
            &&& t1.len() >= 1
            &&& t2.len() >= 1
            &&& forall|k: int| 0 <= k < d.len() ==> is_digit(#[trigger] d[k])
            &&& forall|k: int| 0 <= k < t1.len() ==> is_token_char(#[trigger] t1[k])
            &&& forall|k: int| 0 <= k < t2.len() ==> is_token_char(#[trigger] t2[k])
        }
}

fn is_hex_lower_at(s: &str, i: usize) -> (b: bool)
    requires
        i < s@.len(),
    ensures
        b == is_hex_lower(s@[i as int]),
{
    let c = s.get_char(i);
    ('0' <= c && c <= '9') || ('a' <= c && c <= 'f')
}

/// Decide whether a string is valid UUID text.
pub fn is_uuid_string(s: &str) -> (b: bool)
    ensures
        b == is_uuid_text(s@),
{
    let n = s.unicode_len();
    if n != 36 {
        return false;
    }
    let mut i: usize = 0;
    while i < 36
        invariant
            i <= 36,
            s@.len() == 36,
            forall|k: int|
                0 <= k < i ==> if k == 8 || k == 13 || k == 18 || k == 23 {
                    s@[k] == '-'
                } else {
                    is_hex_lower(#[trigger] s@[k])
                },
        decreases 36 - i,
    {
        if i == 8 || i == 13 || i == 18 || i == 23 {
            if s.get_char(i) != '-' {
                return false;
            }
        } else {
            if !is_hex_lower_at(s, i) {
                return false;
            }
        }
        i += 1;
    }
    true
}

} // verus!
