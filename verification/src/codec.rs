//! The persistence codec: a file-object record to and from the single text
//! value stored in a relational column.
//!
//! `encode` writes the record's canonical text; `decode` parses a stored
//! cell back.  Decoding an absent cell is `MissingStoredValue`, decoding
//! text that is not a canonical record encoding is `DecodeError`, and
//! decoding what `encode` produced gives back the original record exactly.

use vstd::prelude::*;
use crate::json::{JsonModel, jtext};
use crate::parse::{can_parse, lemma_jtext_first, parse_value};
use crate::records::{
    MalformedRecord, MantaObject, ObjectModel, ObjectType, ObjectTypeModel, obj_of_tree, obj_tree,
    type_of_tree, type_tree,
};

verus! {

/// Failure of `decode`: the cell held nothing, or held text that is not a
/// canonical record encoding.
#[derive(Debug, Clone, PartialEq, Eq)]
pub enum StoredValueError {
    MissingStoredValue,
    DecodeError,
}

/// The canonical stored text of a file-object record.
pub open spec fn encoded(m: ObjectModel) -> Seq<char> {
    jtext(obj_tree(m))
}

/// Write a file-object record as its stored text.
pub fn encode(r: &MantaObject) -> (t: Vec<char>)
    ensures
        t@ == encoded(r@),
{
    let tree = r.to_tree();
    crate::json::emit_value(&tree, Vec::new())
}

/// Read a file-object record back from a stored cell.
///
/// An absent cell is `MissingStoredValue`.  For a present cell the result
/// is `Ok` exactly when the text is the canonical text of a tree that reads
/// back as a record; in particular decoding `encode(r)` yields `r` again.
pub fn decode(cell: Option<&Vec<char>>) -> (r: Result<MantaObject, StoredValueError>)
    ensures
        r == Err::<MantaObject, StoredValueError>(StoredValueError::MissingStoredValue) <==> cell
            is None,
        cell matches Some(t) ==> {
            &&& (r matches Ok(o) ==> exists|j: JsonModel|
                t@ == #[trigger] jtext(j) && obj_of_tree(j) == Some(o@))
            &&& forall|j: JsonModel|
                t@ == #[trigger] jtext(j) ==> match obj_of_tree(j) {
                    Some(m) => r is Ok && r->Ok_0@ == m,
                    None => r == Err::<MantaObject, StoredValueError>(
                        StoredValueError::DecodeError,
                    ),
                }
            &&& forall|m: ObjectModel|
                t@ == #[trigger] encoded(m) ==> r is Ok && r->Ok_0@ == m
        },
{
    match cell {
        None => Err(StoredValueError::MissingStoredValue),
        Some(t) => {
            let tlen = t.len();
            match parse_value(t, 0) {
                None => {
                    proof {
                        assert forall|j: JsonModel| t@ == #[trigger] jtext(j) implies false by {
                            assert(t@.subrange(0, jtext(j).len() as int) =~= jtext(j));
                            assert(can_parse(t@, 0, j));
                        }
                    }
                    Err(StoredValueError::DecodeError)
                },
                Some((v, end)) => {
                    if end != tlen {
                        proof {
                            assert forall|j: JsonModel| t@ == #[trigger] jtext(j) implies false by {
                                assert(t@.subrange(0, jtext(j).len() as int) =~= jtext(j));
                                assert(can_parse(t@, 0, j));
                            }
                        }
                        Err(StoredValueError::DecodeError)
                    } else {
                        let ghost vm = v@;
                        proof {
                            assert(t@.subrange(0, t@.len() as int) =~= t@);
                            assert(t@ == jtext(vm));
                            assert forall|j: JsonModel| t@ == #[trigger] jtext(j) implies j
                                == vm by {
                                assert(t@.subrange(0, jtext(j).len() as int) =~= jtext(j));
                                assert(can_parse(t@, 0, j));
                            }
                        }
                        match MantaObject::from_tree(&v) {
                            Ok(o) => {
                                let res: Result<MantaObject, StoredValueError> = Ok(o);
                                proof {
                                    assert forall|m: ObjectModel|
                                        t@ == #[trigger] encoded(m) implies res is Ok
                                        && res->Ok_0@ == m by {
                                        crate::records::lemma_obj_round_trip(m);
                                        assert(obj_tree(m) == vm);
                                    }
                                }
                                res
                            },
                            Err(_) => {
                                let res: Result<MantaObject, StoredValueError> = Err(
                                    StoredValueError::DecodeError,
                                );
                                proof {
                                    assert forall|m: ObjectModel|
                                        t@ == #[trigger] encoded(m) implies false by {
                                        crate::records::lemma_obj_round_trip(m);
                                        assert(obj_tree(m) == vm);
                                    }
                                }
                                res
                            },
                        }
                    }
                },
            }
        },
    }
}

impl ObjectType {
    /// Write the tagged union as text of the external format.
    pub fn to_text(&self) -> (t: Vec<char>)
        ensures
            t@ == jtext(type_tree(self@)),
    {
        let tree = self.to_tree();
        crate::json::emit_value(&tree, Vec::new())
    }

    /// Read the tagged union from text of the external format.  The result
    /// is `Ok` exactly when the text is the canonical text of a tree whose
    /// discriminator and fields read back as one of the two record kinds.
    pub fn from_text(t: &Vec<char>) -> (r: Result<ObjectType, MalformedRecord>)
        ensures
            r matches Ok(o) ==> exists|j: JsonModel|
                t@ == #[trigger] jtext(j) && type_of_tree(j) == Some(o@),
            forall|j: JsonModel|
                t@ == #[trigger] jtext(j) ==> match type_of_tree(j) {
                    Some(m) => r is Ok && r->Ok_0@ == m,
                    None => r is Err,
                },
    {
        let tlen = t.len();
        match parse_value(t, 0) {
            None => {
                proof {
                    assert forall|j: JsonModel| t@ == #[trigger] jtext(j) implies false by {
                        assert(t@.subrange(0, jtext(j).len() as int) =~= jtext(j));
                        assert(can_parse(t@, 0, j));
                    }
                }
                Err(MalformedRecord)
            },
            Some((v, end)) => {
                if end != tlen {
                    proof {
                        assert forall|j: JsonModel| t@ == #[trigger] jtext(j) implies false by {
                            assert(t@.subrange(0, jtext(j).len() as int) =~= jtext(j));
                            assert(can_parse(t@, 0, j));
                        }
                    }
                    Err(MalformedRecord)
                } else {
                    let ghost vm = v@;
                    proof {
                        assert(t@.subrange(0, t@.len() as int) =~= t@);
                        assert(t@ == jtext(vm));
                        assert forall|j: JsonModel| t@ == #[trigger] jtext(j) implies j == vm by {
                            assert(t@.subrange(0, jtext(j).len() as int) =~= jtext(j));
                            assert(can_parse(t@, 0, j));
                        }
                    }
                    ObjectType::from_tree(&v)
                }
            },
        }
    }
}

/// Round trip of the persistence codec at the level of models: the
/// canonical stored text of any record reads back as exactly that record.
pub proof fn lemma_encode_decode_round_trip(m: ObjectModel)
    ensures
        obj_of_tree(obj_tree(m)) == Some(m),
        encoded(m) == jtext(obj_tree(m)),
{
    crate::records::lemma_obj_round_trip(m);
}

/// Round trip of the tagged union through its text form.
pub proof fn lemma_type_text_round_trip(m: ObjectTypeModel)
    ensures
        type_of_tree(type_tree(m)) == Some(m),
{
    crate::records::lemma_type_round_trip(m);
}

} // verus!
