//! Strict parser for the canonical textual form of the external format.
//!
//! Each parsing function carries two guarantees: whatever it accepts is
//! exactly the canonical text of the value it returns (soundness), and the
//! canonical text of any tree is accepted and reproduces that tree
//! (completeness).  Together they make the persistence round trip exact.

use vstd::prelude::*;
use crate::json::{
    JsonModel, JsonValue, dec_digits, digit_val, digits_val, esc, esc_char, is_digit, jmodel,
    jmodel_list, jmodel_pairs, jtext, lemma_canonical_digits, lemma_dec_digits_shape,
    lemma_digits_val_take, lemma_esc_cons, lemma_jmodel_list, lemma_jmodel_pairs,
    lemma_matches_char, lemma_matches_join, lemma_matches_split, list_text, matches_at, pairs_text,
    str_text,
};

verus! {

/// Relies on `String`'s `FromIterator<char>` implementation: collecting
/// characters yields the string of exactly those characters, in order.
#[verifier::external_body]
pub(crate) fn chars_to_string(v: &Vec<char>) -> (r: String)
    ensures
        r@ == v@,
{
    v.iter().collect()
}

fn try_digit(c: char) -> (r: Option<u64>)
    ensures
        r matches Some(d) ==> is_digit(c) && d == digit_val(c) && d < 10,
        r is None ==> !is_digit(c),
{
    if c == '0' {
        Some(0)
    } else if c == '1' {
        Some(1)
    } else if c == '2' {
        Some(2)
    } else if c == '3' {
        Some(3)
    } else if c == '4' {
        Some(4)
    } else if c == '5' {
        Some(5)
    } else if c == '6' {
        Some(6)
    } else if c == '7' {
        Some(7)
    } else if c == '8' {
        Some(8)
    } else if c == '9' {
        Some(9)
    } else {
        None
    }
}

pub proof fn lemma_matches_head(t: Seq<char>, pos: int, pat: Seq<char>)
    requires
        matches_at(t, pos, pat),
        pat.len() > 0,
    ensures
        t[pos] == pat[0],
{
    assert(t.subrange(pos, pos + pat.len())[0] == t[pos]);
}

// ---------------------------------------------------------------------------
// Strings
// ---------------------------------------------------------------------------
/// The escaped body of a string, followed by its closing quote, stands at
/// `pos`.
pub open spec fn str_body_at(t: Seq<char>, pos: int, a: Seq<char>) -> bool {
    matches_at(t, pos, esc(a) + seq!['"'])
}

proof fn lemma_str_body_head(t: Seq<char>, pos: int, a: Seq<char>)
    requires
        str_body_at(t, pos, a),
        a.len() > 0,
    ensures
        matches_at(t, pos, esc_char(a[0])),
        t[pos] == esc_char(a[0])[0],
        (a[0] == '"' || a[0] == '\\') ==> t[pos] == '\\' && pos + 1 < t.len() && t[pos + 1]
            == a[0],
        !(a[0] == '"' || a[0] == '\\') ==> t[pos] == a[0],
        str_body_at(t, pos + esc_char(a[0]).len(), a.drop_first()),
{
    assert(esc(a) == esc_char(a[0]) + esc(a.drop_first()));
    assert(esc(a) + seq!['"'] =~= esc_char(a[0]) + (esc(a.drop_first()) + seq!['"']));
    lemma_matches_split(t, pos, esc_char(a[0]), esc(a.drop_first()) + seq!['"']);
    lemma_matches_head(t, pos, esc_char(a[0]));
    if a[0] == '"' || a[0] == '\\' {
        assert(esc_char(a[0]) =~= seq!['\\'] + seq![a[0]]);
        lemma_matches_split(t, pos, seq!['\\'], seq![a[0]]);
        lemma_matches_char(t, pos, '\\');
        lemma_matches_char(t, pos + 1, a[0]);
        assert(esc(a.drop_first()).len() >= 0);
    } else {
        lemma_matches_char(t, pos, a[0]);
    }
}

fn parse_str_chars(t: &Vec<char>, pos: usize) -> (r: Option<(Vec<char>, usize)>)
    requires
        pos <= t@.len(),
    ensures
        r matches Some(p) ==> {
            &&& pos < p.1 <= t@.len()
            &&& matches_at(t@, pos as int, esc(p.0@) + seq!['"'])
            &&& p.1 == pos + esc(p.0@).len() + 1
        },
        forall|a: Seq<char>|
            str_body_at(t@, pos as int, a) ==> (r matches Some(p) && p.0@ == a && p.1 == pos + esc(
                a,
            ).len() + 1),
    decreases t@.len() - pos,
{
    let ghost posi = pos as int;
    let tlen = t.len();
    if pos == tlen {
        proof {
            assert forall|a: Seq<char>| str_body_at(t@, posi, a) implies false by {
                assert(posi + (esc(a) + seq!['"']).len() <= t@.len());
            }
        }
        return None;
    }
    let c = t[pos];
    if c == '"' {
        let res: Option<(Vec<char>, usize)> = Some((Vec::new(), pos + 1));
        proof {
            assert(esc(Seq::<char>::empty()) =~= Seq::<char>::empty());
            assert(esc(Seq::<char>::empty()) + seq!['"'] =~= seq!['"']);
            assert(t@.subrange(posi, posi + 1) =~= seq!['"']);
            assert forall|a: Seq<char>|
                str_body_at(t@, posi, a) implies (res matches Some(p) && p.0@ == a && p.1 == pos
                + esc(a).len() + 1) by {
                if a.len() > 0 {
                    lemma_str_body_head(t@, posi, a);
                    assert(false);
                }
                assert(a =~= Seq::<char>::empty());
            }
        }
        res
    } else if c == '\\' {
        if pos + 1 == t.len() {
            proof {
                assert forall|a: Seq<char>| str_body_at(t@, posi, a) implies false by {
                    if a.len() == 0 {
                        assert(esc(a) =~= Seq::<char>::empty());
                        assert(esc(a) + seq!['"'] =~= seq!['"']);
                        lemma_matches_char(t@, posi, '"');
                    } else {
                        lemma_str_body_head(t@, posi, a);
                    }
                }
            }
            return None;
        }
        let d = t[pos + 1];
        if d == '"' || d == '\\' {
            match parse_str_chars(t, pos + 2) {
                Some((tail, end)) => {
                    let ghost tailv = tail@;
                    let mut cs = tail;
                    cs.insert(0, d);
                    let res: Option<(Vec<char>, usize)> = Some((cs, end));
                    proof {
                        let body = res.unwrap().0@;
                        assert(body == tailv.insert(0, d));
                        assert(body.drop_first() =~= tailv);
                        assert(body =~= seq![d] + body.drop_first());
                        lemma_esc_cons(d, body.drop_first());
                        assert(esc_char(d) =~= seq!['\\'] + seq![d]);
                        assert(t@.subrange(posi, posi + 2) =~= seq!['\\'] + seq![d]);
                        assert(matches_at(t@, posi, esc_char(d)));
                        lemma_matches_join(
                            t@,
                            posi,
                            esc_char(d),
                            esc(body.drop_first()) + seq!['"'],
                        );
                        assert(esc_char(d) + (esc(body.drop_first()) + seq!['"']) =~= esc(body)
                            + seq!['"']);
                        assert forall|a: Seq<char>|
                            str_body_at(t@, posi, a) implies (res matches Some(p) && p.0@ == a
                            && p.1 == pos + esc(a).len() + 1) by {
                            if a.len() == 0 {
                                assert(esc(a) =~= Seq::<char>::empty());
                                assert(esc(a) + seq!['"'] =~= seq!['"']);
                                lemma_matches_char(t@, posi, '"');
                                assert(false);
                            } else {
                                lemma_str_body_head(t@, posi, a);
                                if !(a[0] == '"' || a[0] == '\\') {
                                    assert(t@[posi] == a[0]);
                                    assert(false);
                                }
                                assert(a[0] == d);
                                assert(str_body_at(t@, posi + 2, a.drop_first()));
                                assert(body.drop_first() == a.drop_first());
                                assert(a =~= seq![a[0]] + a.drop_first());
                                assert(body =~= a);
                                lemma_esc_cons(a[0], a.drop_first());
                            }
                        }
                    }
                    res
                },
                None => {
                    proof {
                        assert forall|a: Seq<char>| str_body_at(t@, posi, a) implies false by {
                            if a.len() == 0 {
                                assert(esc(a) =~= Seq::<char>::empty());
                                assert(esc(a) + seq!['"'] =~= seq!['"']);
                                lemma_matches_char(t@, posi, '"');
                            } else {
                                lemma_str_body_head(t@, posi, a);
                                if !(a[0] == '"' || a[0] == '\\') {
                                    assert(t@[posi] == a[0]);
                                }
                                assert(str_body_at(t@, posi + 2, a.drop_first()));
                            }
                        }
                    }
                    None
                },
            }
        } else {
            proof {
                assert forall|a: Seq<char>| str_body_at(t@, posi, a) implies false by {
                    if a.len() == 0 {
                        assert(esc(a) =~= Seq::<char>::empty());
                        assert(esc(a) + seq!['"'] =~= seq!['"']);
                        lemma_matches_char(t@, posi, '"');
                    } else {
                        lemma_str_body_head(t@, posi, a);
                    }
                }
            }
            None
        }
    } else {
        match parse_str_chars(t, pos + 1) {
            Some((tail, end)) => {
                let ghost tailv = tail@;
                let mut cs = tail;
                cs.insert(0, c);
                let res: Option<(Vec<char>, usize)> = Some((cs, end));
                proof {
                    let body = res.unwrap().0@;
                    assert(body == tailv.insert(0, c));
                    assert(body.drop_first() =~= tailv);
                    assert(body =~= seq![c] + body.drop_first());
                    lemma_esc_cons(c, body.drop_first());
                    assert(esc_char(c) =~= seq![c]);
                    assert(t@.subrange(posi, posi + 1) =~= seq![c]);
                    assert(matches_at(t@, posi, esc_char(c)));
                    lemma_matches_join(t@, posi, esc_char(c), esc(body.drop_first()) + seq!['"']);
                    assert(esc_char(c) + (esc(body.drop_first()) + seq!['"']) =~= esc(body)
                        + seq!['"']);
                    assert forall|a: Seq<char>|
                        str_body_at(t@, posi, a) implies (res matches Some(p) && p.0@ == a && p.1
                        == pos + esc(a).len() + 1) by {
                        if a.len() == 0 {
                            assert(esc(a) =~= Seq::<char>::empty());
                            assert(esc(a) + seq!['"'] =~= seq!['"']);
                            lemma_matches_char(t@, posi, '"');
                            assert(false);
                        } else {
                            lemma_str_body_head(t@, posi, a);
                            if a[0] == '"' || a[0] == '\\' {
                                assert(t@[posi] == '\\');
                                assert(false);
                            }
                            assert(a[0] == c);
                            assert(str_body_at(t@, posi + 1, a.drop_first()));
                            assert(body.drop_first() == a.drop_first());
                            assert(a =~= seq![a[0]] + a.drop_first());
                            assert(body =~= a);
                            lemma_esc_cons(a[0], a.drop_first());
                        }
                    }
                }
                res
            },
            None => {
                proof {
                    assert forall|a: Seq<char>| str_body_at(t@, posi, a) implies false by {
                        if a.len() == 0 {
                            assert(esc(a) =~= Seq::<char>::empty());
                            assert(esc(a) + seq!['"'] =~= seq!['"']);
                            lemma_matches_char(t@, posi, '"');
                        } else {
                            lemma_str_body_head(t@, posi, a);
                            if a[0] == '"' || a[0] == '\\' {
                                assert(t@[posi] == '\\');
                            }
                            assert(str_body_at(t@, posi + 1, a.drop_first()));
                        }
                    }
                }
                None
            },
        }
    }
}

fn parse_string(t: &Vec<char>, pos: usize) -> (r: Option<(String, usize)>)
    requires
        pos < t@.len(),
        t@[pos as int] == '"',
    ensures
        r matches Some(p) ==> {
            &&& pos < p.1 <= t@.len()
            &&& matches_at(t@, pos as int, str_text(p.0@))
            &&& p.1 == pos + str_text(p.0@).len()
        },
        forall|a: Seq<char>|
            matches_at(t@, pos as int, str_text(a)) ==> (r matches Some(p) && p.0@ == a && p.1
                == pos + str_text(a).len()),
{
    let ghost posi = pos as int;
    let tlen = t.len();
    proof {
        assert(pos < tlen);
        assert(t@.subrange(posi, posi + 1) =~= seq!['"']);
        assert(matches_at(t@, posi, seq!['"']));
    }
    match parse_str_chars(t, pos + 1) {
        Some((cs, end)) => {
            let s = chars_to_string(&cs);
            let res: Option<(String, usize)> = Some((s, end));
            proof {
                let body = cs@;
                lemma_matches_join(t@, posi, seq!['"'], esc(body) + seq!['"']);
                assert(seq!['"'] + (esc(body) + seq!['"']) =~= str_text(body));
                assert forall|a: Seq<char>|
                    matches_at(t@, posi, str_text(a)) implies (res matches Some(p) && p.0@ == a
                    && p.1 == pos + str_text(a).len()) by {
                    assert(str_text(a) =~= seq!['"'] + (esc(a) + seq!['"']));
                    lemma_matches_split(t@, posi, seq!['"'], esc(a) + seq!['"']);
                    assert(str_body_at(t@, posi + 1, a));
                }
            }
            res
        },
        None => {
            proof {
                assert forall|a: Seq<char>| matches_at(t@, posi, str_text(a)) implies false by {
                    assert(str_text(a) =~= seq!['"'] + (esc(a) + seq!['"']));
                    lemma_matches_split(t@, posi, seq!['"'], esc(a) + seq!['"']);
                    assert(str_body_at(t@, posi + 1, a));
                }
            }
            None
        },
    }
}

// ---------------------------------------------------------------------------
// Numbers
// ---------------------------------------------------------------------------
/// The canonical decimal rendering of `n` stands at `pos` and is not
/// followed by a further digit.
pub open spec fn num_at(t: Seq<char>, pos: int, n: u64) -> bool {
    &&& matches_at(t, pos, dec_digits(n as int))
    &&& (pos + dec_digits(n as int).len() == t.len() || !is_digit(
        t[pos + dec_digits(n as int).len()],
    ))
}

fn parse_u64(t: &Vec<char>, pos: usize) -> (r: Option<(u64, usize)>)
    requires
        pos < t@.len(),
        is_digit(t@[pos as int]),
    ensures
        r matches Some(p) ==> {
            &&& pos < p.1 <= t@.len()
            &&& matches_at(t@, pos as int, dec_digits(p.0 as int))
            &&& p.1 == pos + dec_digits(p.0 as int).len()
        },
        forall|n: u64|
            num_at(t@, pos as int, n) ==> (r matches Some(p) && p.0 == n && p.1 == pos
                + dec_digits(n as int).len()),
{
    let ghost posi = pos as int;
    let tlen = t.len();
    let c0 = t[pos];
    if c0 == '0' {
        let res: Option<(u64, usize)> = Some((0, pos + 1));
        proof {
            lemma_dec_digits_shape(0);
            assert(dec_digits(0) =~= seq!['0']);
            assert(t@.subrange(posi, posi + 1) =~= seq!['0']);
            assert forall|n: u64|
                num_at(t@, posi, n) implies (res matches Some(p) && p.0 == n && p.1 == pos
                + dec_digits(n as int).len()) by {
                lemma_dec_digits_shape(n as int);
                lemma_matches_head(t@, posi, dec_digits(n as int));
                if n > 0 {
                    assert(dec_digits(n as int)[0] != '0');
                    assert(false);
                }
                assert(dec_digits(n as int) =~= seq!['0']);
            }
        }
        return res;
    }
    let mut i: usize = pos;
    let mut acc: u64 = 0;
    loop
        invariant
            posi == pos as int,
            pos <= i <= t@.len(),
            pos < t@.len(),
            is_digit(t@[posi]),
            t@[posi] != '0',
            forall|k: int| posi <= k < i ==> is_digit(#[trigger] t@[k]),
            acc == digits_val(t@.subrange(posi, i as int)),
            forall|n: u64| num_at(t@, posi, n) ==> i <= pos + dec_digits(n as int).len(),
        ensures
            pos < i <= t@.len(),
            forall|k: int| posi <= k < i ==> is_digit(#[trigger] t@[k]),
            acc == digits_val(t@.subrange(posi, i as int)),
            forall|n: u64| num_at(t@, posi, n) ==> i <= pos + dec_digits(n as int).len(),
            i == t@.len() || !is_digit(t@[i as int]),
        decreases t@.len() - i,
    {
        if i == t.len() {
            proof {
                if i == pos {
                    assert(false);
                }
            }
            break;
        }
        let d = match try_digit(t[i]) {
            Some(d) => d,
            None => {
                proof {
                    if i == pos {
                        assert(false);
                    }
                }
                break;
            },
        };
        let ghost pre = t@.subrange(posi, i as int);
        proof {
            // This step stays within the value of any number standing here,
            // so the accumulator cannot overflow on canonical input.
            assert forall|n: u64|
                num_at(t@, posi, n) implies acc * 10 + d <= u64::MAX && i + 1 <= pos + dec_digits(
                n as int,
            ).len() by {
                lemma_dec_digits_shape(n as int);
                let ds = dec_digits(n as int);
                assert(i < pos + ds.len()) by {
                    if i == pos + ds.len() {
                        assert(!is_digit(t@[i as int]) || i == t@.len());
                    }
                }
                assert forall|k: int| 0 <= k < ds.len() implies #[trigger] ds[k] == t@[posi
                    + k] by {
                    assert(t@.subrange(posi, posi + ds.len())[k] == t@[posi + k]);
                }
                assert(pre =~= ds.take(i - posi));
                assert(ds.take(i + 1 - posi).drop_last() =~= pre);
                assert(ds.take(i + 1 - posi).last() == t@[i as int]);
                assert(digits_val(ds.take(i + 1 - posi)) == acc * 10 + d);
                lemma_digits_val_take(ds, i + 1 - posi);
            }
        }
        if acc > (u64::MAX - d) / 10 {
            proof {
                assert forall|n: u64| num_at(t@, posi, n) implies false by {
                    let m = (u64::MAX - d) as int;
                    assert(10 * (m / 10) + m % 10 == m);
                    assert(acc * 10 >= (m / 10 + 1) * 10) by (nonlinear_arith)
                        requires
                            acc >= m / 10 + 1,
                    ;
                    assert(acc * 10 + d > u64::MAX);
                }
            }
            return None;
        }
        proof {
            assert(acc * 10 <= ((u64::MAX - d) / 10) * 10) by (nonlinear_arith)
                requires
                    acc <= (u64::MAX - d) / 10,
            ;
            let m = (u64::MAX - d) as int;
            assert(10 * (m / 10) + m % 10 == m);
        }
        acc = acc * 10 + d;
        proof {
            assert(t@.subrange(posi, i + 1 as int) =~= pre.push(t@[i as int]));
            assert(t@.subrange(posi, i + 1 as int).drop_last() =~= pre);
            assert(digits_val(t@.subrange(posi, i + 1 as int)) == digits_val(pre) * 10 + digit_val(
                t@[i as int],
            ));
        }
        i += 1;
    }
    proof {
        if i == pos {
            assert(is_digit(t@[posi]));
            assert(false);
        }
    }
    let res: Option<(u64, usize)> = Some((acc, i));
    proof {
        let ds = t@.subrange(posi, i as int);
        assert(ds[0] == t@[posi]);
        lemma_canonical_digits(ds);
        assert(matches_at(t@, posi, dec_digits(acc as int)));
        assert forall|n: u64|
            num_at(t@, posi, n) implies (res matches Some(p) && p.0 == n && p.1 == pos + dec_digits(
            n as int,
        ).len()) by {
            lemma_dec_digits_shape(n as int);
            let dn = dec_digits(n as int);
            assert(i <= pos + dn.len());
            if i < pos + dn.len() {
                assert(t@.subrange(posi, posi + dn.len())[i - posi] == t@[i as int]);
                assert(is_digit(dn[i - posi]));
                assert(i < t@.len());
                assert(false);
            }
            assert(i == pos + dn.len());
            assert forall|k: int| 0 <= k < dn.len() implies ds[k] == dn[k] by {
                assert(t@.subrange(posi, posi + dn.len())[k] == t@[posi + k]);
            }
            assert(ds =~= dn);
            assert(digits_val(ds) == n);
        }
    }
    res
}

// ---------------------------------------------------------------------------
// Values, sequences, objects
// ---------------------------------------------------------------------------
/// The canonical text of `j` stands at `pos` and is not immediately
/// followed by a digit (which could otherwise extend a number).
pub open spec fn can_parse(t: Seq<char>, pos: int, j: JsonModel) -> bool {
    &&& matches_at(t, pos, jtext(j))
    &&& (pos + jtext(j).len() == t.len() || !is_digit(t[pos + jtext(j).len()]))
}

/// The canonical texts of one or more sequence elements, comma-separated
/// and closed by `]`, stand at `pos`.
pub open spec fn items_at(t: Seq<char>, pos: int, items: Seq<JsonModel>) -> bool {
    &&& items.len() >= 1
    &&& matches_at(t, pos, list_text(items, 0) + seq![']'])
}

/// The canonical texts of one or more key/value pairs, comma-separated and
/// closed by `}`, stand at `pos`.
pub open spec fn pairs_at(t: Seq<char>, pos: int, pairs: Seq<(Seq<char>, JsonModel)>) -> bool {
    &&& pairs.len() >= 1
    &&& matches_at(t, pos, pairs_text(pairs, 0) + seq!['}'])
}

pub proof fn lemma_jtext_first(j: JsonModel)
    ensures
        jtext(j).len() > 0,
        j matches JsonModel::Str(_) ==> jtext(j)[0] == '"',
        j matches JsonModel::UInt(_) ==> is_digit(jtext(j)[0]),
        j matches JsonModel::Arr(_) ==> jtext(j)[0] == '[',
        j matches JsonModel::Obj(_) ==> jtext(j)[0] == '{',
{
    match j {
        JsonModel::Str(s) => {
            assert(jtext(j)[0] == '"');
        },
        JsonModel::UInt(n) => {
            lemma_dec_digits_shape(n as int);
        },
        JsonModel::Arr(items) => {
            assert(jtext(j)[0] == '[');
        },
        JsonModel::Obj(pairs) => {
            assert(jtext(j)[0] == '{');
        },
    }
}

pub proof fn lemma_list_text_shift(items: Seq<JsonModel>, i: int)
    requires
        0 <= i < items.len(),
    ensures
        list_text(items, i) == list_text(items.subrange(i, items.len() as int), 0),
    decreases items.len() - i,
{
    let sub = items.subrange(i, items.len() as int);
    assert(sub[0] == items[i]);
    if i == items.len() - 1 {
        assert(list_text(sub, 0) == jtext(sub[0]));
    } else {
        lemma_list_text_shift(sub, 1);
        assert(sub.subrange(1, sub.len() as int) =~= items.subrange(i + 1, items.len() as int));
        lemma_list_text_shift(items, i + 1);
    }
}

pub proof fn lemma_pairs_text_shift(pairs: Seq<(Seq<char>, JsonModel)>, i: int)
    requires
        0 <= i < pairs.len(),
    ensures
        pairs_text(pairs, i) == pairs_text(pairs.subrange(i, pairs.len() as int), 0),
    decreases pairs.len() - i,
{
    let sub = pairs.subrange(i, pairs.len() as int);
    assert(sub[0] == pairs[i]);
    if i == pairs.len() - 1 {
    } else {
        lemma_pairs_text_shift(sub, 1);
        assert(sub.subrange(1, sub.len() as int) =~= pairs.subrange(i + 1, pairs.len() as int));
        lemma_pairs_text_shift(pairs, i + 1);
    }
}

proof fn lemma_items_head(t: Seq<char>, pos: int, items: Seq<JsonModel>)
    requires
        items_at(t, pos, items),
    ensures
        can_parse(t, pos, items[0]),
        pos + jtext(items[0]).len() < t.len(),
        items.len() == 1 ==> t[pos + jtext(items[0]).len()] == ']' && list_text(items, 0).len()
            == jtext(items[0]).len(),
        items.len() > 1 ==> t[pos + jtext(items[0]).len()] == ',' && items_at(
            t,
            pos + jtext(items[0]).len() + 1,
            items.drop_first(),
        ) && list_text(items, 0).len() == jtext(items[0]).len() + 1 + list_text(
            items.drop_first(),
            0,
        ).len(),
{
    let j0 = items[0];
    let l0 = jtext(j0);
    if items.len() == 1 {
        assert(list_text(items, 0) == l0);
        lemma_matches_split(t, pos, l0, seq![']']);
        lemma_matches_char(t, pos + l0.len(), ']');
    } else {
        let rest = list_text(items, 1);
        assert(list_text(items, 0) == l0 + seq![','] + rest);
        assert((l0 + seq![','] + rest) + seq![']'] =~= l0 + (seq![','] + (rest + seq![']'])));
        lemma_matches_split(t, pos, l0, seq![','] + (rest + seq![']']));
        lemma_matches_split(t, pos + l0.len(), seq![','], rest + seq![']']);
        lemma_matches_char(t, pos + l0.len(), ',');
        lemma_list_text_shift(items, 1);
        assert(items.subrange(1, items.len() as int) =~= items.drop_first());
        assert(items_at(t, pos + l0.len() + 1, items.drop_first()));
    }
}

proof fn lemma_pairs_head(t: Seq<char>, pos: int, pairs: Seq<(Seq<char>, JsonModel)>)
    requires
        pairs_at(t, pos, pairs),
    ensures
        matches_at(t, pos, str_text(pairs[0].0)),
        pos + str_text(pairs[0].0).len() < t.len(),
        t[pos + str_text(pairs[0].0).len()] == ':',
        can_parse(t, pos + str_text(pairs[0].0).len() + 1, pairs[0].1),
        pos + str_text(pairs[0].0).len() + 1 + jtext(pairs[0].1).len() < t.len(),
        pairs.len() == 1 ==> t[pos + str_text(pairs[0].0).len() + 1 + jtext(pairs[0].1).len()]
            == '}' && pairs_text(pairs, 0).len() == str_text(pairs[0].0).len() + 1 + jtext(
            pairs[0].1,
        ).len(),
        pairs.len() > 1 ==> t[pos + str_text(pairs[0].0).len() + 1 + jtext(pairs[0].1).len()]
            == ',' && pairs_at(
            t,
            pos + str_text(pairs[0].0).len() + 1 + jtext(pairs[0].1).len() + 1,
            pairs.drop_first(),
        ) && pairs_text(pairs, 0).len() == str_text(pairs[0].0).len() + 1 + jtext(pairs[0].1).len()
            + 1 + pairs_text(pairs.drop_first(), 0).len(),
{
    let k0 = str_text(pairs[0].0);
    let v0 = pairs[0].1;
    let lv = jtext(v0);
    if pairs.len() == 1 {
        assert(pairs_text(pairs, 0) == k0 + seq![':'] + lv);
        assert((k0 + seq![':'] + lv) + seq!['}'] =~= k0 + (seq![':'] + (lv + seq!['}'])));
        lemma_matches_split(t, pos, k0, seq![':'] + (lv + seq!['}']));
        lemma_matches_split(t, pos + k0.len(), seq![':'], lv + seq!['}']);
        lemma_matches_char(t, pos + k0.len(), ':');
        lemma_matches_split(t, pos + k0.len() + 1, lv, seq!['}']);
        lemma_matches_char(t, pos + k0.len() + 1 + lv.len(), '}');
    } else {
        let rest = pairs_text(pairs, 1);
        assert(pairs_text(pairs, 0) == k0 + seq![':'] + lv + seq![','] + rest);
        assert((k0 + seq![':'] + lv + seq![','] + rest) + seq!['}'] =~= k0 + (seq![':'] + (lv + (
        seq![','] + (rest + seq!['}'])))));
        lemma_matches_split(t, pos, k0, seq![':'] + (lv + (seq![','] + (rest + seq!['}']))));
        lemma_matches_split(t, pos + k0.len(), seq![':'], lv + (seq![','] + (rest + seq!['}'])));
        lemma_matches_char(t, pos + k0.len(), ':');
        lemma_matches_split(t, pos + k0.len() + 1, lv, seq![','] + (rest + seq!['}']));
        lemma_matches_split(t, pos + k0.len() + 1 + lv.len(), seq![','], rest + seq!['}']);
        lemma_matches_char(t, pos + k0.len() + 1 + lv.len(), ',');
        lemma_pairs_text_shift(pairs, 1);
        assert(pairs.subrange(1, pairs.len() as int) =~= pairs.drop_first());
        assert(pairs_at(t, pos + k0.len() + 1 + lv.len() + 1, pairs.drop_first()));
    }
}

#[verifier::rlimit(100)]
pub fn parse_value(t: &Vec<char>, pos: usize) -> (r: Option<(JsonValue, usize)>)
    requires
        pos <= t@.len(),
    ensures
        r matches Some(p) ==> {
            &&& pos < p.1 <= t@.len()
            &&& matches_at(t@, pos as int, jtext(p.0@))
            &&& p.1 == pos + jtext(p.0@).len()
        },
        forall|j: JsonModel|
            can_parse(t@, pos as int, j) ==> (r matches Some(p) && p.0@ == j && p.1 == pos + jtext(
                j,
            ).len()),
    decreases t@.len() - pos, 0int,
{
    let ghost posi = pos as int;
    let tlen = t.len();
    if pos == tlen {
        proof {
            assert forall|j: JsonModel| can_parse(t@, posi, j) implies false by {
                lemma_jtext_first(j);
            }
        }
        return None;
    }
    let c = t[pos];
    if c == '"' {
        match parse_string(t, pos) {
            Some((s, end)) => {
                let res: Option<(JsonValue, usize)> = Some((JsonValue::Str(s), end));
                proof {
                    assert forall|j: JsonModel|
                        can_parse(t@, posi, j) implies (res matches Some(p) && p.0@ == j && p.1
                        == pos + jtext(j).len()) by {
                        lemma_jtext_first(j);
                        lemma_matches_head(t@, posi, jtext(j));
                        if !(j matches JsonModel::Str(_)) {
                            assert(false);
                        }
                    }
                }
                res
            },
            None => {
                proof {
                    assert forall|j: JsonModel| can_parse(t@, posi, j) implies false by {
                        lemma_jtext_first(j);
                        lemma_matches_head(t@, posi, jtext(j));
                        if !(j matches JsonModel::Str(_)) {
                            assert(false);
                        }
                    }
                }
                None
            },
        }
    } else if c == '[' {
        if pos + 1 < tlen && t[pos + 1] == ']' {
            let res: Option<(JsonValue, usize)> = Some((JsonValue::Arr(Vec::new()), pos + 2));
            proof {
                let m = res.unwrap().0@;
                assert(jmodel_list(Seq::<JsonValue>::empty(), 0) =~= Seq::<JsonModel>::empty());
                assert(m == JsonModel::Arr(Seq::<JsonModel>::empty()));
                assert(list_text(Seq::<JsonModel>::empty(), 0) =~= Seq::<char>::empty());
                assert(jtext(m) =~= seq!['[', ']']);
                assert(t@.subrange(posi, posi + 2) =~= seq!['[', ']']);
                assert forall|j: JsonModel|
                    can_parse(t@, posi, j) implies (res matches Some(p) && p.0@ == j && p.1 == pos
                    + jtext(j).len()) by {
                    lemma_jtext_first(j);
                    lemma_matches_head(t@, posi, jtext(j));
                    if !(j matches JsonModel::Arr(_)) {
                        assert(false);
                    }
                    let items = j->Arr_0;
                    if items.len() >= 1 {
                        assert(jtext(j) =~= seq!['['] + (list_text(items, 0) + seq![']']));
                        lemma_matches_split(t@, posi, seq!['['], list_text(items, 0) + seq![']']);
                        lemma_items_head(t@, posi + 1, items);
                        lemma_jtext_first(items[0]);
                        lemma_matches_head(t@, posi + 1, jtext(items[0]));
                        assert(t@[posi + 1] == jtext(items[0])[0]);
                        assert(false);
                    }
                    assert(items =~= Seq::<JsonModel>::empty());
                }
            }
            res
        } else {
            match parse_items(t, pos + 1) {
                Some((vs, end)) => {
                    let res: Option<(JsonValue, usize)> = Some((JsonValue::Arr(vs), end));
                    proof {
                        let m = res.unwrap().0@;
                        let models = jmodel_list(res.unwrap().0->Arr_0@, 0);
                        assert(m == JsonModel::Arr(models));
                        assert(t@.subrange(posi, posi + 1) =~= seq!['[']);
                        assert(matches_at(t@, posi, seq!['[']));
                        lemma_matches_join(
                            t@,
                            posi,
                            seq!['['],
                            list_text(models, 0) + seq![']'],
                        );
                        assert(seq!['['] + (list_text(models, 0) + seq![']']) =~= jtext(m));
                        assert forall|j: JsonModel|
                            can_parse(t@, posi, j) implies (res matches Some(p) && p.0@ == j && p.1
                            == pos + jtext(j).len()) by {
                            lemma_jtext_first(j);
                            lemma_matches_head(t@, posi, jtext(j));
                            if !(j matches JsonModel::Arr(_)) {
                                assert(false);
                            }
                            let items = j->Arr_0;
                            if items.len() == 0 {
                                assert(jtext(j) =~= seq!['[', ']']);
                                lemma_matches_char(t@, posi + 1, ']');
                                assert(false);
                            }
                            assert(jtext(j) =~= seq!['['] + (list_text(items, 0) + seq![']']));
                            lemma_matches_split(
                                t@,
                                posi,
                                seq!['['],
                                list_text(items, 0) + seq![']'],
                            );
                            assert(items_at(t@, posi + 1, items));
                        }
                    }
                    res
                },
                None => {
                    proof {
                        assert forall|j: JsonModel| can_parse(t@, posi, j) implies false by {
                            lemma_jtext_first(j);
                            lemma_matches_head(t@, posi, jtext(j));
                            if !(j matches JsonModel::Arr(_)) {
                                assert(false);
                            }
                            let items = j->Arr_0;
                            if items.len() == 0 {
                                assert(jtext(j) =~= seq!['[', ']']);
                                lemma_matches_char(t@, posi + 1, ']');
                            } else {
                                assert(jtext(j) =~= seq!['['] + (list_text(items, 0) + seq![']']));
                                lemma_matches_split(
                                    t@,
                                    posi,
                                    seq!['['],
                                    list_text(items, 0) + seq![']'],
                                );
                                assert(items_at(t@, posi + 1, items));
                            }
                        }
                    }
                    None
                },
            }
        }
    } else if c == '{' {
        if pos + 1 < tlen && t[pos + 1] == '}' {
            let res: Option<(JsonValue, usize)> = Some((JsonValue::Obj(Vec::new()), pos + 2));
            proof {
                let m = res.unwrap().0@;
                assert(jmodel_pairs(Seq::<(String, JsonValue)>::empty(), 0) =~= Seq::<
                    (Seq<char>, JsonModel),
                >::empty());
                assert(m == JsonModel::Obj(Seq::<(Seq<char>, JsonModel)>::empty()));
                assert(pairs_text(Seq::<(Seq<char>, JsonModel)>::empty(), 0) =~= Seq::<
                    char,
                >::empty());
                assert(jtext(m) =~= seq!['{', '}']);
                assert(t@.subrange(posi, posi + 2) =~= seq!['{', '}']);
                assert forall|j: JsonModel|
                    can_parse(t@, posi, j) implies (res matches Some(p) && p.0@ == j && p.1 == pos
                    + jtext(j).len()) by {
                    lemma_jtext_first(j);
                    lemma_matches_head(t@, posi, jtext(j));
                    if !(j matches JsonModel::Obj(_)) {
                        assert(false);
                    }
                    let pairs = j->Obj_0;
                    if pairs.len() >= 1 {
                        assert(jtext(j) =~= seq!['{'] + (pairs_text(pairs, 0) + seq!['}']));
                        lemma_matches_split(t@, posi, seq!['{'], pairs_text(pairs, 0) + seq!['}']);
                        lemma_pairs_head(t@, posi + 1, pairs);
                        lemma_matches_head(t@, posi + 1, str_text(pairs[0].0));
                        assert(t@[posi + 1] == str_text(pairs[0].0)[0]);
                        assert(false);
                    }
                    assert(pairs =~= Seq::<(Seq<char>, JsonModel)>::empty());
                }
            }
            res
        } else {
            match parse_pairs(t, pos + 1) {
                Some((ps, end)) => {
                    let res: Option<(JsonValue, usize)> = Some((JsonValue::Obj(ps), end));
                    proof {
                        let m = res.unwrap().0@;
                        let models = jmodel_pairs(res.unwrap().0->Obj_0@, 0);
                        assert(m == JsonModel::Obj(models));
                        assert(t@.subrange(posi, posi + 1) =~= seq!['{']);
                        assert(matches_at(t@, posi, seq!['{']));
                        lemma_matches_join(
                            t@,
                            posi,
                            seq!['{'],
                            pairs_text(models, 0) + seq!['}'],
                        );
                        assert(seq!['{'] + (pairs_text(models, 0) + seq!['}']) =~= jtext(m));
                        assert forall|j: JsonModel|
                            can_parse(t@, posi, j) implies (res matches Some(p) && p.0@ == j && p.1
                            == pos + jtext(j).len()) by {
                            lemma_jtext_first(j);
                            lemma_matches_head(t@, posi, jtext(j));
                            if !(j matches JsonModel::Obj(_)) {
                                assert(false);
                            }
                            let pairs = j->Obj_0;
                            if pairs.len() == 0 {
                                assert(jtext(j) =~= seq!['{', '}']);
                                lemma_matches_char(t@, posi + 1, '}');
                                assert(false);
                            }
                            assert(jtext(j) =~= seq!['{'] + (pairs_text(pairs, 0) + seq!['}']));
                            lemma_matches_split(
                                t@,
                                posi,
                                seq!['{'],
                                pairs_text(pairs, 0) + seq!['}'],
                            );
                            assert(pairs_at(t@, posi + 1, pairs));
                        }
                    }
                    res
                },
                None => {
                    proof {
                        assert forall|j: JsonModel| can_parse(t@, posi, j) implies false by {
                            lemma_jtext_first(j);
                            lemma_matches_head(t@, posi, jtext(j));
                            if !(j matches JsonModel::Obj(_)) {
                                assert(false);
                            }
                            let pairs = j->Obj_0;
                            if pairs.len() == 0 {
                                assert(jtext(j) =~= seq!['{', '}']);
                                lemma_matches_char(t@, posi + 1, '}');
                            } else {
                                assert(jtext(j) =~= seq!['{'] + (pairs_text(pairs, 0)
                                    + seq!['}']));
                                lemma_matches_split(
                                    t@,
                                    posi,
                                    seq!['{'],
                                    pairs_text(pairs, 0) + seq!['}'],
                                );
                                assert(pairs_at(t@, posi + 1, pairs));
                            }
                        }
                    }
                    None
                },
            }
        }
    } else {
        match try_digit(c) {
            Some(_) => {
                match parse_u64(t, pos) {
                    Some((n, end)) => {
                        let res: Option<(JsonValue, usize)> = Some((JsonValue::UInt(n), end));
                        proof {
                            assert forall|j: JsonModel|
                                can_parse(t@, posi, j) implies (res matches Some(p) && p.0@ == j
                                && p.1 == pos + jtext(j).len()) by {
                                lemma_jtext_first(j);
                                lemma_matches_head(t@, posi, jtext(j));
                                if !(j matches JsonModel::UInt(_)) {
                                    assert(false);
                                }
                                assert(num_at(t@, posi, j->UInt_0));
                            }
                        }
                        res
                    },
                    None => {
                        proof {
                            assert forall|j: JsonModel| can_parse(t@, posi, j) implies false by {
                                lemma_jtext_first(j);
                                lemma_matches_head(t@, posi, jtext(j));
                                if !(j matches JsonModel::UInt(_)) {
                                    assert(false);
                                }
                                assert(num_at(t@, posi, j->UInt_0));
                            }
                        }
                        None
                    },
                }
            },
            None => {
                proof {
                    assert forall|j: JsonModel| can_parse(t@, posi, j) implies false by {
                        lemma_jtext_first(j);
                        lemma_matches_head(t@, posi, jtext(j));
                    }
                }
                None
            },
        }
    }
}

#[verifier::rlimit(100)]
fn parse_items(t: &Vec<char>, pos: usize) -> (r: Option<(Vec<JsonValue>, usize)>)
    requires
        pos <= t@.len(),
    ensures
        r matches Some(p) ==> {
            &&& pos < p.1 <= t@.len()
            &&& p.0@.len() >= 1
            &&& matches_at(t@, pos as int, list_text(jmodel_list(p.0@, 0), 0) + seq![']'])
            &&& p.1 == pos + list_text(jmodel_list(p.0@, 0), 0).len() + 1
        },
        forall|items: Seq<JsonModel>|
            items_at(t@, pos as int, items) ==> (r matches Some(p) && jmodel_list(p.0@, 0) == items
                && p.1 == pos + list_text(items, 0).len() + 1),
    decreases t@.len() - pos, 1int,
{
    let ghost posi = pos as int;
    let tlen = t.len();
    match parse_value(t, pos) {
        None => {
            proof {
                assert forall|items: Seq<JsonModel>| items_at(t@, posi, items) implies false by {
                    lemma_items_head(t@, posi, items);
                }
            }
            None
        },
        Some((v, e)) => {
            if e >= tlen {
                proof {
                    assert forall|items: Seq<JsonModel>|
                        items_at(t@, posi, items) implies false by {
                        lemma_items_head(t@, posi, items);
                    }
                }
                return None;
            }
            let c = t[e];
            if c == ']' {
                let mut vs: Vec<JsonValue> = Vec::new();
                let ghost vm = v@;
                vs.push(v);
                let res: Option<(Vec<JsonValue>, usize)> = Some((vs, e + 1));
                proof {
                    lemma_jmodel_list(vs@, 0);
                    assert(jmodel_list(vs@, 0) =~= seq![vm]);
                    assert(list_text(seq![vm], 0) == jtext(vm));
                    assert(t@.subrange(e as int, e + 1 as int) =~= seq![']']);
                    assert(matches_at(t@, e as int, seq![']']));
                    lemma_matches_join(t@, posi, jtext(vm), seq![']']);
                    assert forall|items: Seq<JsonModel>|
                        items_at(t@, posi, items) implies (res matches Some(p) && jmodel_list(
                        p.0@,
                        0,
                    ) == items && p.1 == pos + list_text(items, 0).len() + 1) by {
                        lemma_items_head(t@, posi, items);
                        assert(vm == items[0]);
                        if items.len() > 1 {
                            assert(t@[e as int] == ',');
                            assert(false);
                        }
                        assert(items =~= seq![vm]);
                    }
                }
                res
            } else if c == ',' {
                match parse_items(t, e + 1) {
                    Some((tail, end)) => {
                        let ghost tailv = tail@;
                        let ghost vm = v@;
                        let mut vs = tail;
                        vs.insert(0, v);
                        let res: Option<(Vec<JsonValue>, usize)> = Some((vs, end));
                        proof {
                            assert(vs@ == tailv.insert(0, res.unwrap().0@[0]));
                            lemma_jmodel_list(vs@, 0);
                            lemma_jmodel_list(tailv, 0);
                            assert(vs@[0] == res.unwrap().0@[0]);
                            assert(forall|k: int|
                                0 <= k < tailv.len() ==> vs@[k + 1] == tailv[k]);
                            let full = jmodel_list(vs@, 0);
                            let restm = jmodel_list(tailv, 0);
                            assert forall|k: int| 0 <= k < full.len() implies #[trigger] full[k]
                                == (seq![vm] + restm)[k] by {
                                if k > 0 {
                                    assert(vs@[k] == tailv[k - 1]);
                                }
                            }
                            assert(full =~= seq![vm] + restm);
                            // text of the combined list
                            assert(full.len() >= 2);
                            assert(list_text(full, 0) == jtext(full[0]) + seq![','] + list_text(
                                full,
                                1,
                            ));
                            lemma_list_text_shift(full, 1);
                            assert(full.subrange(1, full.len() as int) =~= restm);
                            assert(t@.subrange(e as int, e + 1 as int) =~= seq![',']);
                            assert(matches_at(t@, e as int, seq![',']));
                            lemma_matches_join(t@, posi, jtext(vm), seq![',']);
                            lemma_matches_join(
                                t@,
                                posi,
                                jtext(vm) + seq![','],
                                list_text(restm, 0) + seq![']'],
                            );
                            assert((jtext(vm) + seq![',']) + (list_text(restm, 0) + seq![']'])
                                =~= list_text(full, 0) + seq![']']);
                            assert forall|items: Seq<JsonModel>|
                                items_at(t@, posi, items) implies (res matches Some(p)
                                && jmodel_list(p.0@, 0) == items && p.1 == pos + list_text(
                                items,
                                0,
                            ).len() + 1) by {
                                lemma_items_head(t@, posi, items);
                                assert(vm == items[0]);
                                if items.len() == 1 {
                                    assert(t@[e as int] == ']');
                                    assert(false);
                                }
                                assert(items_at(t@, e + 1 as int, items.drop_first()));
                                assert(restm == items.drop_first());
                                assert(items =~= seq![items[0]] + items.drop_first());
                                assert(full =~= items);
                            }
                        }
                        res
                    },
                    None => {
                        proof {
                            assert forall|items: Seq<JsonModel>|
                                items_at(t@, posi, items) implies false by {
                                lemma_items_head(t@, posi, items);
                                assert(v@ == items[0]);
                                if items.len() == 1 {
                                    assert(t@[e as int] == ']');
                                } else {
                                    assert(items_at(t@, e + 1 as int, items.drop_first()));
                                }
                            }
                        }
                        None
                    },
                }
            } else {
                proof {
                    assert forall|items: Seq<JsonModel>|
                        items_at(t@, posi, items) implies false by {
                        lemma_items_head(t@, posi, items);
                        assert(v@ == items[0]);
                    }
                }
                None
            }
        },
    }
}

#[verifier::rlimit(100)]
fn parse_pairs(t: &Vec<char>, pos: usize) -> (r: Option<(Vec<(String, JsonValue)>, usize)>)
    requires
        pos <= t@.len(),
    ensures
        r matches Some(p) ==> {
            &&& pos < p.1 <= t@.len()
            &&& p.0@.len() >= 1
            &&& matches_at(t@, pos as int, pairs_text(jmodel_pairs(p.0@, 0), 0) + seq!['}'])
            &&& p.1 == pos + pairs_text(jmodel_pairs(p.0@, 0), 0).len() + 1
        },
        forall|pairs: Seq<(Seq<char>, JsonModel)>|
            pairs_at(t@, pos as int, pairs) ==> (r matches Some(p) && jmodel_pairs(p.0@, 0)
                == pairs && p.1 == pos + pairs_text(pairs, 0).len() + 1),
    decreases t@.len() - pos, 1int,
{
    let ghost posi = pos as int;
    let tlen = t.len();
    if pos >= tlen {
        proof {
            assert forall|pairs: Seq<(Seq<char>, JsonModel)>|
                pairs_at(t@, posi, pairs) implies false by {
                lemma_pairs_head(t@, posi, pairs);
            }
        }
        return None;
    }
    let c0 = t[pos];
    if c0 != '"' {
        proof {
            assert forall|pairs: Seq<(Seq<char>, JsonModel)>|
                pairs_at(t@, posi, pairs) implies false by {
                lemma_pairs_head(t@, posi, pairs);
                lemma_matches_head(t@, posi, str_text(pairs[0].0));
                assert(str_text(pairs[0].0)[0] == '"');
            }
        }
        return None;
    }
    match parse_string(t, pos) {
        None => {
            proof {
                assert forall|pairs: Seq<(Seq<char>, JsonModel)>|
                    pairs_at(t@, posi, pairs) implies false by {
                    lemma_pairs_head(t@, posi, pairs);
                }
            }
            None
        },
        Some((key, e1)) => {
            if e1 >= tlen {
                proof {
                    assert forall|pairs: Seq<(Seq<char>, JsonModel)>|
                        pairs_at(t@, posi, pairs) implies false by {
                        lemma_pairs_head(t@, posi, pairs);
                        assert(key@ == pairs[0].0);
                    }
                }
                return None;
            }
            let c1 = t[e1];
            if c1 != ':' {
                proof {
                    assert forall|pairs: Seq<(Seq<char>, JsonModel)>|
                        pairs_at(t@, posi, pairs) implies false by {
                        lemma_pairs_head(t@, posi, pairs);
                        assert(key@ == pairs[0].0);
                    }
                }
                return None;
            }
            match parse_value(t, e1 + 1) {
                None => {
                    proof {
                        assert forall|pairs: Seq<(Seq<char>, JsonModel)>|
                            pairs_at(t@, posi, pairs) implies false by {
                            lemma_pairs_head(t@, posi, pairs);
                            assert(key@ == pairs[0].0);
                        }
                    }
                    None
                },
                Some((v, e2)) => {
                    if e2 >= tlen {
                        proof {
                            assert forall|pairs: Seq<(Seq<char>, JsonModel)>|
                                pairs_at(t@, posi, pairs) implies false by {
                                lemma_pairs_head(t@, posi, pairs);
                                assert(key@ == pairs[0].0);
                                assert(v@ == pairs[0].1);
                            }
                        }
                        return None;
                    }
                    let c2 = t[e2];
                    let ghost km = key@;
                    let ghost vm = v@;
                    if c2 == '}' {
                        let mut ps: Vec<(String, JsonValue)> = Vec::new();
                        ps.push((key, v));
                        let res: Option<(Vec<(String, JsonValue)>, usize)> = Some((ps, e2 + 1));
                        proof {
                            lemma_jmodel_pairs(ps@, 0);
                            assert(jmodel_pairs(ps@, 0) =~= seq![(km, vm)]);
                            assert(pairs_text(seq![(km, vm)], 0) == str_text(km) + seq![':']
                                + jtext(vm));
                            assert(t@.subrange(e1 as int, e1 + 1 as int) =~= seq![':']);
                            assert(matches_at(t@, e1 as int, seq![':']));
                            assert(t@.subrange(e2 as int, e2 + 1 as int) =~= seq!['}']);
                            assert(matches_at(t@, e2 as int, seq!['}']));
                            lemma_matches_join(t@, posi, str_text(km), seq![':']);
                            lemma_matches_join(t@, posi, str_text(km) + seq![':'], jtext(vm));
                            lemma_matches_join(
                                t@,
                                posi,
                                (str_text(km) + seq![':']) + jtext(vm),
                                seq!['}'],
                            );
                            assert(((str_text(km) + seq![':']) + jtext(vm)) + seq!['}']
                                =~= pairs_text(seq![(km, vm)], 0) + seq!['}']);
                            assert forall|pairs: Seq<(Seq<char>, JsonModel)>|
                                pairs_at(t@, posi, pairs) implies (res matches Some(p)
                                && jmodel_pairs(p.0@, 0) == pairs && p.1 == pos + pairs_text(
                                pairs,
                                0,
                            ).len() + 1) by {
                                lemma_pairs_head(t@, posi, pairs);
                                assert(km == pairs[0].0);
                                assert(vm == pairs[0].1);
                                if pairs.len() > 1 {
                                    assert(t@[e2 as int] == ',');
                                    assert(false);
                                }
                                assert(pairs =~= seq![(km, vm)]);
                            }
                        }
                        res
                    } else if c2 == ',' {
                        match parse_pairs(t, e2 + 1) {
                            Some((tail, end)) => {
                                let ghost tailv = tail@;
                                let mut ps = tail;
                                ps.insert(0, (key, v));
                                let res: Option<(Vec<(String, JsonValue)>, usize)> = Some(
                                    (ps, end),
                                );
                                proof {
                                    lemma_jmodel_pairs(ps@, 0);
                                    lemma_jmodel_pairs(tailv, 0);
                                    assert(ps@[0].0@ == km && ps@[0].1 == res.unwrap().0@[0].1);
                                    assert(forall|k: int|
                                        0 <= k < tailv.len() ==> ps@[k + 1] == tailv[k]);
                                    let full = jmodel_pairs(ps@, 0);
                                    let restm = jmodel_pairs(tailv, 0);
                                    assert forall|k: int|
                                        0 <= k < full.len() implies #[trigger] full[k] == (seq![
                                        (km, vm),
                                    ] + restm)[k] by {
                                        if k > 0 {
                                            assert(ps@[k] == tailv[k - 1]);
                                        } else {
                                            assert(ps@[0].1@ == vm);
                                        }
                                    }
                                    assert(full =~= seq![(km, vm)] + restm);
                                    assert(full.len() >= 2);
                                    assert(pairs_text(full, 0) == str_text(full[0].0) + seq![':']
                                        + jtext(full[0].1) + seq![','] + pairs_text(full, 1));
                                    lemma_pairs_text_shift(full, 1);
                                    assert(full.subrange(1, full.len() as int) =~= restm);
                                    assert(t@.subrange(e1 as int, e1 + 1 as int) =~= seq![':']);
                                    assert(matches_at(t@, e1 as int, seq![':']));
                                    assert(t@.subrange(e2 as int, e2 + 1 as int) =~= seq![',']);
                                    assert(matches_at(t@, e2 as int, seq![',']));
                                    lemma_matches_join(t@, posi, str_text(km), seq![':']);
                                    lemma_matches_join(
                                        t@,
                                        posi,
                                        str_text(km) + seq![':'],
                                        jtext(vm),
                                    );
                                    lemma_matches_join(
                                        t@,
                                        posi,
                                        (str_text(km) + seq![':']) + jtext(vm),
                                        seq![','],
                                    );
                                    lemma_matches_join(
                                        t@,
                                        posi,
                                        ((str_text(km) + seq![':']) + jtext(vm)) + seq![','],
                                        pairs_text(restm, 0) + seq!['}'],
                                    );
                                    assert((((str_text(km) + seq![':']) + jtext(vm)) + seq![','])
                                        + (pairs_text(restm, 0) + seq!['}']) =~= pairs_text(
                                        full,
                                        0,
                                    ) + seq!['}']);
                                    assert forall|pairs: Seq<(Seq<char>, JsonModel)>|
                                        pairs_at(t@, posi, pairs) implies (res matches Some(p)
                                        && jmodel_pairs(p.0@, 0) == pairs && p.1 == pos
                                        + pairs_text(pairs, 0).len() + 1) by {
                                        lemma_pairs_head(t@, posi, pairs);
                                        assert(km == pairs[0].0);
                                        assert(vm == pairs[0].1);
                                        if pairs.len() == 1 {
                                            assert(t@[e2 as int] == '}');
                                            assert(false);
                                        }
                                        assert(pairs_at(t@, e2 + 1 as int, pairs.drop_first()));
                                        assert(restm == pairs.drop_first());
                                        assert(pairs =~= seq![pairs[0]] + pairs.drop_first());
                                        assert((km, vm) == pairs[0]);
                                        assert(full =~= pairs);
                                    }
                                }
                                res
                            },
                            None => {
                                proof {
                                    assert forall|pairs: Seq<(Seq<char>, JsonModel)>|
                                        pairs_at(t@, posi, pairs) implies false by {
                                        lemma_pairs_head(t@, posi, pairs);
                                        assert(km == pairs[0].0);
                                        assert(vm == pairs[0].1);
                                        if pairs.len() == 1 {
                                            assert(t@[e2 as int] == '}');
                                        } else {
                                            assert(pairs_at(
                                                t@,
                                                e2 + 1 as int,
                                                pairs.drop_first(),
                                            ));
                                        }
                                    }
                                }
                                None
                            },
                        }
                    } else {
                        proof {
                            assert forall|pairs: Seq<(Seq<char>, JsonModel)>|
                                pairs_at(t@, posi, pairs) implies false by {
                                lemma_pairs_head(t@, posi, pairs);
                                assert(km == pairs[0].0);
                                assert(vm == pairs[0].1);
                            }
                        }
                        None
                    }
                },
            }
        },
    }
}

} // verus!
