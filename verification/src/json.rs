//! The structured external format: a tree of string-keyed maps, sequences,
//! strings and unsigned integers, together with its canonical textual form.
//!
//! `JsonValue` is the executable tree; `JsonModel` is its mathematical model.
//! `jtext` gives the canonical text of a tree, and the emitters produce
//! exactly that text.

use vstd::prelude::*;

verus! {

/// Mathematical model of one tree of the external format.
#[verifier::ext_equal]
pub enum JsonModel {
    Str(Seq<char>),
    UInt(u64),
    Arr(Seq<JsonModel>),
    Obj(Seq<(Seq<char>, JsonModel)>),
}

/// Executable tree of the external format.
pub enum JsonValue {
    Str(String),
    UInt(u64),
    Arr(Vec<JsonValue>),
    Obj(Vec<(String, JsonValue)>),
}

pub open spec fn jmodel(v: JsonValue) -> JsonModel
    decreases v, 0int,
{
    match v {
        JsonValue::Str(s) => JsonModel::Str(s@),
        JsonValue::UInt(n) => JsonModel::UInt(n),
        JsonValue::Arr(items) => JsonModel::Arr(jmodel_list(items@, 0)),
        JsonValue::Obj(pairs) => JsonModel::Obj(jmodel_pairs(pairs@, 0)),
    }
}

pub open spec fn jmodel_list(s: Seq<JsonValue>, i: int) -> Seq<JsonModel>
    decreases s, s.len() - i,
{
    if i < 0 || i >= s.len() {
        Seq::empty()
    } else {
        seq![jmodel(s[i])] + jmodel_list(s, i + 1)
    }
}

pub open spec fn jmodel_pairs(s: Seq<(String, JsonValue)>, i: int) -> Seq<(Seq<char>, JsonModel)>
    decreases s, s.len() - i,
{
    if i < 0 || i >= s.len() {
        Seq::empty()
    } else {
        seq![(s[i].0@, jmodel(s[i].1))] + jmodel_pairs(s, i + 1)
    }
}

impl View for JsonValue {
    type V = JsonModel;

    open spec fn view(&self) -> JsonModel {
        jmodel(*self)
    }
}

pub proof fn lemma_jmodel_list(s: Seq<JsonValue>, i: int)
    requires
        0 <= i <= s.len(),
    ensures
        jmodel_list(s, i).len() == s.len() - i,
        forall|k: int| 0 <= k < s.len() - i ==> jmodel_list(s, i)[k] == jmodel(s[i + k]),
    decreases s.len() - i,
{
    if i < s.len() {
        lemma_jmodel_list(s, i + 1);
    }
}

pub proof fn lemma_jmodel_pairs(s: Seq<(String, JsonValue)>, i: int)
    requires
        0 <= i <= s.len(),
    ensures
        jmodel_pairs(s, i).len() == s.len() - i,
        forall|k: int| 0 <= k < s.len() - i ==> jmodel_pairs(s, i)[k] == (s[i + k].0@, jmodel(
            s[i + k].1,
        )),
    decreases s.len() - i,
{
    if i < s.len() {
        lemma_jmodel_pairs(s, i + 1);
    }
}

// ---------------------------------------------------------------------------
// Decimal digits
// ---------------------------------------------------------------------------
pub open spec fn digit_char(d: int) -> char {
    if d == 0 {
        '0'
    } else if d == 1 {
        '1'
    } else if d == 2 {
        '2'
    } else if d == 3 {
        '3'
    } else if d == 4 {
        '4'
    } else if d == 5 {
        '5'
    } else if d == 6 {
        '6'
    } else if d == 7 {
        '7'
    } else if d == 8 {
        '8'
    } else {
        '9'
    }
}

pub open spec fn digit_val(c: char) -> int {
    if c == '0' {
        0
    } else if c == '1' {
        1
    } else if c == '2' {
        2
    } else if c == '3' {
        3
    } else if c == '4' {
        4
    } else if c == '5' {
        5
    } else if c == '6' {
        6
    } else if c == '7' {
        7
    } else if c == '8' {
        8
    } else if c == '9' {
        9
    } else {
        -1
    }
}

pub open spec fn is_digit(c: char) -> bool {
    digit_val(c) >= 0
}

/// Canonical decimal rendering of a non-negative integer: no sign, no
/// leading zeroes.
pub open spec fn dec_digits(n: int) -> Seq<char>
    decreases n,
{
    if n < 10 {
        seq![digit_char(n)]
    } else {
        dec_digits(n / 10).push(digit_char(n % 10))
    }
}

/// Value of a digit string, most significant digit first.
pub open spec fn digits_val(ds: Seq<char>) -> int
    decreases ds.len(),
{
    if ds.len() == 0 {
        0
    } else {
        digits_val(ds.drop_last()) * 10 + digit_val(ds.last())
    }
}

pub proof fn lemma_dec_digits_shape(n: int)
    requires
        0 <= n,
    ensures
        dec_digits(n).len() > 0,
        forall|k: int| 0 <= k < dec_digits(n).len() ==> is_digit(#[trigger] dec_digits(n)[k]),
        n > 0 ==> dec_digits(n)[0] != '0',
        n == 0 ==> dec_digits(n) =~= seq!['0'],
        digits_val(dec_digits(n)) == n,
    decreases n,
{
    if n < 10 {
        assert(dec_digits(n) =~= seq![digit_char(n)]);
        assert(dec_digits(n).drop_last() =~= Seq::<char>::empty());
        assert(digits_val(Seq::<char>::empty()) == 0);
        assert(digits_val(dec_digits(n)) == digit_val(digit_char(n)));
    } else {
        lemma_dec_digits_shape(n / 10);
        let ds = dec_digits(n);
        let hd = dec_digits(n / 10);
        assert(ds == hd.push(digit_char(n % 10)));
        assert(ds.drop_last() =~= hd);
        assert(ds.last() == digit_char(n % 10));
        assert(digits_val(ds) == digits_val(hd) * 10 + digit_val(digit_char(n % 10)));
        assert(digit_val(digit_char(n % 10)) == n % 10);
        assert((n / 10) * 10 + n % 10 == n);
        assert(forall|k: int|
            0 <= k < ds.len() ==> is_digit(#[trigger] ds[k]) == if k < hd.len() {
                is_digit(hd[k])
            } else {
                is_digit(digit_char(n % 10))
            });
        assert(ds[0] == hd[0]);
    }
}

pub proof fn lemma_digits_val_bounds(ds: Seq<char>)
    requires
        forall|k: int| 0 <= k < ds.len() ==> is_digit(#[trigger] ds[k]),
    ensures
        digits_val(ds) >= 0,
        ds.len() > 0 && ds[0] != '0' ==> digits_val(ds) >= 1,
    decreases ds.len(),
{
    if ds.len() > 0 {
        let hd = ds.drop_last();
        assert(forall|k: int| 0 <= k < hd.len() ==> hd[k] == ds[k]);
        lemma_digits_val_bounds(hd);
        assert(digit_val(ds.last()) >= 0);
        if ds[0] != '0' {
            if ds.len() == 1 {
                assert(ds.last() == ds[0]);
                assert(digit_val(ds.last()) >= 1);
            } else {
                assert(hd[0] == ds[0]);
                assert(digits_val(hd) >= 1);
                assert(digits_val(hd) * 10 >= digits_val(hd)) by {
                    assert(digits_val(hd) * 9 >= 0) by (nonlinear_arith)
                        requires
                            digits_val(hd) >= 0,
                    ;
                }
            }
        }
    }
}

/// A digit string without a leading zero is the canonical rendering of its
/// own value.
pub proof fn lemma_canonical_digits(ds: Seq<char>)
    requires
        ds.len() > 0,
        forall|k: int| 0 <= k < ds.len() ==> is_digit(#[trigger] ds[k]),
        ds[0] != '0' || ds.len() == 1,
    ensures
        dec_digits(digits_val(ds)) =~= ds,
    decreases ds.len(),
{
    lemma_digits_val_bounds(ds);
    if ds.len() == 1 {
        assert(ds.last() == ds[0]);
        assert(ds.drop_last() =~= Seq::<char>::empty());
        assert(digits_val(Seq::<char>::empty()) == 0);
        assert(digits_val(ds) == digit_val(ds[0]));
        assert(0 <= digits_val(ds) < 10);
        assert(digit_char(digit_val(ds[0])) == ds[0]);
        assert(dec_digits(digits_val(ds)) =~= seq![ds[0]]);
        assert(seq![ds[0]] =~= ds);
    } else {
        let hd = ds.drop_last();
        assert(forall|k: int| 0 <= k < hd.len() ==> hd[k] == ds[k]);
        assert(hd[0] == ds[0]);
        lemma_canonical_digits(hd);
        lemma_digits_val_bounds(hd);
        let d = digit_val(ds.last());
        let n = digits_val(ds);
        assert(n == digits_val(hd) * 10 + d);
        assert(digits_val(hd) >= 1);
        assert(n >= 10) by (nonlinear_arith)
            requires
                n == digits_val(hd) * 10 + d,
                digits_val(hd) >= 1,
                d >= 0,
        ;
        assert(n / 10 == digits_val(hd) && n % 10 == d) by (nonlinear_arith)
            requires
                n == digits_val(hd) * 10 + d,
                0 <= d < 10,
        ;
        assert(digit_char(d) == ds.last());
        assert(dec_digits(n) == dec_digits(digits_val(hd)).push(digit_char(d)));
        assert(dec_digits(n) =~= ds);
    }
}

/// Extending a digit string can only grow its value.
pub proof fn lemma_digits_val_take(ds: Seq<char>, m: int)
    requires
        forall|k: int| 0 <= k < ds.len() ==> is_digit(#[trigger] ds[k]),
        0 <= m <= ds.len(),
    ensures
        digits_val(ds.take(m)) <= digits_val(ds),
    decreases ds.len() - m,
{
    if m == ds.len() {
        assert(ds.take(m) =~= ds);
    } else {
        lemma_digits_val_take(ds, m + 1);
        let a = ds.take(m);
        let b = ds.take(m + 1);
        assert(b.drop_last() =~= a);
        assert(b.last() == ds[m]);
        assert(forall|k: int| 0 <= k < a.len() ==> a[k] == ds[k]);
        lemma_digits_val_bounds(a);
        assert(digits_val(b) == digits_val(a) * 10 + digit_val(ds[m]));
        assert(digits_val(a) * 10 >= digits_val(a)) by (nonlinear_arith)
            requires
                digits_val(a) >= 0,
        ;
    }
}

// ---------------------------------------------------------------------------
// String escaping
// ---------------------------------------------------------------------------
/// Textual form of one character inside a quoted string: a quote or a
/// backslash is preceded by a backslash, every other character stands as
/// itself.
pub open spec fn esc_char(c: char) -> Seq<char> {
    if c == '"' || c == '\\' {
        seq!['\\', c]
    } else {
        seq![c]
    }
}

pub open spec fn esc(s: Seq<char>) -> Seq<char>
    decreases s.len(),
{
    if s.len() == 0 {
        Seq::empty()
    } else {
        esc_char(s[0]) + esc(s.drop_first())
    }
}

pub proof fn lemma_esc_push(s: Seq<char>, c: char)
    ensures
        esc(s.push(c)) =~= esc(s) + esc_char(c),
    decreases s.len(),
{
    if s.len() == 0 {
        assert(s.push(c) =~= seq![c]);
        assert(s.push(c).drop_first() =~= Seq::<char>::empty());
        assert(esc(Seq::<char>::empty()) =~= Seq::<char>::empty());
        assert(esc(s.push(c)) =~= esc_char(c) + Seq::<char>::empty());
    } else {
        assert(s.push(c).drop_first() =~= s.drop_first().push(c));
        lemma_esc_push(s.drop_first(), c);
        assert(esc(s.push(c)) == esc_char(s[0]) + esc(s.drop_first().push(c)));
    }
}

pub proof fn lemma_esc_cons(c: char, s: Seq<char>)
    ensures
        esc(seq![c] + s) =~= esc_char(c) + esc(s),
{
    let u = seq![c] + s;
    assert(u.len() > 0);
    assert(u[0] == c);
    assert(u.drop_first() =~= s);
}

/// Canonical text of a quoted string.
pub open spec fn str_text(s: Seq<char>) -> Seq<char> {
    seq!['"'] + esc(s) + seq!['"']
}

// ---------------------------------------------------------------------------
// Canonical text of a tree
// ---------------------------------------------------------------------------
pub open spec fn jtext(j: JsonModel) -> Seq<char>
    decreases j, 0int,
{
    match j {
        JsonModel::Str(s) => str_text(s),
        JsonModel::UInt(n) => dec_digits(n as int),
        JsonModel::Arr(items) => seq!['['] + list_text(items, 0) + seq![']'],
        JsonModel::Obj(pairs) => seq!['{'] + pairs_text(pairs, 0) + seq!['}'],
    }
}

pub open spec fn list_text(items: Seq<JsonModel>, i: int) -> Seq<char>
    decreases items, items.len() - i,
{
    if i < 0 || i >= items.len() {
        Seq::empty()
    } else if i == items.len() - 1 {
        jtext(items[i])
    } else {
        jtext(items[i]) + seq![','] + list_text(items, i + 1)
    }
}

pub open spec fn pairs_text(pairs: Seq<(Seq<char>, JsonModel)>, i: int) -> Seq<char>
    decreases pairs, pairs.len() - i,
{
    if i < 0 || i >= pairs.len() {
        Seq::empty()
    } else if i == pairs.len() - 1 {
        str_text(pairs[i].0) + seq![':'] + jtext(pairs[i].1)
    } else {
        str_text(pairs[i].0) + seq![':'] + jtext(pairs[i].1) + seq![','] + pairs_text(
            pairs,
            i + 1,
        )
    }
}

// ---------------------------------------------------------------------------
// Pattern matching over a text buffer
// ---------------------------------------------------------------------------
pub open spec fn matches_at(t: Seq<char>, pos: int, pat: Seq<char>) -> bool {
    &&& 0 <= pos
    &&& pos + pat.len() <= t.len()
    &&& t.subrange(pos, pos + pat.len()) == pat
}

pub proof fn lemma_matches_split(t: Seq<char>, pos: int, a: Seq<char>, b: Seq<char>)
    requires
        matches_at(t, pos, a + b),
    ensures
        matches_at(t, pos, a),
        matches_at(t, pos + a.len(), b),
{
    let ab = a + b;
    assert forall|k: int| 0 <= k < a.len() implies t[pos + k] == a[k] by {
        assert(t.subrange(pos, pos + ab.len())[k] == t[pos + k]);
        assert(ab[k] == a[k]);
    }
    assert(t.subrange(pos, pos + a.len()) =~= a);
    assert forall|k: int| 0 <= k < b.len() implies t[pos + a.len() + k] == b[k] by {
        assert(t.subrange(pos, pos + ab.len())[a.len() + k] == t[pos + a.len() + k]);
        assert(ab[a.len() + k] == b[k]);
    }
    assert(t.subrange(pos + a.len(), pos + a.len() + b.len()) =~= b);
}

pub proof fn lemma_matches_join(t: Seq<char>, pos: int, a: Seq<char>, b: Seq<char>)
    requires
        matches_at(t, pos, a),
        matches_at(t, pos + a.len(), b),
    ensures
        matches_at(t, pos, a + b),
{
    let ab = a + b;
    assert forall|k: int| 0 <= k < ab.len() implies t[pos + k] == ab[k] by {
        if k < a.len() {
            assert(t.subrange(pos, pos + a.len())[k] == t[pos + k]);
        } else {
            assert(t.subrange(pos + a.len(), pos + a.len() + b.len())[k - a.len()] == t[pos + k]);
        }
    }
    assert(t.subrange(pos, pos + ab.len()) =~= ab);
}

pub proof fn lemma_matches_char(t: Seq<char>, pos: int, c: char)
    requires
        matches_at(t, pos, seq![c]),
    ensures
        t[pos] == c,
{
    assert(t.subrange(pos, pos + 1)[0] == t[pos]);
}

// ---------------------------------------------------------------------------
// Emitting the canonical text
// ---------------------------------------------------------------------------
fn exec_digit_char(d: u64) -> (c: char)
    requires
        d < 10,
    ensures
        c == digit_char(d as int),
{
    if d == 0 {
        '0'
    } else if d == 1 {
        '1'
    } else if d == 2 {
        '2'
    } else if d == 3 {
        '3'
    } else if d == 4 {
        '4'
    } else if d == 5 {
        '5'
    } else if d == 6 {
        '6'
    } else if d == 7 {
        '7'
    } else if d == 8 {
        '8'
    } else {
        '9'
    }
}

pub fn emit_u64(n: u64, out: Vec<char>) -> (r: Vec<char>)
    ensures
        r@ == out@ + dec_digits(n as int),
    decreases n,
{
    let ghost entry = out@;
    let mut out = out;
    if n < 10 {
        out.push(exec_digit_char(n));
        proof {
            assert(out@ =~= entry + dec_digits(n as int));
        }
        out
    } else {
        let mut r = emit_u64(n / 10, out);
        r.push(exec_digit_char(n % 10));
        r
    }
}

pub fn emit_str(s: &str, out: Vec<char>) -> (r: Vec<char>)
    ensures
        r@ == out@ + str_text(s@),
{
    let mut r = out;
    r.push('"');
    let n = s.unicode_len();
    let mut i: usize = 0;
    while i < n
        invariant
            i <= n,
            n == s@.len(),
            r@ == out@ + seq!['"'] + esc(s@.take(i as int)),
        decreases n - i,
    {
        let c = s.get_char(i);
        if c == '"' || c == '\\' {
            r.push('\\');
            r.push(c);
        } else {
            r.push(c);
        }
        proof {
            assert(s@.take(i + 1 as int) =~= s@.take(i as int).push(s@[i as int]));
            lemma_esc_push(s@.take(i as int), s@[i as int]);
            assert(r@ =~= out@ + seq!['"'] + esc(s@.take(i + 1 as int)));
        }
        i += 1;
    }
    r.push('"');
    proof {
        assert(s@.take(n as int) =~= s@);
        assert(r@ =~= out@ + str_text(s@));
    }
    r
}

pub fn emit_value(v: &JsonValue, out: Vec<char>) -> (r: Vec<char>)
    ensures
        r@ == out@ + jtext(v@),
    decreases *v, 0int,
{
    match v {
        JsonValue::Str(s) => emit_str(s.as_str(), out),
        JsonValue::UInt(n) => emit_u64(*n, out),
        JsonValue::Arr(items) => {
            let mut r = out;
            r.push('[');
            if items.len() > 0 {
                r = emit_list(items, 0, r);
            }
            r.push(']');
            proof {
                if items@.len() == 0 {
                    lemma_jmodel_list(items@, 0);
                    assert(list_text(jmodel_list(items@, 0), 0) =~= Seq::<char>::empty());
                }
                assert(r@ =~= out@ + jtext(v@));
            }
            r
        },
        JsonValue::Obj(pairs) => {
            let mut r = out;
            r.push('{');
            if pairs.len() > 0 {
                r = emit_pairs(pairs, 0, r);
            }
            r.push('}');
            proof {
                if pairs@.len() == 0 {
                    lemma_jmodel_pairs(pairs@, 0);
                    assert(pairs_text(jmodel_pairs(pairs@, 0), 0) =~= Seq::<char>::empty());
                }
                assert(r@ =~= out@ + jtext(v@));
            }
            r
        },
    }
}

fn emit_list(items: &Vec<JsonValue>, i: usize, out: Vec<char>) -> (r: Vec<char>)
    requires
        i < items@.len(),
    ensures
        r@ == out@ + list_text(jmodel_list(items@, 0), i as int),
    decreases *items, items@.len() - i,
{
    proof {
        lemma_jmodel_list(items@, 0);
    }
    let ghost models = jmodel_list(items@, 0);
    let mut r = emit_value(&items[i], out);
    if i == items.len() - 1 {
        proof {
            assert(list_text(models, i as int) == jtext(models[i as int]));
        }
        r
    } else {
        r.push(',');
        let r2 = emit_list(items, i + 1, r);
        proof {
            assert(r2@ =~= out@ + list_text(models, i as int));
        }
        r2
    }
}

fn emit_pairs(pairs: &Vec<(String, JsonValue)>, i: usize, out: Vec<char>) -> (r: Vec<char>)
    requires
        i < pairs@.len(),
    ensures
        r@ == out@ + pairs_text(jmodel_pairs(pairs@, 0), i as int),
    decreases *pairs, pairs@.len() - i,
{
    proof {
        lemma_jmodel_pairs(pairs@, 0);
    }
    let ghost models = jmodel_pairs(pairs@, 0);
    let mut r = emit_str(pairs[i].0.as_str(), out);
    r.push(':');
    r = emit_value(&pairs[i].1, r);
    if i == pairs.len() - 1 {
        proof {
            assert(r@ =~= out@ + pairs_text(models, i as int));
        }
        r
    } else {
        r.push(',');
        let r2 = emit_pairs(pairs, i + 1, r);
        proof {
            assert(r2@ =~= out@ + pairs_text(models, i as int));
        }
        r2
    }
}

} // verus!
