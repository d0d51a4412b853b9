//! A small structured-text reader for the schema document format: objects,
//! arrays, strings, unsigned integers, booleans and null. The grammar is
//! stated as spec functions (`spec_value_end` and its companions give, for a
//! tree and a position, the position after its text); the reader is proved
//! sound and complete against it: a returned tree is what the text holds,
//! and a rejected text holds no tree.

use vstd::prelude::*;

verus! {

/// One node of a parsed schema document.
pub enum Json {
    Null,
    Bool(bool),
    Num(u64),
    Text(Vec<u8>),
    Arr(Vec<Json>),
    Obj(Vec<(Vec<u8>, Json)>),
}

pub open spec fn is_ws(c: u8) -> bool {
    c == 32 || c == 9 || c == 10 || c == 13
}

/// The first position at or after `pos` that does not hold whitespace.
pub open spec fn spec_skip_ws(doc: Seq<u8>, pos: int) -> int
    decreases doc.len() - pos,
        when 0 <= pos <= doc.len()
{
    if pos < doc.len() && is_ws(doc[pos]) {
        spec_skip_ws(doc, pos + 1)
    } else {
        pos
    }
}

/// The byte an escape sequence denotes, if the escape is accepted.
pub open spec fn spec_escape(e: u8) -> Option<u8> {
    if e == 34 {
        Some(34u8)
    } else if e == 92 {
        Some(92u8)
    } else if e == 47 {
        Some(47u8)
    } else if e == 110 {
        Some(10u8)
    } else if e == 116 {
        Some(9u8)
    } else if e == 114 {
        Some(13u8)
    } else if e == 98 {
        Some(8u8)
    } else if e == 102 {
        Some(12u8)
    } else {
        None
    }
}

/// The decoded content and end of a string whose opening quote stands just
/// before `p`: the bytes up to the closing quote, escapes decoded.
pub open spec fn spec_string_tail(doc: Seq<u8>, p: int) -> Option<(Seq<u8>, int)>
    decreases doc.len() - p,
        when 0 <= p <= doc.len()
{
    if p >= doc.len() {
        None
    } else if doc[p] == 34 {
        Some((Seq::empty(), p + 1))
    } else if doc[p] == 92 {
        if p + 1 >= doc.len() {
            None
        } else {
            match spec_escape(doc[p + 1]) {
                None => None,
                Some(d) => match spec_string_tail(doc, p + 2) {
                    None => None,
                    Some((s, q)) => Some((seq![d] + s, q)),
                },
            }
        }
    } else if doc[p] < 32 {
        None
    } else {
        match spec_string_tail(doc, p + 1) {
            None => None,
            Some((s, q)) => Some((seq![doc[p]] + s, q)),
        }
    }
}

/// The value and end of a run of digits starting at `p`, onto accumulator
/// `acc`; rejected if the value would not fit 64 bits.
pub open spec fn spec_number_from(doc: Seq<u8>, p: int, acc: u64) -> Option<(u64, int)>
    decreases doc.len() - p,
        when 0 <= p <= doc.len()
{
    if p < doc.len() && 48 <= doc[p] <= 57 {
        let d = doc[p] - 48;
        if acc > (18_446_744_073_709_551_615u64 - d) / 10 {
            None
        } else {
            spec_number_from(doc, p + 1, (acc * 10 + d) as u64)
        }
    } else {
        Some((acc, p))
    }
}

/// The position after the text of `j` when `j`'s text starts at `pos`, or
/// `None` when the text there does not hold `j`.
pub open spec fn spec_value_end(doc: Seq<u8>, pos: int, j: Json) -> Option<int>
    decreases j,
{
    if !(0 <= pos < doc.len()) {
        None
    } else {
        match j {
            Json::Null => {
                if pos + 4 <= doc.len() && doc[pos] == 110 && doc[pos + 1] == 117 && doc[pos + 2]
                    == 108 && doc[pos + 3] == 108 {
                    Some(pos + 4)
                } else {
                    None
                }
            },
            Json::Bool(b) => {
                if b {
                    if pos + 4 <= doc.len() && doc[pos] == 116 && doc[pos + 1] == 114 && doc[pos
                        + 2] == 117 && doc[pos + 3] == 101 {
                        Some(pos + 4)
                    } else {
                        None
                    }
                } else {
                    if pos + 5 <= doc.len() && doc[pos] == 102 && doc[pos + 1] == 97 && doc[pos + 2]
                        == 108 && doc[pos + 3] == 115 && doc[pos + 4] == 101 {
                        Some(pos + 5)
                    } else {
                        None
                    }
                }
            },
            Json::Num(n) => {
                if 48 <= doc[pos] <= 57 {
                    match spec_number_from(doc, pos, 0) {
                        None => None,
                        Some((v, q)) => if v == n {
                            Some(q)
                        } else {
                            None
                        },
                    }
                } else {
                    None
                }
            },
            Json::Text(s) => {
                if doc[pos] == 34 {
                    match spec_string_tail(doc, pos + 1) {
                        None => None,
                        Some((t, q)) => if t == s@ {
                            Some(q)
                        } else {
                            None
                        },
                    }
                } else {
                    None
                }
            },
            Json::Arr(items) => {
                if doc[pos] == 91 {
                    spec_items_end(doc, spec_skip_ws(doc, pos + 1), items@)
                } else {
                    None
                }
            },
            Json::Obj(entries) => {
                if doc[pos] == 123 {
                    spec_entries_end(doc, spec_skip_ws(doc, pos + 1), entries@)
                } else {
                    None
                }
            },
        }
    }
}

/// The position after an array's items and closing bracket, `p` standing at
/// the first item (or at the bracket when there is none).
pub open spec fn spec_items_end(doc: Seq<u8>, p: int, items: Seq<Json>) -> Option<int>
    decreases items,
{
    if items.len() == 0 {
        if 0 <= p < doc.len() && doc[p] == 93 {
            Some(p + 1)
        } else {
            None
        }
    } else {
        match spec_value_end(doc, p, items[0]) {
            None => None,
            Some(q) => {
                if !(0 <= q <= doc.len()) {
                    None
                } else {
                    let t = spec_skip_ws(doc, q);
                    if items.len() == 1 {
                        if t < doc.len() && doc[t] == 93 {
                            Some(t + 1)
                        } else {
                            None
                        }
                    } else {
                        if t < doc.len() && doc[t] == 44 {
                            spec_items_end(doc, spec_skip_ws(doc, t + 1), items.skip(1))
                        } else {
                            None
                        }
                    }
                }
            },
        }
    }
}

/// The position after an object's entries and closing brace, `p` standing at
/// the first key (or at the brace when there is none).
pub open spec fn spec_entries_end(doc: Seq<u8>, p: int, entries: Seq<(Vec<u8>, Json)>) -> Option<
    int,
>
    decreases entries,
{
    if entries.len() == 0 {
        if 0 <= p < doc.len() && doc[p] == 125 {
            Some(p + 1)
        } else {
            None
        }
    } else {
        if !(0 <= p < doc.len() && doc[p] == 34) {
            None
        } else {
            match spec_string_tail(doc, p + 1) {
                None => None,
                Some((key, q1)) => {
                    if key != entries[0].0@ || !(0 <= q1 <= doc.len()) {
                        None
                    } else {
                        let c = spec_skip_ws(doc, q1);
                        if !(c < doc.len() && doc[c] == 58) {
                            None
                        } else {
                            match spec_value_end(doc, spec_skip_ws(doc, c + 1), entries[0].1) {
                                None => None,
                                Some(q2) => {
                                    if !(0 <= q2 <= doc.len()) {
                                        None
                                    } else {
                                        let t = spec_skip_ws(doc, q2);
                                        if entries.len() == 1 {
                                            if t < doc.len() && doc[t] == 125 {
                                                Some(t + 1)
                                            } else {
                                                None
                                            }
                                        } else {
                                            if t < doc.len() && doc[t] == 44 {
                                                spec_entries_end(
                                                    doc,
                                                    spec_skip_ws(doc, t + 1),
                                                    entries.skip(1),
                                                )
                                            } else {
                                                None
                                            }
                                        }
                                    }
                                },
                            }
                        }
                    }
                },
            }
        }
    }
}

/// Two trees that hold the same data: equal scalars, byte-for-byte equal
/// strings and keys, and equal shapes.
pub open spec fn json_equiv(a: Json, b: Json) -> bool
    decreases a,
{
    match a {
        Json::Null => b is Null,
        Json::Bool(x) => b matches Json::Bool(y) && x == y,
        Json::Num(x) => b matches Json::Num(y) && x == y,
        Json::Text(x) => b matches Json::Text(y) && x@ == y@,
        Json::Arr(x) => b matches Json::Arr(y) && items_equiv(x@, y@),
        Json::Obj(x) => b matches Json::Obj(y) && entries_equiv(x@, y@),
    }
}

pub open spec fn items_equiv(a: Seq<Json>, b: Seq<Json>) -> bool
    decreases a,
{
    if a.len() != b.len() {
        false
    } else if a.len() == 0 {
        true
    } else {
        json_equiv(a[0], b[0]) && items_equiv(a.skip(1), b.skip(1))
    }
}

pub open spec fn entries_equiv(a: Seq<(Vec<u8>, Json)>, b: Seq<(Vec<u8>, Json)>) -> bool
    decreases a,
{
    if a.len() != b.len() {
        false
    } else if a.len() == 0 {
        true
    } else {
        a[0].0@ == b[0].0@ && json_equiv(a[0].1, b[0].1) && entries_equiv(a.skip(1), b.skip(1))
    }
}

pub proof fn lemma_items_equiv_index(a: Seq<Json>, b: Seq<Json>, i: int)
    requires
        items_equiv(a, b),
        0 <= i < a.len(),
    ensures
        a.len() == b.len(),
        json_equiv(a[i], b[i]),
    decreases i,
{
    if i > 0 {
        lemma_items_equiv_index(a.skip(1), b.skip(1), i - 1);
        assert(a.skip(1)[i - 1] == a[i]);
        assert(b.skip(1)[i - 1] == b[i]);
    }
}

pub proof fn lemma_entries_equiv_index(a: Seq<(Vec<u8>, Json)>, b: Seq<(Vec<u8>, Json)>, i: int)
    requires
        entries_equiv(a, b),
        0 <= i < a.len(),
    ensures
        a.len() == b.len(),
        a[i].0@ == b[i].0@,
        json_equiv(a[i].1, b[i].1),
    decreases i,
{
    if i > 0 {
        lemma_entries_equiv_index(a.skip(1), b.skip(1), i - 1);
        assert(a.skip(1)[i - 1] == a[i]);
        assert(b.skip(1)[i - 1] == b[i]);
    }
}

proof fn lemma_value_starter(doc: Seq<u8>, pos: int, j: Json)
    requires
        spec_value_end(doc, pos, j) is Some,
    ensures
        0 <= pos < doc.len(),
        j is Null ==> doc[pos] == 110,
        j is Bool ==> doc[pos] == 116 || doc[pos] == 102,
        j is Num ==> 48 <= doc[pos] <= 57,
        j is Text ==> doc[pos] == 34,
        j is Arr ==> doc[pos] == 91,
        j is Obj ==> doc[pos] == 123,
{
}

/// The grammar is unambiguous: two trees held at one position are the same
/// tree (up to byte-for-byte equal strings) and end at the same place.
pub proof fn lemma_value_unique(doc: Seq<u8>, pos: int, j1: Json, j2: Json)
    requires
        spec_value_end(doc, pos, j1) is Some,
        spec_value_end(doc, pos, j2) is Some,
    ensures
        json_equiv(j1, j2),
        spec_value_end(doc, pos, j1) == spec_value_end(doc, pos, j2),
    decreases j1,
{
    lemma_value_starter(doc, pos, j1);
    lemma_value_starter(doc, pos, j2);
    if j1 is Arr {
        lemma_items_unique(doc, spec_skip_ws(doc, pos + 1), j1->Arr_0@, j2->Arr_0@);
    } else if j1 is Obj {
        lemma_entries_unique(doc, spec_skip_ws(doc, pos + 1), j1->Obj_0@, j2->Obj_0@);
    }
}

proof fn lemma_items_unique(doc: Seq<u8>, p: int, a: Seq<Json>, b: Seq<Json>)
    requires
        spec_items_end(doc, p, a) is Some,
        spec_items_end(doc, p, b) is Some,
    ensures
        items_equiv(a, b),
        spec_items_end(doc, p, a) == spec_items_end(doc, p, b),
    decreases a,
{
    if a.len() == 0 {
        if b.len() > 0 {
            lemma_value_starter(doc, p, b[0]);
        }
    } else {
        if b.len() == 0 {
            lemma_value_starter(doc, p, a[0]);
        } else {
            lemma_value_unique(doc, p, a[0], b[0]);
            let q = spec_value_end(doc, p, a[0])->Some_0;
            let t = spec_skip_ws(doc, q);
            assert(spec_value_end(doc, p, b[0]) == Some(q));
            if a.len() == 1 {
                assert(b.len() == 1);
                assert(a.skip(1).len() == 0 && b.skip(1).len() == 0);
                assert(items_equiv(a.skip(1), b.skip(1)));
                assert(items_equiv(a, b));
            } else {
                assert(b.len() != 1);
                lemma_items_unique(doc, spec_skip_ws(doc, t + 1), a.skip(1), b.skip(1));
                assert(a.skip(1).len() == b.skip(1).len());
                assert(a.len() == b.len());
                assert(items_equiv(a, b));
                assert(spec_items_end(doc, p, a) == spec_items_end(doc, p, b));
            }
        }
    }
}

proof fn lemma_entries_unique(doc: Seq<u8>, p: int, a: Seq<(Vec<u8>, Json)>, b: Seq<(Vec<u8>, Json)>)
    requires
        spec_entries_end(doc, p, a) is Some,
        spec_entries_end(doc, p, b) is Some,
    ensures
        entries_equiv(a, b),
        spec_entries_end(doc, p, a) == spec_entries_end(doc, p, b),
    decreases a,
{
    if a.len() == 0 {
        if b.len() > 0 {
            assert(doc[p] == 125);
        }
    } else {
        if b.len() == 0 {
            assert(doc[p] == 34);
        } else {
            let key = spec_string_tail(doc, p + 1)->Some_0.0;
            let q1 = spec_string_tail(doc, p + 1)->Some_0.1;
            assert(a[0].0@ == key && b[0].0@ == key);
            let c = spec_skip_ws(doc, q1);
            let vp = spec_skip_ws(doc, c + 1);
            lemma_value_unique(doc, vp, a[0].1, b[0].1);
            let q2 = spec_value_end(doc, vp, a[0].1)->Some_0;
            let t = spec_skip_ws(doc, q2);
            assert(spec_value_end(doc, vp, b[0].1) == Some(q2));
            if a.len() == 1 {
                assert(b.len() == 1);
                assert(a.skip(1).len() == 0 && b.skip(1).len() == 0);
                assert(entries_equiv(a.skip(1), b.skip(1)));
                assert(entries_equiv(a, b));
            } else {
                assert(b.len() != 1);
                lemma_entries_unique(doc, spec_skip_ws(doc, t + 1), a.skip(1), b.skip(1));
                assert(a.skip(1).len() == b.skip(1).len());
                assert(a.len() == b.len());
                assert(entries_equiv(a, b));
                assert(spec_entries_end(doc, p, a) == spec_entries_end(doc, p, b));
            }
        }
    }
}

proof fn lemma_byte_nums_equiv(a: Seq<Json>, b: Seq<Json>)
    requires
        items_equiv(a, b),
        all_byte_nums(a),
    ensures
        all_byte_nums(b),
{
    assert forall|i: int| 0 <= i < b.len() implies (#[trigger] b[i]) is Num && b[i]->Num_0
        <= 255 by {
        assert(a.len() == b.len());
        lemma_items_equiv_index(a, b, i);
        assert(a[i] is Num && a[i]->Num_0 <= 255);
    }
}

/// A whole document holds the tree `j`: `j`'s text, between leading and
/// trailing whitespace, is the document.
pub open spec fn spec_document_holds(doc: Seq<u8>, j: Json) -> bool {
    exists|end: int|
        {
            &&& #[trigger] spec_value_end(doc, spec_skip_ws(doc, 0), j) == Some(end)
            &&& 0 <= end <= doc.len()
            &&& spec_skip_ws(doc, end) == doc.len()
        }
}

fn skip_ws(doc: &Vec<u8>, pos: usize) -> (r: usize)
    requires
        pos <= doc@.len(),
    ensures
        pos <= r <= doc@.len(),
        r as int == spec_skip_ws(doc@, pos as int),
{
    let mut p = pos;
    while p < doc.len() && (doc[p] == 32 || doc[p] == 9 || doc[p] == 10 || doc[p] == 13)
        invariant
            pos <= p <= doc@.len(),
            spec_skip_ws(doc@, pos as int) == spec_skip_ws(doc@, p as int),
        decreases doc@.len() - p,
    {
        p = p + 1;
    }
    p
}

fn escape_byte(e: u8) -> (r: Option<u8>)
    ensures
        r == spec_escape(e),
{
    if e == 34 {
        Some(34)
    } else if e == 92 {
        Some(92)
    } else if e == 47 {
        Some(47)
    } else if e == 110 {
        Some(10)
    } else if e == 116 {
        Some(9)
    } else if e == 114 {
        Some(13)
    } else if e == 98 {
        Some(8)
    } else if e == 102 {
        Some(12)
    } else {
        None
    }
}

/// `prefix` prepended to the content of a string-tail result.
spec fn prepend_tail(prefix: Seq<u8>, r: Option<(Seq<u8>, int)>) -> Option<(Seq<u8>, int)> {
    match r {
        None => None,
        Some((s, q)) => Some((prefix + s, q)),
    }
}

proof fn lemma_prepend_compose(a: Seq<u8>, b: Seq<u8>, r: Option<(Seq<u8>, int)>)
    ensures
        prepend_tail(a, prepend_tail(b, r)) == prepend_tail(a + b, r),
{
    match r {
        None => {},
        Some((s, q)) => {
            assert(a + (b + s) =~= (a + b) + s);
        },
    }
}

fn parse_string(doc: &Vec<u8>, pos: usize) -> (r: Option<(Vec<u8>, usize)>)
    requires
        pos < doc@.len(),
        doc@[pos as int] == 34,
    ensures
        r matches Some((s, q)) ==> {
            &&& pos < q <= doc@.len()
            &&& spec_string_tail(doc@, pos + 1 as int) == Some((s@, q as int))
        },
        r is None ==> spec_string_tail(doc@, pos + 1 as int) is None,
{
    let n = doc.len();
    let mut out: Vec<u8> = Vec::new();
    let mut p = pos + 1;
    loop
        invariant
            n == doc@.len(),
            pos < p <= doc@.len(),
            spec_string_tail(doc@, pos + 1 as int) == prepend_tail(
                out@,
                spec_string_tail(doc@, p as int),
            ),
        decreases doc@.len() - p,
    {
        let ghost out_head = out@;
        if p >= n {
            return None;
        }
        let c = doc[p];
        if c == 34 {
            proof {
                assert(spec_string_tail(doc@, p as int) == Some(
                    (Seq::<u8>::empty(), p + 1 as int),
                ));
                assert(out@ + Seq::<u8>::empty() =~= out@);
            }
            return Some((out, p + 1));
        }
        if c == 92 {
            if p + 1 >= n {
                return None;
            }
            match escape_byte(doc[p + 1]) {
                Some(d) => {
                    out.push(d);
                    proof {
                        assert(spec_string_tail(doc@, p as int) == prepend_tail(
                            seq![d],
                            spec_string_tail(doc@, p + 2 as int),
                        ));
                        lemma_prepend_compose(
                            out_head,
                            seq![d],
                            spec_string_tail(doc@, p + 2 as int),
                        );
                        assert(out_head + seq![d] =~= out@);
                    }
                    p = p + 2;
                },
                None => {
                    return None;
                },
            }
        } else if c < 32 {
            return None;
        } else {
            out.push(c);
            proof {
                assert(spec_string_tail(doc@, p as int) == prepend_tail(
                    seq![c],
                    spec_string_tail(doc@, p + 1 as int),
                ));
                lemma_prepend_compose(out_head, seq![c], spec_string_tail(doc@, p + 1 as int));
                assert(out_head + seq![c] =~= out@);
            }
            p = p + 1;
        }
    }
}

fn parse_number(doc: &Vec<u8>, pos: usize) -> (r: Option<(u64, usize)>)
    requires
        pos < doc@.len(),
        48 <= doc@[pos as int] <= 57,
    ensures
        r matches Some((v, q)) ==> {
            &&& pos < q <= doc@.len()
            &&& spec_number_from(doc@, pos as int, 0) == Some((v, q as int))
        },
        r is None ==> spec_number_from(doc@, pos as int, 0) is None,
{
    let mut val: u64 = 0;
    let mut p = pos;
    while p < doc.len() && 48 <= doc[p] && doc[p] <= 57
        invariant
            pos <= p <= doc@.len(),
            spec_number_from(doc@, pos as int, 0) == spec_number_from(doc@, p as int, val),
        decreases doc@.len() - p,
    {
        let d = (doc[p] - 48) as u64;
        if val > (18_446_744_073_709_551_615u64 - d) / 10 {
            return None;
        }
        proof {
            assert(val * 10 + d <= 18_446_744_073_709_551_615u64) by (nonlinear_arith)
                requires
                    val <= (18_446_744_073_709_551_615u64 - d) / 10,
                    d <= 9,
            ;
        }
        val = val * 10 + d;
        p = p + 1;
    }
    Some((val, p))
}

fn parse_value(doc: &Vec<u8>, pos: usize) -> (r: Option<(Json, usize)>)
    requires
        pos <= doc@.len(),
    ensures
        r matches Some((v, q)) ==> {
            &&& pos < q <= doc@.len()
            &&& spec_value_end(doc@, pos as int, v) == Some(q as int)
        },
        r is None ==> forall|j: Json| spec_value_end(doc@, pos as int, j) is None,
    decreases doc@.len() - pos,
{
    if pos >= doc.len() {
        return None;
    }
    let c = doc[pos];
    if c == 110 {
        // the literal `null`
        if doc.len() - pos >= 4 && doc[pos + 1] == 117 && doc[pos + 2] == 108 && doc[pos + 3]
            == 108 {
            return Some((Json::Null, pos + 4));
        }
        return None;
    }
    if c == 116 {
        // the literal `true`
        if doc.len() - pos >= 4 && doc[pos + 1] == 114 && doc[pos + 2] == 117 && doc[pos + 3]
            == 101 {
            return Some((Json::Bool(true), pos + 4));
        }
        return None;
    }
    if c == 102 {
        // the literal `false`
        if doc.len() - pos >= 5 && doc[pos + 1] == 97 && doc[pos + 2] == 108 && doc[pos + 3] == 115
            && doc[pos + 4] == 101 {
            return Some((Json::Bool(false), pos + 5));
        }
        return None;
    }
    if c == 34 {
        return match parse_string(doc, pos) {
            Some((s, p)) => Some((Json::Text(s), p)),
            None => None,
        };
    }
    if 48 <= c && c <= 57 {
        return match parse_number(doc, pos) {
            Some((n, p)) => Some((Json::Num(n), p)),
            None => None,
        };
    }
    if c == 91 {
        // an array
        let mut items: Vec<Json> = Vec::new();
        let p0 = skip_ws(doc, pos + 1);
        if p0 < doc.len() && doc[p0] == 93 {
            return Some((Json::Arr(items), p0 + 1));
        }
        let mut p = p0;
        proof {
            assert forall|rest: Seq<Json>| rest.len() > 0 implies #[trigger] spec_items_end(
                doc@,
                p as int,
                rest,
            ) == spec_items_end(doc@, p0 as int, items@ + rest) by {
                assert(items@ + rest =~= rest);
            }
            assert forall|all: Seq<Json>|
                (#[trigger] spec_items_end(doc@, p0 as int, all)) is Some implies exists|
                rest: Seq<Json>,
            |
                rest.len() > 0 && spec_items_end(doc@, p as int, rest) == spec_items_end(
                    doc@,
                    p0 as int,
                    all,
                ) by {
                if all.len() == 0 {
                    assert(spec_items_end(doc@, p0 as int, all) is None);
                }
                assert(spec_items_end(doc@, p as int, all) == spec_items_end(
                    doc@,
                    p0 as int,
                    all,
                ));
            }
        }
        loop
            invariant
                pos < p0 <= doc@.len(),
                p0 as int == spec_skip_ws(doc@, pos + 1 as int),
                p0 <= p <= doc@.len(),
                pos < doc@.len(),
                doc@[pos as int] == 91,
                forall|rest: Seq<Json>|
                    rest.len() > 0 ==> #[trigger] spec_items_end(doc@, p as int, rest)
                        == spec_items_end(doc@, p0 as int, items@ + rest),
                forall|all: Seq<Json>|
                    (#[trigger] spec_items_end(doc@, p0 as int, all)) is Some ==> exists|
                    rest: Seq<Json>,
                |
                        rest.len() > 0 && spec_items_end(doc@, p as int, rest) == spec_items_end(
                            doc@,
                            p0 as int,
                            all,
                        ),
            decreases doc@.len() - p,
        {
            let ghost items_head = items@;
            let (v, p2) = match parse_value(doc, p) {
                Some(x) => x,
                None => {
                    proof {
                        assert forall|j: Json| spec_value_end(doc@, pos as int, j) is None by {
                            if spec_value_end(doc@, pos as int, j) is Some {
                                lemma_value_starter(doc@, pos as int, j);
                                assert(spec_items_end(doc@, p0 as int, j->Arr_0@) is Some);
                                let rest = choose|rest: Seq<Json>|
                                    rest.len() > 0 && spec_items_end(doc@, p as int, rest)
                                        == spec_items_end(doc@, p0 as int, j->Arr_0@);
                                assert(spec_value_end(doc@, p as int, rest[0]) is Some);
                            }
                        }
                    }
                    return None;
                },
            };
            items.push(v);
            let p3 = skip_ws(doc, p2);
            if p3 >= doc.len() || (doc[p3] != 93 && doc[p3] != 44) {
                proof {
                    assert forall|j: Json| spec_value_end(doc@, pos as int, j) is None by {
                        if spec_value_end(doc@, pos as int, j) is Some {
                            lemma_value_starter(doc@, pos as int, j);
                            assert(spec_items_end(doc@, p0 as int, j->Arr_0@) is Some);
                            let rest = choose|rest: Seq<Json>|
                                rest.len() > 0 && spec_items_end(doc@, p as int, rest)
                                    == spec_items_end(doc@, p0 as int, j->Arr_0@);
                            assert(spec_value_end(doc@, p as int, rest[0]) is Some);
                            lemma_value_unique(doc@, p as int, rest[0], v);
                            assert(spec_items_end(doc@, p as int, rest) is None);
                        }
                    }
                }
                return None;
            }
            if doc[p3] == 93 {
                proof {
                    assert((seq![v]).len() == 1);
                    assert((seq![v])[0] == v);
                    assert(spec_items_end(doc@, p as int, seq![v]) == Some(p3 + 1 as int));
                    assert(items@ =~= items_head + seq![v]);
                    assert(spec_items_end(doc@, p0 as int, items@) == Some(p3 + 1 as int));
                    assert(spec_value_end(doc@, pos as int, Json::Arr(items)) == Some(
                        p3 + 1 as int,
                    ));
                }
                return Some((Json::Arr(items), p3 + 1));
            }
            let p4 = skip_ws(doc, p3 + 1);
            proof {
                assert forall|rest: Seq<Json>| rest.len() > 0 implies #[trigger] spec_items_end(
                    doc@,
                    p4 as int,
                    rest,
                ) == spec_items_end(doc@, p0 as int, items@ + rest) by {
                    let combined = seq![v] + rest;
                    assert(combined[0] == v);
                    assert(combined.skip(1) =~= rest);
                    assert(spec_items_end(doc@, p as int, combined) == spec_items_end(
                        doc@,
                        p4 as int,
                        rest,
                    ));
                    assert(spec_items_end(doc@, p as int, combined) == spec_items_end(
                        doc@,
                        p0 as int,
                        items_head + combined,
                    ));
                    assert(items_head + combined =~= items@ + rest);
                }
                assert forall|all: Seq<Json>|
                    (#[trigger] spec_items_end(doc@, p0 as int, all)) is Some implies exists|
                    rest2: Seq<Json>,
                |
                    rest2.len() > 0 && spec_items_end(doc@, p4 as int, rest2) == spec_items_end(
                        doc@,
                        p0 as int,
                        all,
                    ) by {
                    let rest = choose|rest: Seq<Json>|
                        rest.len() > 0 && spec_items_end(doc@, p as int, rest) == spec_items_end(
                            doc@,
                            p0 as int,
                            all,
                        );
                    assert(spec_value_end(doc@, p as int, rest[0]) is Some);
                    lemma_value_unique(doc@, p as int, rest[0], v);
                    assert(rest.len() != 1);
                    assert(spec_items_end(doc@, p as int, rest) == spec_items_end(
                        doc@,
                        p4 as int,
                        rest.skip(1),
                    ));
                    assert(rest.skip(1).len() > 0);
                }
            }
            p = p4;
        }
    }
    if c == 123 {
        // an object
        let mut entries: Vec<(Vec<u8>, Json)> = Vec::new();
        let p0 = skip_ws(doc, pos + 1);
        if p0 < doc.len() && doc[p0] == 125 {
            return Some((Json::Obj(entries), p0 + 1));
        }
        let mut p = p0;
        proof {
            assert forall|rest: Seq<(Vec<u8>, Json)>|
                rest.len() > 0 implies #[trigger] spec_entries_end(doc@, p as int, rest)
                == spec_entries_end(doc@, p0 as int, entries@ + rest) by {
                assert(entries@ + rest =~= rest);
            }
            assert forall|all: Seq<(Vec<u8>, Json)>|
                (#[trigger] spec_entries_end(doc@, p0 as int, all)) is Some implies exists|
                rest: Seq<(Vec<u8>, Json)>,
            |
                rest.len() > 0 && spec_entries_end(doc@, p as int, rest) == spec_entries_end(
                    doc@,
                    p0 as int,
                    all,
                ) by {
                if all.len() == 0 {
                    assert(spec_entries_end(doc@, p0 as int, all) is None);
                }
                assert(spec_entries_end(doc@, p as int, all) == spec_entries_end(
                    doc@,
                    p0 as int,
                    all,
                ));
            }
        }
        loop
            invariant
                pos < p0 <= doc@.len(),
                p0 as int == spec_skip_ws(doc@, pos + 1 as int),
                p0 <= p <= doc@.len(),
                pos < doc@.len(),
                doc@[pos as int] == 123,
                forall|rest: Seq<(Vec<u8>, Json)>|
                    rest.len() > 0 ==> #[trigger] spec_entries_end(doc@, p as int, rest)
                        == spec_entries_end(doc@, p0 as int, entries@ + rest),
                forall|all: Seq<(Vec<u8>, Json)>|
                    (#[trigger] spec_entries_end(doc@, p0 as int, all)) is Some ==> exists|
                    rest: Seq<(Vec<u8>, Json)>,
                |
                        rest.len() > 0 && spec_entries_end(doc@, p as int, rest)
                            == spec_entries_end(doc@, p0 as int, all),
            decreases doc@.len() - p,
        {
            let ghost entries_head = entries@;
            if p >= doc.len() || doc[p] != 34 {
                proof {
                    assert forall|j: Json| spec_value_end(doc@, pos as int, j) is None by {
                        if spec_value_end(doc@, pos as int, j) is Some {
                            lemma_value_starter(doc@, pos as int, j);
                            assert(spec_entries_end(doc@, p0 as int, j->Obj_0@) is Some);
                            let rest = choose|rest: Seq<(Vec<u8>, Json)>|
                                rest.len() > 0 && spec_entries_end(doc@, p as int, rest)
                                    == spec_entries_end(doc@, p0 as int, j->Obj_0@);
                            assert(spec_entries_end(doc@, p as int, rest) is None);
                        }
                    }
                }
                return None;
            }
            let (k, p2) = match parse_string(doc, p) {
                Some(x) => x,
                None => {
                    proof {
                        assert forall|j: Json| spec_value_end(doc@, pos as int, j) is None by {
                            if spec_value_end(doc@, pos as int, j) is Some {
                                lemma_value_starter(doc@, pos as int, j);
                                assert(spec_entries_end(doc@, p0 as int, j->Obj_0@) is Some);
                                let rest = choose|rest: Seq<(Vec<u8>, Json)>|
                                    rest.len() > 0 && spec_entries_end(doc@, p as int, rest)
                                        == spec_entries_end(doc@, p0 as int, j->Obj_0@);
                                assert(spec_entries_end(doc@, p as int, rest) is None);
                            }
                        }
                    }
                    return None;
                },
            };
            let p3 = skip_ws(doc, p2);
            if p3 >= doc.len() || doc[p3] != 58 {
                proof {
                    assert forall|j: Json| spec_value_end(doc@, pos as int, j) is None by {
                        if spec_value_end(doc@, pos as int, j) is Some {
                            lemma_value_starter(doc@, pos as int, j);
                            assert(spec_entries_end(doc@, p0 as int, j->Obj_0@) is Some);
                            let rest = choose|rest: Seq<(Vec<u8>, Json)>|
                                rest.len() > 0 && spec_entries_end(doc@, p as int, rest)
                                    == spec_entries_end(doc@, p0 as int, j->Obj_0@);
                            assert(spec_entries_end(doc@, p as int, rest) is None);
                        }
                    }
                }
                return None;
            }
            let p4 = skip_ws(doc, p3 + 1);
            let (v, p5) = match parse_value(doc, p4) {
                Some(x) => x,
                None => {
                    proof {
                        assert forall|j: Json| spec_value_end(doc@, pos as int, j) is None by {
                            if spec_value_end(doc@, pos as int, j) is Some {
                                lemma_value_starter(doc@, pos as int, j);
                                assert(spec_entries_end(doc@, p0 as int, j->Obj_0@) is Some);
                                let rest = choose|rest: Seq<(Vec<u8>, Json)>|
                                    rest.len() > 0 && spec_entries_end(doc@, p as int, rest)
                                        == spec_entries_end(doc@, p0 as int, j->Obj_0@);
                                assert(spec_value_end(doc@, p4 as int, rest[0].1) is Some);
                            }
                        }
                    }
                    return None;
                },
            };
            let ghost key_view = k@;
            let ghost value_held = v;
            entries.push((k, v));
            let p6 = skip_ws(doc, p5);
            if p6 >= doc.len() || (doc[p6] != 125 && doc[p6] != 44) {
                proof {
                    assert forall|j: Json| spec_value_end(doc@, pos as int, j) is None by {
                        if spec_value_end(doc@, pos as int, j) is Some {
                            lemma_value_starter(doc@, pos as int, j);
                            assert(spec_entries_end(doc@, p0 as int, j->Obj_0@) is Some);
                            let rest = choose|rest: Seq<(Vec<u8>, Json)>|
                                rest.len() > 0 && spec_entries_end(doc@, p as int, rest)
                                    == spec_entries_end(doc@, p0 as int, j->Obj_0@);
                            assert(spec_value_end(doc@, p4 as int, rest[0].1) is Some);
                            lemma_value_unique(doc@, p4 as int, rest[0].1, value_held);
                            assert(spec_entries_end(doc@, p as int, rest) is None);
                        }
                    }
                }
                return None;
            }
            if doc[p6] == 125 {
                proof {
                    let e = entries@[entries@.len() - 1];
                    assert(e.0@ == key_view && e.1 == value_held);
                    assert((seq![e]).len() == 1);
                    assert((seq![e])[0] == e);
                    assert(spec_entries_end(doc@, p as int, seq![e]) == Some(p6 + 1 as int));
                    assert(entries@ =~= entries_head + seq![e]);
                    assert(spec_entries_end(doc@, p0 as int, entries@) == Some(p6 + 1 as int));
                    assert(spec_value_end(doc@, pos as int, Json::Obj(entries)) == Some(
                        p6 + 1 as int,
                    ));
                }
                return Some((Json::Obj(entries), p6 + 1));
            }
            let p7 = skip_ws(doc, p6 + 1);
            proof {
                let e = entries@[entries@.len() - 1];
                assert(e.0@ == key_view && e.1 == value_held);
                assert forall|rest: Seq<(Vec<u8>, Json)>|
                    rest.len() > 0 implies #[trigger] spec_entries_end(doc@, p7 as int, rest)
                    == spec_entries_end(doc@, p0 as int, entries@ + rest) by {
                    let combined = seq![e] + rest;
                    assert(combined[0] == e);
                    assert(combined.skip(1) =~= rest);
                    assert(spec_entries_end(doc@, p as int, combined) == spec_entries_end(
                        doc@,
                        p7 as int,
                        rest,
                    ));
                    assert(spec_entries_end(doc@, p as int, combined) == spec_entries_end(
                        doc@,
                        p0 as int,
                        entries_head + combined,
                    ));
                    assert(entries_head + combined =~= entries@ + rest);
                }
                assert forall|all: Seq<(Vec<u8>, Json)>|
                    (#[trigger] spec_entries_end(doc@, p0 as int, all)) is Some implies exists|
                    rest2: Seq<(Vec<u8>, Json)>,
                |
                    rest2.len() > 0 && spec_entries_end(doc@, p7 as int, rest2)
                        == spec_entries_end(doc@, p0 as int, all) by {
                    let rest = choose|rest: Seq<(Vec<u8>, Json)>|
                        rest.len() > 0 && spec_entries_end(doc@, p as int, rest)
                            == spec_entries_end(doc@, p0 as int, all);
                    assert(spec_value_end(doc@, p4 as int, rest[0].1) is Some);
                    lemma_value_unique(doc@, p4 as int, rest[0].1, value_held);
                    assert(rest.len() != 1);
                    assert(spec_entries_end(doc@, p as int, rest) == spec_entries_end(
                        doc@,
                        p7 as int,
                        rest.skip(1),
                    ));
                    assert(rest.skip(1).len() > 0);
                }
            }
            p = p7;
        }
    }
    None
}

/// Parses a whole document: one value, surrounded only by whitespace. Sound
/// and complete against the grammar: a returned tree is what the text holds,
/// and a rejected text holds no tree.
pub(crate) fn parse_json(doc: &Vec<u8>) -> (r: Option<Json>)
    ensures
        r matches Some(j) ==> spec_document_holds(doc@, j),
        r is None ==> forall|j: Json| !spec_document_holds(doc@, j),
{
    let p = skip_ws(doc, 0);
    match parse_value(doc, p) {
        None => {
            proof {
                assert forall|j: Json| !spec_document_holds(doc@, j) by {
                    if spec_document_holds(doc@, j) {
                        let end = choose|end: int|
                            spec_value_end(doc@, spec_skip_ws(doc@, 0), j) == Some(end) && 0 <= end
                                <= doc@.len() && spec_skip_ws(doc@, end) == doc@.len();
                        assert(spec_value_end(doc@, p as int, j) is Some);
                    }
                }
            }
            None
        },
        Some((v, p2)) => {
            let p3 = skip_ws(doc, p2);
            if p3 == doc.len() {
                proof {
                    assert(spec_value_end(doc@, spec_skip_ws(doc@, 0), v) == Some(p2 as int));
                }
                Some(v)
            } else {
                proof {
                    assert forall|j: Json| !spec_document_holds(doc@, j) by {
                        if spec_document_holds(doc@, j) {
                            let end = choose|end: int|
                                spec_value_end(doc@, spec_skip_ws(doc@, 0), j) == Some(end) && 0
                                    <= end <= doc@.len() && spec_skip_ws(doc@, end) == doc@.len();
                            assert(spec_value_end(doc@, p as int, j) is Some);
                            lemma_value_unique(doc@, p as int, j, v);
                            assert(end == p2 as int);
                        }
                    }
                }
                None
            }
        },
    }
}

/// Whether every item of an array is an integer that fits one byte.
pub open spec fn all_byte_nums(items: Seq<Json>) -> bool {
    forall|i: int|
        0 <= i < items.len() ==> (#[trigger] items[i]) is Num && items[i]->Num_0 <= 255
}

/// The bytes an all-byte array denotes, in order.
pub open spec fn nums_as_bytes(items: Seq<Json>) -> Seq<u8> {
    Seq::new(items.len(), |i: int| items[i]->Num_0 as u8)
}

/// Reads a parsed value as a byte array: succeeds exactly on an array whose
/// items are all integers at most 255, and returns those bytes in order.
pub fn bytes_from_json(j: &Json) -> (r: Option<Vec<u8>>)
    ensures
        r is Some <==> *j is Arr && all_byte_nums(j->Arr_0@),
        r is Some ==> r->Some_0@ == nums_as_bytes(j->Arr_0@),
{
    match j {
        Json::Arr(items) => {
            proof {
                assert(j->Arr_0@ == items@);
            }
            let mut out: Vec<u8> = Vec::new();
            let mut i: usize = 0;
            while i < items.len()
                invariant
                    *j is Arr,
                    j->Arr_0@ == items@,
                    i <= items@.len(),
                    out@.len() == i,
                    forall|k: int|
                        0 <= k < i ==> (#[trigger] items@[k]) is Num && items@[k]->Num_0 <= 255,
                    forall|k: int| 0 <= k < i ==> out@[k] == items@[k]->Num_0 as u8,
                decreases items@.len() - i,
            {
                match &items[i] {
                    Json::Num(n) => {
                        if *n > 255 {
                            proof {
                                assert(!all_byte_nums(items@)) by {
                                    assert(!((items@[i as int]) is Num && items@[i as int]->Num_0
                                        <= 255));
                                }
                            }
                            return None;
                        }
                        out.push(*n as u8);
                    },
                    _ => {
                        proof {
                            assert(!all_byte_nums(items@)) by {
                                assert(!((items@[i as int]) is Num && items@[i as int]->Num_0
                                    <= 255));
                            }
                        }
                        return None;
                    },
                }
                i += 1;
            }
            proof {
                assert(out@ =~= nums_as_bytes(items@));
            }
            Some(out)
        },
        _ => None,
    }
}

/// Reads a key file's content: a textual array of byte values, as key files
/// store secret and public key material. Succeeds exactly when the text
/// holds an array whose items all fit one byte; the result is those bytes in
/// order.
pub fn parse_key_bytes(doc: &Vec<u8>) -> (r: Option<Vec<u8>>)
    ensures
        r is Some ==> exists|j: Json|
            {
                &&& #[trigger] spec_document_holds(doc@, j)
                &&& j is Arr
                &&& all_byte_nums(j->Arr_0@)
                &&& r->Some_0@ == nums_as_bytes(j->Arr_0@)
            },
        r is None ==> forall|j: Json|
            !(#[trigger] spec_document_holds(doc@, j) && j is Arr && all_byte_nums(j->Arr_0@)),
{
    match parse_json(doc) {
        None => None,
        Some(j) => {
            let r = bytes_from_json(&j);
            proof {
                if r is Some {
                    assert(spec_document_holds(doc@, j) && j is Arr && all_byte_nums(j->Arr_0@)
                        && r->Some_0@ == nums_as_bytes(j->Arr_0@));
                } else {
                    assert forall|j2: Json|
                        !(#[trigger] spec_document_holds(doc@, j2) && j2 is Arr && all_byte_nums(
                            j2->Arr_0@,
                        )) by {
                        if spec_document_holds(doc@, j2) && j2 is Arr && all_byte_nums(
                            j2->Arr_0@,
                        ) {
                            let start = spec_skip_ws(doc@, 0);
                            let e1 = choose|end: int|
                                spec_value_end(doc@, start, j2) == Some(end) && 0 <= end
                                    <= doc@.len() && spec_skip_ws(doc@, end) == doc@.len();
                            let e2 = choose|end: int|
                                spec_value_end(doc@, start, j) == Some(end) && 0 <= end
                                    <= doc@.len() && spec_skip_ws(doc@, end) == doc@.len();
                            lemma_value_unique(doc@, start, j2, j);
                            assert(j is Arr);
                            lemma_byte_nums_equiv(j2->Arr_0@, j->Arr_0@);
                        }
                    }
                }
            }
            r
        },
    }
}

} // verus!
