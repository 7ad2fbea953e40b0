//! The structured value tree that payloads, flow settings and rule literals
//! share, together with its mathematical view, well-formedness, deep
//! equality, and decimal rendering of numbers.

use vstd::prelude::*;

use crate::strutil::{int_str, nat_str, push_char, u64_string, append_u64};

verus! {

/// A decimal number: `mantissa / 10^scale`.
///
/// The representation is canonical: a fractional part never ends in a zero
/// digit, so two equal numbers are field-equal. The scale is bounded so that
/// range and step checks fit in 128-bit arithmetic.
#[derive(Clone, Copy, PartialEq, Eq, Structural, Debug)]
pub struct Number {
    pub mantissa: i64,
    pub scale: u32,
}

/// Canonical form of a decimal number.
pub open spec fn num_wf(m: int, s: nat) -> bool {
    s <= 18 && (s > 0 ==> (if m < 0 {
        -m
    } else {
        m
    }) % 10 != 0)
}

/// A JSON-like payload: the system's universal interchange value.
#[derive(PartialEq, Debug)]
pub enum Value {
    Null,
    Bool(bool),
    Number(Number),
    String(String),
    List(Vec<Value>),
    Struct(Vec<(String, Value)>),
}

/// The mathematical shape of a `Value`.
pub enum ValueView {
    Null,
    Bool(bool),
    Num(int, nat),
    Str(Seq<char>),
    List(Seq<ValueView>),
    Rec(Seq<(Seq<char>, ValueView)>),
}

/// The view of a value tree.
pub open spec fn vview(v: Value) -> ValueView
    decreases v,
{
    match v {
        Value::Null => ValueView::Null,
        Value::Bool(b) => ValueView::Bool(b),
        Value::Number(n) => ValueView::Num(n.mantissa as int, n.scale as nat),
        Value::String(s) => ValueView::Str(s@),
        Value::List(l) => ValueView::List(views_of(l@)),
        Value::Struct(fs) => ValueView::Rec(field_views_of(fs@)),
    }
}

pub open spec fn views_of(s: Seq<Value>) -> Seq<ValueView>
    decreases s,
{
    if s.len() == 0 {
        Seq::empty()
    } else {
        seq![vview(s[0])] + views_of(s.drop_first())
    }
}

pub open spec fn field_views_of(s: Seq<(String, Value)>) -> Seq<(Seq<char>, ValueView)>
    decreases s,
{
    if s.len() == 0 {
        Seq::empty()
    } else {
        seq![(s[0].0@, vview(s[0].1))] + field_views_of(s.drop_first())
    }
}

impl View for Value {
    type V = ValueView;

    open spec fn view(&self) -> ValueView {
        vview(*self)
    }
}

/// The views of a sequence of values, element by element.
pub broadcast proof fn lemma_views_of_index(s: Seq<Value>)
    ensures
        (#[trigger] views_of(s)).len() == s.len(),
        forall|i: int| 0 <= i < s.len() ==> views_of(s)[i] == vview(#[trigger] s[i]),
    decreases s,
{
    if s.len() > 0 {
        lemma_views_of_index(s.drop_first());
        assert(forall|i: int| 1 <= i < s.len() ==> s.drop_first()[i - 1] == #[trigger] s[i]);
        assert(forall|i: int|
            1 <= i < s.len() ==> #[trigger] views_of(s)[i] == views_of(s.drop_first())[i - 1]);
    }
}

/// The views of a field list, element by element.
pub broadcast proof fn lemma_field_views_of_index(s: Seq<(String, Value)>)
    ensures
        (#[trigger] field_views_of(s)).len() == s.len(),
        forall|i: int|
            0 <= i < s.len() ==> field_views_of(s)[i] == ((#[trigger] s[i]).0@, vview(s[i].1)),
    decreases s,
{
    if s.len() > 0 {
        lemma_field_views_of_index(s.drop_first());
        assert(forall|i: int| 1 <= i < s.len() ==> s.drop_first()[i - 1] == #[trigger] s[i]);
        assert(forall|i: int|
            1 <= i < s.len() ==> #[trigger] field_views_of(s)[i] == field_views_of(
                s.drop_first(),
            )[i - 1]);
    }
}

/// The number of nodes in a value tree; the measure for recursion over
/// values that descend through fields and elements.
pub open spec fn vsize(v: ValueView) -> nat
    decreases v,
{
    match v {
        ValueView::List(es) => 1 + list_size(es),
        ValueView::Rec(fs) => 1 + rec_size(fs),
        _ => 1,
    }
}

pub open spec fn list_size(es: Seq<ValueView>) -> nat
    decreases es,
{
    if es.len() == 0 {
        0
    } else {
        vsize(es.first()) + list_size(es.drop_first())
    }
}

pub open spec fn rec_size(fs: Seq<(Seq<char>, ValueView)>) -> nat
    decreases fs,
{
    if fs.len() == 0 {
        0
    } else {
        vsize(fs.first().1) + rec_size(fs.drop_first())
    }
}

proof fn lemma_list_size_elem(es: Seq<ValueView>, i: int)
    requires
        0 <= i < es.len(),
    ensures
        vsize(es[i]) <= list_size(es),
    decreases es.len(),
{
    if i == 0 {
        assert(es[0] == es.first());
    } else {
        lemma_list_size_elem(es.drop_first(), i - 1);
        assert(es.drop_first()[i - 1] == es[i]);
    }
}

proof fn lemma_rec_size_elem(fs: Seq<(Seq<char>, ValueView)>, i: int)
    requires
        0 <= i < fs.len(),
    ensures
        vsize(fs[i].1) <= rec_size(fs),
    decreases fs.len(),
{
    if i == 0 {
        assert(fs[0] == fs.first());
    } else {
        lemma_rec_size_elem(fs.drop_first(), i - 1);
        assert(fs.drop_first()[i - 1] == fs[i]);
    }
}

/// An element of a list is a strictly smaller tree than the list.
pub proof fn lemma_list_elem_smaller(es: Seq<ValueView>, i: int)
    requires
        0 <= i < es.len(),
    ensures
        vsize(es[i]) < vsize(ValueView::List(es)),
{
    lemma_list_size_elem(es, i);
}

/// A field of a record is a strictly smaller tree than the record.
pub proof fn lemma_rec_field_smaller(fs: Seq<(Seq<char>, ValueView)>, i: int)
    requires
        0 <= i < fs.len(),
    ensures
        vsize(fs[i].1) < vsize(ValueView::Rec(fs)),
{
    lemma_rec_size_elem(fs, i);
}

/// The keys of a record are mutually distinct.
pub open spec fn keys_unique(fs: Seq<(Seq<char>, ValueView)>) -> bool {
    forall|i: int, j: int|
        0 <= i < j < fs.len() ==> (#[trigger] fs[i].0) != (#[trigger] fs[j].0)
}

/// Well-formed values: numbers are canonical and the keys of every record
/// are mutually distinct.
pub open spec fn view_wf(v: ValueView) -> bool
    decreases v,
{
    match v {
        ValueView::Num(m, s) => num_wf(m, s),
        ValueView::List(es) => list_wf(es),
        ValueView::Rec(fs) => keys_unique(fs) && fields_wf(fs),
        _ => true,
    }
}

pub open spec fn list_wf(es: Seq<ValueView>) -> bool
    decreases es,
{
    es.len() == 0 || (view_wf(es.first()) && list_wf(es.drop_first()))
}

pub open spec fn fields_wf(fs: Seq<(Seq<char>, ValueView)>) -> bool
    decreases fs,
{
    fs.len() == 0 || (view_wf(fs.first().1) && fields_wf(fs.drop_first()))
}

/// Each element of a well-formed list is itself well-formed.
pub proof fn lemma_list_wf_index(es: Seq<ValueView>)
    requires
        list_wf(es),
    ensures
        forall|i: int| 0 <= i < es.len() ==> view_wf(#[trigger] es[i]),
    decreases es.len(),
{
    if es.len() > 0 {
        lemma_list_wf_index(es.drop_first());
        assert(forall|i: int| 1 <= i < es.len() ==> es[i] == es.drop_first()[i - 1]);
        assert(es[0] == es.first());
    }
}

/// Each field of a well-formed record is itself well-formed.
pub proof fn lemma_fields_wf_index(fs: Seq<(Seq<char>, ValueView)>)
    requires
        fields_wf(fs),
    ensures
        forall|i: int| 0 <= i < fs.len() ==> view_wf((#[trigger] fs[i]).1),
    decreases fs.len(),
{
    if fs.len() > 0 {
        lemma_fields_wf_index(fs.drop_first());
        assert(forall|i: int| 1 <= i < fs.len() ==> fs[i] == fs.drop_first()[i - 1]);
        assert(fs[0] == fs.first());
    }
}

/// The value under `key` in a record, at the first field carrying that key.
pub open spec fn rec_lookup(fs: Seq<(Seq<char>, ValueView)>, key: Seq<char>) -> Option<ValueView>
    decreases fs,
{
    if fs.len() == 0 {
        None
    } else if fs.first().0 == key {
        Some(fs.first().1)
    } else {
        rec_lookup(fs.drop_first(), key)
    }
}

pub proof fn lemma_rec_lookup_at(fs: Seq<(Seq<char>, ValueView)>, key: Seq<char>, j: int)
    requires
        0 <= j < fs.len(),
        fs[j].0 == key,
        forall|jj: int| 0 <= jj < j ==> (#[trigger] fs[jj]).0 != key,
    ensures
        rec_lookup(fs, key) == Some(fs[j].1),
    decreases fs.len(),
{
    if j == 0 {
        assert(fs[0] == fs.first());
    } else {
        assert(fs.first().0 != key) by {
            assert(fs[0].0 != key);
        }
        assert(fs.drop_first()[j - 1] == fs[j]);
        assert(forall|jj: int|
            0 <= jj < j - 1 ==> (#[trigger] fs.drop_first()[jj]) == fs[jj + 1]);
        lemma_rec_lookup_at(fs.drop_first(), key, j - 1);
    }
}

pub proof fn lemma_rec_lookup_absent(fs: Seq<(Seq<char>, ValueView)>, key: Seq<char>)
    requires
        forall|j: int| 0 <= j < fs.len() ==> (#[trigger] fs[j]).0 != key,
    ensures
        rec_lookup(fs, key) is None,
    decreases fs.len(),
{
    if fs.len() > 0 {
        assert(fs.first().0 != key) by {
            assert(fs[0].0 != key);
        }
        assert(forall|j: int|
            0 <= j < fs.len() - 1 ==> (#[trigger] fs.drop_first()[j]) == fs[j + 1]);
        lemma_rec_lookup_absent(fs.drop_first(), key);
    }
}

/// Deep structural equality of two values; records compare as unordered
/// key-value mappings (every field of one record appears, with an equal
/// value, under the same key in the other, and the field counts agree).
pub open spec fn equiv(a: ValueView, b: ValueView) -> bool
    decreases a,
{
    match (a, b) {
        (ValueView::Null, ValueView::Null) => true,
        (ValueView::Bool(x), ValueView::Bool(y)) => x == y,
        (ValueView::Num(m1, s1), ValueView::Num(m2, s2)) => m1 == m2 && s1 == s2,
        (ValueView::Str(x), ValueView::Str(y)) => x == y,
        (ValueView::List(x), ValueView::List(y)) => x.len() == y.len() && lists_equiv(x, y),
        (ValueView::Rec(x), ValueView::Rec(y)) => x.len() == y.len() && recs_equiv(x, y),
        _ => false,
    }
}

pub open spec fn lists_equiv(x: Seq<ValueView>, y: Seq<ValueView>) -> bool
    decreases x,
{
    x.len() == 0 || y.len() == 0 || (equiv(x.first(), y.first()) && lists_equiv(
        x.drop_first(),
        y.drop_first(),
    ))
}

pub open spec fn recs_equiv(x: Seq<(Seq<char>, ValueView)>, y: Seq<(Seq<char>, ValueView)>) -> bool
    decreases x,
{
    if x.len() == 0 {
        true
    } else {
        match rec_lookup(y, x.first().0) {
            Some(v2) => equiv(x.first().1, v2) && recs_equiv(x.drop_first(), y),
            None => false,
        }
    }
}

/// For equally long lists, `lists_equiv` is elementwise equivalence.
pub proof fn lemma_lists_equiv_index(x: Seq<ValueView>, y: Seq<ValueView>)
    requires
        x.len() == y.len(),
    ensures
        lists_equiv(x, y) <==> (forall|i: int| 0 <= i < x.len() ==> equiv(#[trigger] x[i], y[i])),
    decreases x.len(),
{
    if x.len() > 0 {
        lemma_lists_equiv_index(x.drop_first(), y.drop_first());
        assert(forall|i: int| 1 <= i < x.len() ==> x[i] == x.drop_first()[i - 1]);
        assert(forall|i: int| 1 <= i < y.len() ==> y[i] == y.drop_first()[i - 1]);
        assert(x[0] == x.first());
        assert(y[0] == y.first());
    }
}

/// `recs_equiv` holds exactly when every field of `x` is found, equivalent,
/// under its key in `y`.
pub proof fn lemma_recs_equiv_index(x: Seq<(Seq<char>, ValueView)>, y: Seq<(Seq<char>, ValueView)>)
    ensures
        recs_equiv(x, y) <==> (forall|i: int|
            0 <= i < x.len() ==> {
                &&& rec_lookup(y, (#[trigger] x[i]).0) is Some
                &&& equiv(x[i].1, rec_lookup(y, x[i].0)->Some_0)
            }),
    decreases x.len(),
{
    if x.len() > 0 {
        lemma_recs_equiv_index(x.drop_first(), y);
        assert(forall|i: int| 1 <= i < x.len() ==> x[i] == x.drop_first()[i - 1]);
        assert(x[0] == x.first());
    }
}

/// The view of a value mirrors its constructor.
pub proof fn lemma_vview_variants(v: Value)
    ensures
        v is Null <==> vview(v) is Null,
        v is Bool <==> vview(v) is Bool,
        v is Number <==> vview(v) is Num,
        v is String <==> vview(v) is Str,
        v is List <==> vview(v) is List,
        v is Struct <==> vview(v) is Rec,
{
}

/// Deep equality of two values.
pub fn value_eq(a: &Value, b: &Value) -> (r: bool)
    ensures
        r == equiv(a@, b@),
    decreases vsize(a@),
{
    match (a, b) {
        (Value::Null, Value::Null) => true,
        (Value::Bool(x), Value::Bool(y)) => *x == *y,
        (Value::Number(x), Value::Number(y)) => x.mantissa == y.mantissa && x.scale == y.scale,
        (Value::String(x), Value::String(y)) => crate::strutil::str_eq(x.as_str(), y.as_str()),
        (Value::List(x), Value::List(y)) => {
            proof {
                lemma_views_of_index(x@);
                lemma_views_of_index(y@);
            }
            let ghost xs = views_of(x@);
            let ghost ys = views_of(y@);
            if x.len() != y.len() {
                return false;
            }
            let mut i: usize = 0;
            while i < x.len()
                invariant
                    0 <= i <= x@.len(),
                    x@.len() == y@.len(),
                    xs == views_of(x@),
                    ys == views_of(y@),
                    a@ == ValueView::List(xs),
                    b@ == ValueView::List(ys),
                    xs.len() == x@.len(),
                    ys.len() == y@.len(),
                    forall|k: int| 0 <= k < x@.len() ==> xs[k] == vview(#[trigger] x@[k]),
                    forall|k: int| 0 <= k < y@.len() ==> ys[k] == vview(#[trigger] y@[k]),
                    forall|k: int| 0 <= k < i ==> equiv(#[trigger] xs[k], ys[k]),
                decreases x@.len() - i,
            {
                proof {
                    assert(a@ == ValueView::List(xs));
                    lemma_list_elem_smaller(xs, i as int);
                }
                if !value_eq(&x[i], &y[i]) {
                    proof {
                        assert(b@ == ValueView::List(ys));
                        lemma_lists_equiv_index(xs, ys);
                    }
                    return false;
                }
                i = i + 1;
            }
            proof {
                assert(a@ == ValueView::List(xs));
                assert(b@ == ValueView::List(ys));
                lemma_lists_equiv_index(xs, ys);
            }
            true
        },
        (Value::Struct(x), Value::Struct(y)) => {
            proof {
                lemma_field_views_of_index(x@);
                lemma_field_views_of_index(y@);
            }
            let ghost xs = field_views_of(x@);
            let ghost ys = field_views_of(y@);
            if x.len() != y.len() {
                return false;
            }
            let mut i: usize = 0;
            while i < x.len()
                invariant
                    0 <= i <= x@.len(),
                    x@.len() == y@.len(),
                    xs == field_views_of(x@),
                    ys == field_views_of(y@),
                    a@ == ValueView::Rec(xs),
                    b@ == ValueView::Rec(ys),
                    xs.len() == x@.len(),
                    ys.len() == y@.len(),
                    forall|k: int|
                        0 <= k < x@.len() ==> #[trigger] xs[k] == (x@[k].0@, vview(x@[k].1)),
                    forall|k: int|
                        0 <= k < y@.len() ==> #[trigger] ys[k] == (y@[k].0@, vview(y@[k].1)),
                    forall|k: int|
                        0 <= k < i ==> {
                            &&& rec_lookup(ys, (#[trigger] xs[k]).0) is Some
                            &&& equiv(xs[k].1, rec_lookup(ys, xs[k].0)->Some_0)
                        },
                decreases x@.len() - i,
            {
                let mut j: usize = 0;
                let mut matched = false;
                while !matched && j < y.len()
                    invariant
                        0 <= j <= y@.len(),
                        i < x@.len(),
                        x@.len() == y@.len(),
                        xs == field_views_of(x@),
                        ys == field_views_of(y@),
                        a@ == ValueView::Rec(xs),
                        b@ == ValueView::Rec(ys),
                        xs.len() == x@.len(),
                        ys.len() == y@.len(),
                        forall|k: int|
                            0 <= k < x@.len() ==> #[trigger] xs[k] == (x@[k].0@, vview(x@[k].1)),
                        forall|k: int|
                            0 <= k < y@.len() ==> #[trigger] ys[k] == (y@[k].0@, vview(y@[k].1)),
                        !matched ==> forall|jj: int|
                            0 <= jj < j ==> (#[trigger] ys[jj]).0 != xs[i as int].0,
                        matched ==> {
                            &&& rec_lookup(ys, xs[i as int].0) is Some
                            &&& equiv(xs[i as int].1, rec_lookup(ys, xs[i as int].0)->Some_0)
                        },
                    decreases y@.len() - j + (if matched { 0int } else { 1int }),
                {
                    if x[i].0 == y[j].0 {
                        proof {
                            assert(a@ == ValueView::Rec(xs));
                            lemma_rec_lookup_at(ys, xs[i as int].0, j as int);
                            lemma_rec_field_smaller(xs, i as int);
                        }
                        if value_eq(&x[i].1, &y[j].1) {
                            matched = true;
                        } else {
                            proof {
                                assert(b@ == ValueView::Rec(ys));
                                lemma_recs_equiv_index(xs, ys);
                            }
                            return false;
                        }
                    } else {
                        j = j + 1;
                    }
                }
                if !matched {
                    proof {
                        assert(a@ == ValueView::Rec(xs));
                        assert(b@ == ValueView::Rec(ys));
                        lemma_rec_lookup_absent(ys, xs[i as int].0);
                        lemma_recs_equiv_index(xs, ys);
                    }
                    return false;
                }
                i = i + 1;
            }
            proof {
                assert(a@ == ValueView::Rec(xs));
                assert(b@ == ValueView::Rec(ys));
                lemma_recs_equiv_index(xs, ys);
            }
            true
        },
        _ => {
            proof {
                lemma_vview_variants(*a);
                lemma_vview_variants(*b);
            }
            false
        },
    }
}

impl Clone for Value {
    /// A deep copy with the same view.
    fn clone(&self) -> (r: Self)
        ensures
            r@ == self@,
        decreases vsize(self@),
    {
        match self {
            Value::Null => Value::Null,
            Value::Bool(b) => Value::Bool(*b),
            Value::Number(n) => Value::Number(*n),
            Value::String(s) => Value::String(s.clone()),
            Value::List(l) => {
                proof {
                    lemma_views_of_index(l@);
                }
                let ghost ls = views_of(l@);
                let mut out: Vec<Value> = Vec::new();
                let mut i: usize = 0;
                while i < l.len()
                    invariant
                        0 <= i <= l@.len(),
                        ls == views_of(l@),
                        ls.len() == l@.len(),
                        self@ == ValueView::List(ls),
                        forall|k: int| 0 <= k < l@.len() ==> ls[k] == vview(#[trigger] l@[k]),
                        out@.len() == i,
                        forall|k: int| 0 <= k < i ==> vview(#[trigger] out@[k]) == ls[k],
                    decreases l@.len() - i,
                {
                    proof {
                        lemma_list_elem_smaller(ls, i as int);
                    }
                    let c = l[i].clone();
                    out.push(c);
                    i = i + 1;
                }
                proof {
                    lemma_views_of_index(out@);
                    assert forall|k: int|
                        0 <= k < ls.len() implies #[trigger] views_of(out@)[k] == ls[k] by {
                        assert(vview(out@[k]) == ls[k]);
                    }
                    assert(views_of(out@) =~= ls);
                }
                Value::List(out)
            },
            Value::Struct(fs) => {
                proof {
                    lemma_field_views_of_index(fs@);
                }
                let ghost vs = field_views_of(fs@);
                let mut out: Vec<(String, Value)> = Vec::new();
                let mut i: usize = 0;
                while i < fs.len()
                    invariant
                        0 <= i <= fs@.len(),
                        vs == field_views_of(fs@),
                        vs.len() == fs@.len(),
                        self@ == ValueView::Rec(vs),
                        forall|k: int|
                            0 <= k < fs@.len() ==> #[trigger] vs[k] == (
                                fs@[k].0@,
                                vview(fs@[k].1),
                            ),
                        out@.len() == i,
                        forall|k: int|
                            0 <= k < i ==> ((#[trigger] out@[k]).0@, vview(out@[k].1)) == vs[k],
                    decreases fs@.len() - i,
                {
                    proof {
                        lemma_rec_field_smaller(vs, i as int);
                    }
                    let key = fs[i].0.clone();
                    let val = fs[i].1.clone();
                    out.push((key, val));
                    i = i + 1;
                }
                proof {
                    lemma_field_views_of_index(out@);
                    assert forall|k: int|
                        0 <= k < vs.len() implies #[trigger] field_views_of(out@)[k] == vs[k] by {
                        assert(((out@[k]).0@, vview(out@[k].1)) == vs[k]);
                    }
                    assert(field_views_of(out@) =~= vs);
                }
                Value::Struct(out)
            },
        }
    }
}

/// Text of the number `mantissa / 10^scale`, as a decimal literal: the
/// digits of the mantissa with a dot placed `scale` digits from the right,
/// zero-padded when the mantissa is too short.
pub open spec fn num_text(m: int, s: nat) -> Seq<char> {
    if s == 0 {
        int_str(m)
    } else {
        let sign: Seq<char> = if m < 0 { seq!['-'] } else { Seq::empty() };
        let d = nat_str(if m < 0 { (-m) as nat } else { m as nat });
        if d.len() <= s {
            sign + seq!['0', '.'] + Seq::new((s - d.len()) as nat, |i: int| '0') + d
        } else {
            sign + d.take(d.len() - s) + seq!['.'] + d.skip(d.len() - s)
        }
    }
}

proof fn lemma_nat_str_len(n: nat)
    ensures
        nat_str(n).len() >= 1,
    decreases n,
{
    if n >= 10 {
        lemma_nat_str_len(n / 10);
    }
}

/// Renders a number as decimal text.
pub fn number_string(n: &Number) -> (r: String)
    ensures
        r@ == num_text(n.mantissa as int, n.scale as nat),
{
    let m = n.mantissa;
    let neg = m < 0;
    let wide: i128 = m as i128;
    let abs: u64 = (if wide < 0 { -wide } else { wide }) as u64;
    let mut out = String::new();
    if neg {
        push_char(&mut out, '-');
    }
    if n.scale == 0 {
        append_u64(&mut out, abs);
        proof {
            assert(out@ =~= num_text(n.mantissa as int, n.scale as nat));
        }
        return out;
    }
    let digits = u64_string(abs);
    let dlen = digits.as_str().unicode_len();
    proof {
        lemma_nat_str_len(abs as nat);
    }
    let scale = n.scale as usize;
    if dlen <= scale {
        push_char(&mut out, '0');
        push_char(&mut out, '.');
        let mut z: usize = 0;
        while z < scale - dlen
            invariant
                0 <= z <= scale - dlen,
                dlen == nat_str(abs as nat).len(),
                dlen <= scale,
                out@ == (if neg { seq!['-'] } else { Seq::<char>::empty() }) + seq!['0', '.']
                    + Seq::new(z as nat, |i: int| '0'),
            decreases scale - dlen - z,
        {
            push_char(&mut out, '0');
            proof {
                assert(out@ =~= (if neg { seq!['-'] } else { Seq::<char>::empty() })
                    + seq!['0', '.'] + Seq::new((z + 1) as nat, |i: int| '0'));
            }
            z = z + 1;
        }
        out.append(digits.as_str());
        proof {
            assert(out@ =~= num_text(n.mantissa as int, n.scale as nat));
        }
        out
    } else {
        let head = digits.as_str().substring_char(0, dlen - scale);
        let tail = digits.as_str().substring_char(dlen - scale, dlen);
        out.append(head);
        push_char(&mut out, '.');
        out.append(tail);
        proof {
            assert(out@ =~= num_text(n.mantissa as int, n.scale as nat));
        }
        out
    }
}


/// Decides well-formedness: canonical numbers and distinct record keys,
/// all the way down.
pub fn check_value_wf(v: &Value) -> (r: bool)
    ensures
        r == view_wf(v@),
    decreases vsize(v@),
{
    match v {
        Value::Null => true,
        Value::Bool(_) => true,
        Value::String(_) => true,
        Value::Number(n) => {
            let wide: i128 = n.mantissa as i128;
            let abs: i128 = if wide < 0 {
                -wide
            } else {
                wide
            };
            n.scale <= 18 && (n.scale == 0 || abs % 10 != 0)
        },
        Value::List(l) => {
            proof {
                lemma_views_of_index(l@);
            }
            let ghost es = views_of(l@);
            let mut i: usize = 0;
            while i < l.len()
                invariant
                    0 <= i <= l@.len(),
                    es == views_of(l@),
                    es.len() == l@.len(),
                    v@ == ValueView::List(es),
                    forall|k: int| 0 <= k < l@.len() ==> es[k] == vview(#[trigger] l@[k]),
                    forall|k: int| 0 <= k < i ==> view_wf(#[trigger] es[k]),
                decreases l@.len() - i,
            {
                proof {
                    lemma_list_elem_smaller(es, i as int);
                }
                if !check_value_wf(&l[i]) {
                    proof {
                        lemma_list_wf_not(es, i as int);
                    }
                    return false;
                }
                i = i + 1;
            }
            proof {
                lemma_list_wf_all(es);
            }
            true
        },
        Value::Struct(fs) => {
            proof {
                lemma_field_views_of_index(fs@);
            }
            let ghost vs = field_views_of(fs@);
            let mut i: usize = 0;
            while i < fs.len()
                invariant
                    0 <= i <= fs@.len(),
                    vs == field_views_of(fs@),
                    vs.len() == fs@.len(),
                    v@ == ValueView::Rec(vs),
                    forall|k: int|
                        0 <= k < fs@.len() ==> #[trigger] vs[k] == (fs@[k].0@, vview(fs@[k].1)),
                    forall|k: int| 0 <= k < i ==> view_wf((#[trigger] vs[k]).1),
                    forall|a: int, b: int|
                        0 <= a < b < fs@.len() && b < i ==> (#[trigger] vs[a]).0 != (
                        #[trigger] vs[b]).0,
                decreases fs@.len() - i,
            {
                let mut j: usize = 0;
                while j < i
                    invariant
                        0 <= j <= i < fs@.len(),
                        vs == field_views_of(fs@),
                        vs.len() == fs@.len(),
                        v@ == ValueView::Rec(vs),
                        forall|k: int|
                            0 <= k < fs@.len() ==> #[trigger] vs[k] == (fs@[k].0@, vview(fs@[k].1)),
                        forall|a: int| 0 <= a < j ==> (#[trigger] vs[a]).0 != vs[i as int].0,
                    decreases i - j,
                {
                    if crate::strutil::str_eq(fs[j].0.as_str(), fs[i].0.as_str()) {
                        proof {
                            assert(vs[j as int].0 == fs@[j as int].0@);
                            assert(vs[i as int].0 == fs@[i as int].0@);
                            assert(vs[j as int].0 == vs[i as int].0);
                            assert(!keys_unique(vs));
                        }
                        return false;
                    }
                    j = j + 1;
                }
                proof {
                    lemma_rec_field_smaller(vs, i as int);
                }
                if !check_value_wf(&fs[i].1) {
                    proof {
                        lemma_fields_wf_not(vs, i as int);
                    }
                    return false;
                }
                i = i + 1;
            }
            proof {
                lemma_fields_wf_all(vs);
                assert(keys_unique(vs)) by {
                    assert(forall|a: int, b: int|
                        0 <= a < b < vs.len() ==> (#[trigger] vs[a]).0 != (#[trigger] vs[b]).0);
                }
            }
            true
        },
    }
}

proof fn lemma_list_wf_all(es: Seq<ValueView>)
    requires
        forall|k: int| 0 <= k < es.len() ==> view_wf(#[trigger] es[k]),
    ensures
        list_wf(es),
    decreases es.len(),
{
    if es.len() > 0 {
        assert(es[0] == es.first());
        assert(forall|k: int| 0 <= k < es.len() - 1 ==> #[trigger] es.drop_first()[k] == es[k + 1]);
        lemma_list_wf_all(es.drop_first());
    }
}

proof fn lemma_list_wf_not(es: Seq<ValueView>, i: int)
    requires
        0 <= i < es.len(),
        !view_wf(es[i]),
    ensures
        !list_wf(es),
    decreases es.len(),
{
    if list_wf(es) {
        lemma_list_wf_index(es);
    }
}

proof fn lemma_fields_wf_all(fs: Seq<(Seq<char>, ValueView)>)
    requires
        forall|k: int| 0 <= k < fs.len() ==> view_wf((#[trigger] fs[k]).1),
    ensures
        fields_wf(fs),
    decreases fs.len(),
{
    if fs.len() > 0 {
        assert(fs[0] == fs.first());
        assert(forall|k: int| 0 <= k < fs.len() - 1 ==> #[trigger] fs.drop_first()[k] == fs[k + 1]);
        lemma_fields_wf_all(fs.drop_first());
    }
}

proof fn lemma_fields_wf_not(fs: Seq<(Seq<char>, ValueView)>, i: int)
    requires
        0 <= i < fs.len(),
        !view_wf(fs[i].1),
    ensures
        !fields_wf(fs),
    decreases fs.len(),
{
    if fields_wf(fs) {
        lemma_fields_wf_index(fs);
    }
}

} // verus!
