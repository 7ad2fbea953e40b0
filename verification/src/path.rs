//! Dotted-path lookup inside a structured value: a path `a.b.c` descends
//! through nested records field by field.

use vstd::prelude::*;

use crate::strutil::{split_chars, split_string, str_eq};
use crate::value::{
    rec_lookup, field_views_of, lemma_field_views_of_index, lemma_rec_lookup_absent,
    lemma_rec_lookup_at, lemma_rec_field_smaller, vsize, Number, Value, ValueView,
};

verus! {

/// The value reached from `v` by following the given path segments through
/// nested records; `None` when a segment is missing or the walk meets a
/// value that is not a record.
pub open spec fn path_value(v: ValueView, segs: Seq<Seq<char>>) -> Option<ValueView>
    decreases segs.len(),
{
    if segs.len() == 0 {
        Some(v)
    } else {
        match v {
            ValueView::Rec(fs) => match rec_lookup(fs, segs.first()) {
                Some(x) => path_value(x, segs.drop_first()),
                None => None,
            },
            _ => None,
        }
    }
}

/// The value a dotted path names inside `v`.
pub open spec fn spec_lookup(v: ValueView, path: Seq<char>) -> Option<ValueView> {
    path_value(v, split_chars(path, '.'))
}

/// A value reached over at least one segment is a strictly smaller tree.
pub proof fn lemma_path_value_smaller(v: ValueView, segs: Seq<Seq<char>>, x: ValueView)
    requires
        segs.len() >= 1,
        path_value(v, segs) == Some(x),
    ensures
        vsize(x) < vsize(v),
    decreases segs.len(),
{
    let fs = v->Rec_0;
    let mid = rec_lookup(fs, segs.first())->Some_0;
    lemma_rec_lookup_smaller(fs, segs.first());
    if segs.len() > 1 {
        lemma_path_value_smaller(mid, segs.drop_first(), x);
    }
}

proof fn lemma_rec_lookup_smaller(fs: Seq<(Seq<char>, ValueView)>, key: Seq<char>)
    requires
        rec_lookup(fs, key) is Some,
    ensures
        vsize(rec_lookup(fs, key)->Some_0) < vsize(ValueView::Rec(fs)),
    decreases fs.len(),
{
    if fs.len() > 0 {
        if fs.first().0 == key {
            lemma_rec_field_smaller(fs, 0);
            assert(fs[0] == fs.first());
        } else {
            lemma_rec_lookup_smaller(fs.drop_first(), key);
            assert(vsize(ValueView::Rec(fs.drop_first())) <= vsize(ValueView::Rec(fs)));
        }
    }
}

/// Finds the field of `fields` that carries `key`.
pub(crate) fn find_field<'a>(fields: &'a Vec<(String, Value)>, key: &str) -> (r: Option<&'a Value>)
    ensures
        match rec_lookup(field_views_of(fields@), key@) {
            Some(x) => r is Some && r->Some_0@ == x,
            None => r is None,
        },
{
    proof {
        lemma_field_views_of_index(fields@);
    }
    let ghost fs = field_views_of(fields@);
    let mut j: usize = 0;
    while j < fields.len()
        invariant
            0 <= j <= fields@.len(),
            fs == field_views_of(fields@),
            fs.len() == fields@.len(),
            forall|k: int|
                0 <= k < fields@.len() ==> #[trigger] fs[k] == (
                    fields@[k].0@,
                    crate::value::vview(fields@[k].1),
                ),
            forall|jj: int| 0 <= jj < j ==> (#[trigger] fs[jj]).0 != key@,
        decreases fields@.len() - j,
    {
        if str_eq(fields[j].0.as_str(), key) {
            proof {
                lemma_rec_lookup_at(fs, key@, j as int);
            }
            return Some(&fields[j].1);
        }
        j = j + 1;
    }
    proof {
        lemma_rec_lookup_absent(fs, key@);
    }
    None
}

/// Walks `value` along the pre-split path segments starting at `from`.
fn descend<'a>(value: &'a Value, segs: &Vec<String>, from: usize) -> (r: Option<&'a Value>)
    requires
        from <= segs@.len(),
    ensures
        match path_value(value@, segs@.map_values(|t: String| t@).skip(from as int)) {
            Some(x) => r is Some && r->Some_0@ == x,
            None => r is None,
        },
    decreases segs@.len() - from,
{
    let ghost tail = segs@.map_values(|t: String| t@).skip(from as int);
    if from == segs.len() {
        proof {
            assert(tail.len() == 0);
        }
        return Some(value);
    }
    proof {
        assert(tail.first() == segs@[from as int]@);
        assert(tail.drop_first() =~= segs@.map_values(|t: String| t@).skip(from as int + 1));
    }
    match value {
        Value::Struct(fields) => {
            proof {
                assert(value@ == ValueView::Rec(field_views_of(fields@)));
            }
            match find_field(fields, segs[from].as_str()) {
                Some(inner) => descend(inner, segs, from + 1),
                None => None,
            }
        },
        _ => {
            proof {
                crate::value::lemma_vview_variants(*value);
            }
            None
        },
    }
}

/// The value at a dotted `path` inside `value`; `None` when the path does
/// not exist or crosses a value that is not a record.
pub fn get_value<'a>(path: &str, value: &'a Value) -> (r: Option<&'a Value>)
    ensures
        match spec_lookup(value@, path@) {
            Some(x) => r is Some && r->Some_0@ == x,
            None => r is None,
        },
{
    let segs = split_string(path, '.');
    proof {
        assert(segs@.map_values(|t: String| t@) =~= split_chars(path@, '.'));
        assert(segs@.map_values(|t: String| t@).skip(0) =~= split_chars(path@, '.'));
    }
    descend(value, &segs, 0)
}

/// The value at a dotted `path` inside `value`, as `get_value`; the name
/// follows the shape-inspecting callers, which go on to match the variant.
pub fn expect_kind<'a>(path: &str, value: &'a Value) -> (r: Option<&'a Value>)
    ensures
        match spec_lookup(value@, path@) {
            Some(x) => r is Some && r->Some_0@ == x,
            None => r is None,
        },
{
    get_value(path, value)
}

/// Whether a dotted `path` exists inside `value`.
pub fn exists_path(path: &str, value: &Value) -> (r: bool)
    ensures
        r == (spec_lookup(value@, path@) is Some),
{
    get_value(path, value).is_some()
}

/// The string at a dotted `path` inside `value`.
pub fn get_string(path: &str, value: &Value) -> (r: Option<String>)
    ensures
        match spec_lookup(value@, path@) {
            Some(x) => if x is Str {
                r is Some && r->Some_0@ == x->Str_0
            } else {
                r is None
            },
            None => r is None,
        },
{
    match get_value(path, value) {
        Some(Value::String(s)) => Some(s.clone()),
        _ => None,
    }
}

/// The number at a dotted `path` inside `value`.
pub fn get_number(path: &str, value: &Value) -> (r: Option<Number>)
    ensures
        match spec_lookup(value@, path@) {
            Some(x) => if x is Num {
                r is Some && r->Some_0.mantissa as int == x->Num_0 && r->Some_0.scale as nat
                    == x->Num_1
            } else {
                r is None
            },
            None => r is None,
        },
{
    match get_value(path, value) {
        Some(Value::Number(n)) => Some(*n),
        _ => None,
    }
}

/// The boolean at a dotted `path` inside `value`.
pub fn get_bool(path: &str, value: &Value) -> (r: Option<bool>)
    ensures
        match spec_lookup(value@, path@) {
            Some(x) => if x is Bool {
                r is Some && r->Some_0 == x->Bool_0
            } else {
                r is None
            },
            None => r is None,
        },
{
    match get_value(path, value) {
        Some(Value::Bool(b)) => Some(*b),
        _ => None,
    }
}

} // verus!
