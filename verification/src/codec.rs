//! The binary wire format for values and flows: tagged, little-endian,
//! length-prefixed. The decoder's contract says exactly which bytes a
//! decoded value stands for.

use vstd::prelude::*;
use vstd::utf8::{
    decode_utf8, decode_utf8_encode_utf8, encode_utf8, encode_utf8_decode_utf8,
    encode_utf8_valid_utf8, valid_utf8,
};

use crate::value::{
    field_views_of, lemma_field_views_of_index, lemma_views_of_index, list_size, rec_size,
    views_of, vsize, vview, Number, Value, ValueView,
};

verus! {

/// Byte `i` of the little-endian encoding of `x`.
pub open spec fn le_byte(x: u64, i: int) -> u8 {
    ((x >> ((8 * i) as u64)) & 0xff) as u8
}

/// The eight-byte little-endian encoding of `x`.
pub open spec fn le64(x: u64) -> Seq<u8> {
    Seq::new(8, |i: int| le_byte(x, i))
}

proof fn lemma_le64_recompose(b0: u8, b1: u8, b2: u8, b3: u8, b4: u8, b5: u8, b6: u8, b7: u8)
    by (bit_vector)
    ensures
        ({
            let y = (b0 as u64) | ((b1 as u64) << 8) | ((b2 as u64) << 16) | ((b3 as u64) << 24)
                | ((b4 as u64) << 32) | ((b5 as u64) << 40) | ((b6 as u64) << 48) | ((b7 as u64)
                << 56);
            &&& ((y >> 0u64) & 0xff) as u8 == b0
            &&& ((y >> 8u64) & 0xff) as u8 == b1
            &&& ((y >> 16u64) & 0xff) as u8 == b2
            &&& ((y >> 24u64) & 0xff) as u8 == b3
            &&& ((y >> 32u64) & 0xff) as u8 == b4
            &&& ((y >> 40u64) & 0xff) as u8 == b5
            &&& ((y >> 48u64) & 0xff) as u8 == b6
            &&& ((y >> 56u64) & 0xff) as u8 == b7
        }),
{
}

/// Appends the little-endian encoding of `x`.
fn push_u64(out: &mut Vec<u8>, x: u64)
    ensures
        final(out)@ == old(out)@ + le64(x),
{
    out.push(((x >> 0u64) & 0xff) as u8);
    out.push(((x >> 8u64) & 0xff) as u8);
    out.push(((x >> 16u64) & 0xff) as u8);
    out.push(((x >> 24u64) & 0xff) as u8);
    out.push(((x >> 32u64) & 0xff) as u8);
    out.push(((x >> 40u64) & 0xff) as u8);
    out.push(((x >> 48u64) & 0xff) as u8);
    out.push(((x >> 56u64) & 0xff) as u8);
    proof {
        assert(out@ =~= old(out)@ + le64(x));
    }
}

/// Reads eight little-endian bytes at `pos`.
fn read_u64(buf: &Vec<u8>, pos: usize) -> (r: Option<(u64, usize)>)
    ensures
        match r {
            Some((x, newpos)) => {
                &&& newpos == pos + 8
                &&& newpos <= buf@.len()
                &&& buf@.subrange(pos as int, newpos as int) == le64(x)
            },
            None => pos + 8 > buf@.len(),
        },
{
    if pos >= buf.len() || buf.len() - pos < 8 {
        return None;
    }
    let b0 = buf[pos];
    let b1 = buf[pos + 1];
    let b2 = buf[pos + 2];
    let b3 = buf[pos + 3];
    let b4 = buf[pos + 4];
    let b5 = buf[pos + 5];
    let b6 = buf[pos + 6];
    let b7 = buf[pos + 7];
    let y = (b0 as u64) | ((b1 as u64) << 8) | ((b2 as u64) << 16) | ((b3 as u64) << 24) | ((b4
        as u64) << 32) | ((b5 as u64) << 40) | ((b6 as u64) << 48) | ((b7 as u64) << 56);
    proof {
        lemma_le64_recompose(b0, b1, b2, b3, b4, b5, b6, b7);
        assert(buf@.subrange(pos as int, pos + 8 as int) =~= le64(y));
    }
    Some((y, pos + 8))
}

/// The wire bytes of a value.
pub open spec fn value_bytes(v: ValueView) -> Seq<u8>
    decreases v,
{
    match v {
        ValueView::Null => seq![0u8],
        ValueView::Bool(b) => seq![1u8, if b { 1u8 } else { 0u8 }],
        ValueView::Num(m, s) => seq![2u8] + le64(m as u64) + le64(s as u64),
        ValueView::Str(t) => seq![3u8] + le64(encode_utf8(t).len() as u64) + encode_utf8(t),
        ValueView::List(es) => seq![4u8] + le64(es.len() as u64) + list_bytes(es),
        ValueView::Rec(fs) => seq![5u8] + le64(fs.len() as u64) + rec_bytes(fs),
    }
}

pub open spec fn list_bytes(es: Seq<ValueView>) -> Seq<u8>
    decreases es,
{
    if es.len() == 0 {
        Seq::empty()
    } else {
        value_bytes(es.first()) + list_bytes(es.drop_first())
    }
}

pub open spec fn rec_bytes(fs: Seq<(Seq<char>, ValueView)>) -> Seq<u8>
    decreases fs,
{
    if fs.len() == 0 {
        Seq::empty()
    } else {
        le64(encode_utf8(fs.first().0).len() as u64) + encode_utf8(fs.first().0) + value_bytes(
            fs.first().1,
        ) + rec_bytes(fs.drop_first())
    }
}

proof fn lemma_list_bytes_snoc(es: Seq<ValueView>, i: int)
    requires
        0 <= i < es.len(),
    ensures
        list_bytes(es.take(i + 1)) == list_bytes(es.take(i)) + value_bytes(es[i]),
    decreases i,
{
    if i == 0 {
        assert(es.take(1).first() == es[0]);
        assert(es.take(1).drop_first() =~= Seq::<ValueView>::empty());
        assert(es.take(0) =~= Seq::<ValueView>::empty());
        assert(list_bytes(es.take(1)) =~= list_bytes(es.take(0)) + value_bytes(es[0]));
    } else {
        lemma_list_bytes_snoc(es.drop_first(), i - 1);
        assert(es.take(i + 1).first() == es[0]);
        assert(es.take(i).first() == es[0]);
        assert(es.take(i + 1).drop_first() =~= es.drop_first().take(i));
        assert(es.take(i).drop_first() =~= es.drop_first().take(i - 1));
        assert(es.drop_first()[i - 1] == es[i]);
        assert(list_bytes(es.take(i + 1)) =~= list_bytes(es.take(i)) + value_bytes(es[i]));
    }
}

proof fn lemma_rec_bytes_snoc(fs: Seq<(Seq<char>, ValueView)>, i: int)
    requires
        0 <= i < fs.len(),
    ensures
        rec_bytes(fs.take(i + 1)) == rec_bytes(fs.take(i)) + le64(
            encode_utf8(fs[i].0).len() as u64,
        ) + encode_utf8(fs[i].0) + value_bytes(fs[i].1),
    decreases i,
{
    if i == 0 {
        assert(fs.take(1).first() == fs[0]);
        assert(fs.take(1).drop_first() =~= Seq::<(Seq<char>, ValueView)>::empty());
        assert(fs.take(0) =~= Seq::<(Seq<char>, ValueView)>::empty());
        assert(rec_bytes(fs.take(1)) =~= rec_bytes(fs.take(0)) + le64(
            encode_utf8(fs[0].0).len() as u64,
        ) + encode_utf8(fs[0].0) + value_bytes(fs[0].1));
    } else {
        lemma_rec_bytes_snoc(fs.drop_first(), i - 1);
        assert(fs.take(i + 1).first() == fs[0]);
        assert(fs.take(i).first() == fs[0]);
        assert(fs.take(i + 1).drop_first() =~= fs.drop_first().take(i));
        assert(fs.take(i).drop_first() =~= fs.drop_first().take(i - 1));
        assert(fs.drop_first()[i - 1] == fs[i]);
        assert(rec_bytes(fs.take(i + 1)) =~= rec_bytes(fs.take(i)) + le64(
            encode_utf8(fs[i].0).len() as u64,
        ) + encode_utf8(fs[i].0) + value_bytes(fs[i].1));
    }
}

/// Views whose numbers fit the number type's machine fields; the view of
/// every value the system can hold is bounded, and only bounded views have
/// faithful encodings.
pub open spec fn view_bounded(v: ValueView) -> bool
    decreases v,
{
    match v {
        ValueView::Num(m, st) => -0x8000000000000000 <= m <= 0x7fffffffffffffff && st
            <= 0xffffffff,
        ValueView::List(es) => list_bounded(es),
        ValueView::Rec(fs) => fields_bounded(fs),
        _ => true,
    }
}

pub open spec fn list_bounded(es: Seq<ValueView>) -> bool
    decreases es,
{
    es.len() == 0 || (view_bounded(es.first()) && list_bounded(es.drop_first()))
}

pub open spec fn fields_bounded(fs: Seq<(Seq<char>, ValueView)>) -> bool
    decreases fs,
{
    fs.len() == 0 || (view_bounded(fs.first().1) && fields_bounded(fs.drop_first()))
}

pub proof fn lemma_list_bounded_index(es: Seq<ValueView>)
    requires
        list_bounded(es),
    ensures
        forall|i: int| 0 <= i < es.len() ==> view_bounded(#[trigger] es[i]),
    decreases es.len(),
{
    if es.len() > 0 {
        lemma_list_bounded_index(es.drop_first());
        assert(forall|i: int| 1 <= i < es.len() ==> es[i] == es.drop_first()[i - 1]);
        assert(es[0] == es.first());
    }
}

pub proof fn lemma_fields_bounded_index(fs: Seq<(Seq<char>, ValueView)>)
    requires
        fields_bounded(fs),
    ensures
        forall|i: int| 0 <= i < fs.len() ==> view_bounded((#[trigger] fs[i]).1),
    decreases fs.len(),
{
    if fs.len() > 0 {
        lemma_fields_bounded_index(fs.drop_first());
        assert(forall|i: int| 1 <= i < fs.len() ==> fs[i] == fs.drop_first()[i - 1]);
        assert(fs[0] == fs.first());
    }
}

/// The view of an executable value is bounded.
pub proof fn lemma_vview_bounded(ev: Value)
    ensures
        view_bounded(vview(ev)),
    decreases ev,
{
    match ev {
        Value::List(l) => {
            lemma_values_bounded(l@);
        },
        Value::Struct(fs) => {
            lemma_value_fields_bounded(fs@);
        },
        _ => {},
    }
}

proof fn lemma_values_bounded(s: Seq<Value>)
    ensures
        list_bounded(views_of(s)),
    decreases s,
{
    if s.len() > 0 {
        lemma_vview_bounded(s[0]);
        lemma_values_bounded(s.drop_first());
        assert(views_of(s).first() == vview(s[0]));
        assert(views_of(s).drop_first() =~= views_of(s.drop_first()));
    }
}

proof fn lemma_value_fields_bounded(s: Seq<(String, Value)>)
    ensures
        fields_bounded(field_views_of(s)),
    decreases s,
{
    if s.len() > 0 {
        lemma_vview_bounded(s[0].1);
        lemma_value_fields_bounded(s.drop_first());
        assert(field_views_of(s).first() == (s[0].0@, vview(s[0].1)));
        assert(field_views_of(s).drop_first() =~= field_views_of(s.drop_first()));
    }
}

/// The leading tag byte of a value's encoding.
pub open spec fn value_tag(v: ValueView) -> u8 {
    match v {
        ValueView::Null => 0u8,
        ValueView::Bool(_) => 1u8,
        ValueView::Num(_, _) => 2u8,
        ValueView::Str(_) => 3u8,
        ValueView::List(_) => 4u8,
        ValueView::Rec(_) => 5u8,
    }
}

/// The shape of a value's encoding: its tag byte and its length.
pub proof fn lemma_value_bytes_shape(v: ValueView)
    ensures
        value_bytes(v).len() >= 1,
        value_bytes(v)[0] == value_tag(v),
        v is Null ==> value_bytes(v).len() == 1,
        v is Bool ==> value_bytes(v).len() == 2 && (value_bytes(v)[1] == 0 || value_bytes(v)[1]
            == 1),
        v is Num ==> value_bytes(v).len() == 17,
        v is Str ==> value_bytes(v).len() == 9 + encode_utf8(v->Str_0).len(),
        v is List ==> value_bytes(v).len() == 9 + list_bytes(v->List_0).len(),
        v is Rec ==> value_bytes(v).len() == 9 + rec_bytes(v->Rec_0).len(),
{
    match v {
        ValueView::Null => {},
        ValueView::Bool(_) => {},
        ValueView::Num(_, _) => {},
        ValueView::Str(_) => {},
        ValueView::List(_) => {},
        ValueView::Rec(_) => {},
    }
}

proof fn lemma_vsize_pos(v: ValueView)
    ensures
        vsize(v) >= 1,
{
    match v {
        ValueView::Null => {},
        ValueView::Bool(_) => {},
        ValueView::Num(_, _) => {},
        ValueView::Str(_) => {},
        ValueView::List(_) => {},
        ValueView::Rec(_) => {},
    }
}

/// A list's encoding has at least one byte per element.
pub proof fn lemma_list_bytes_min(es: Seq<ValueView>)
    ensures
        list_bytes(es).len() >= es.len(),
    decreases es,
{
    if es.len() > 0 {
        lemma_value_bytes_shape(es.first());
        lemma_list_bytes_min(es.drop_first());
    }
}

/// A record's encoding has at least nine bytes per field.
pub proof fn lemma_rec_bytes_min(fs: Seq<(Seq<char>, ValueView)>)
    ensures
        rec_bytes(fs).len() >= fs.len(),
    decreases fs,
{
    if fs.len() > 0 {
        lemma_value_bytes_shape(fs.first().1);
        lemma_rec_bytes_min(fs.drop_first());
    }
}

proof fn lemma_le64_bytes_inj(a: u64, b: u64)
    by (bit_vector)
    requires
        ((a >> 0u64) & 0xff) as u8 == ((b >> 0u64) & 0xff) as u8,
        ((a >> 8u64) & 0xff) as u8 == ((b >> 8u64) & 0xff) as u8,
        ((a >> 16u64) & 0xff) as u8 == ((b >> 16u64) & 0xff) as u8,
        ((a >> 24u64) & 0xff) as u8 == ((b >> 24u64) & 0xff) as u8,
        ((a >> 32u64) & 0xff) as u8 == ((b >> 32u64) & 0xff) as u8,
        ((a >> 40u64) & 0xff) as u8 == ((b >> 40u64) & 0xff) as u8,
        ((a >> 48u64) & 0xff) as u8 == ((b >> 48u64) & 0xff) as u8,
        ((a >> 56u64) & 0xff) as u8 == ((b >> 56u64) & 0xff) as u8,
    ensures
        a == b,
{
}

/// The little-endian encoding is injective.
pub proof fn lemma_le64_inj(a: u64, b: u64)
    requires
        le64(a) == le64(b),
    ensures
        a == b,
{
    assert forall|i: int| 0 <= i < 8 implies le_byte(a, i) == le_byte(b, i) by {
        assert(le64(a)[i] == le_byte(a, i));
        assert(le64(b)[i] == le_byte(b, i));
        assert(le64(a)[i] == le64(b)[i]);
    }
    assert(le_byte(a, 0) == le_byte(b, 0));
    assert(le_byte(a, 1) == le_byte(b, 1));
    assert(le_byte(a, 2) == le_byte(b, 2));
    assert(le_byte(a, 3) == le_byte(b, 3));
    assert(le_byte(a, 4) == le_byte(b, 4));
    assert(le_byte(a, 5) == le_byte(b, 5));
    assert(le_byte(a, 6) == le_byte(b, 6));
    assert(le_byte(a, 7) == le_byte(b, 7));
    lemma_le64_bytes_inj(a, b);
}

/// Two integers of the signed machine range with one truncation agree.
proof fn lemma_trunc_u64_inj(x: int, y: int)
    requires
        -0x8000000000000000 <= x <= 0x7fffffffffffffff,
        -0x8000000000000000 <= y <= 0x7fffffffffffffff,
        (x as u64) == (y as u64),
    ensures
        x == y,
{
    let a = x as i64;
    let b = y as i64;
    assert(a == x);
    assert(b == y);
    assert((x as u64) == (a as u64));
    assert((y as u64) == (b as u64));
    lemma_i64_u64_inj(a, b);
}

proof fn lemma_i64_u64_inj(a: i64, b: i64)
    by (bit_vector)
    requires
        (a as u64) == (b as u64),
    ensures
        a == b,
{
}

/// The wire format is unambiguous: one byte string encodes at most one
/// bounded value. A decoded value is therefore the very value whose
/// encoding was stored, and inherits any property of it — in particular,
/// when a well-formed value was encoded, the decoded value is well-formed.
pub proof fn lemma_value_encoding_unique(v1: ValueView, v2: ValueView)
    requires
        view_bounded(v1),
        view_bounded(v2),
        value_bytes(v1).len() <= usize::MAX,
        value_bytes(v1) == value_bytes(v2),
    ensures
        v1 == v2,
{
    let b = value_bytes(v1);
    assert(b.subrange(0, b.len() as int) =~= value_bytes(v1));
    lemma_value_prefix(b, 0, v1, b.len() as int, v2, b.len() as int);
}

/// The bytes of a subrange, element by element.
proof fn lemma_subrange_index(b: Seq<u8>, pos: int, n: int, s: Seq<u8>)
    requires
        0 <= pos <= n <= b.len(),
        b.subrange(pos, n) == s,
    ensures
        s.len() == n - pos,
        forall|i: int| 0 <= i < s.len() ==> #[trigger] s[i] == b[pos + i],
{
    assert(forall|i: int| 0 <= i < n - pos ==> #[trigger] b.subrange(pos, n)[i] == b[pos + i]);
}

/// Parse determinism: two bounded values whose encodings begin at the same
/// position of one buffer are the same value, encoded over the same bytes.
pub proof fn lemma_value_prefix(b: Seq<u8>, pos: int, v1: ValueView, n1: int, v2: ValueView, n2: int)
    requires
        b.len() <= usize::MAX,
        0 <= pos,
        pos <= n1 <= b.len(),
        pos <= n2 <= b.len(),
        b.subrange(pos, n1) == value_bytes(v1),
        b.subrange(pos, n2) == value_bytes(v2),
        view_bounded(v1),
        view_bounded(v2),
    ensures
        v1 == v2,
        n1 == n2,
    decreases vsize(v1), 0int, 0int,
{
    lemma_value_bytes_shape(v1);
    lemma_value_bytes_shape(v2);
    lemma_subrange_index(b, pos, n1, value_bytes(v1));
    lemma_subrange_index(b, pos, n2, value_bytes(v2));
    assert(value_bytes(v1)[0int] == b[pos + 0]);
    assert(value_bytes(v2)[0int] == b[pos + 0]);
    assert(value_tag(v1) == value_tag(v2));
    match (v1, v2) {
        (ValueView::Null, ValueView::Null) => {
            assert(n1 == pos + 1 && n2 == pos + 1);
        },
        (ValueView::Bool(x1), ValueView::Bool(x2)) => {
            assert(value_bytes(v1)[0int + 1] == b[pos + 1]);
            assert(value_bytes(v2)[0int + 1] == b[pos + 1]);
            assert(x1 == x2);
        },
        (ValueView::Num(m1, s1), ValueView::Num(m2, s2)) => {
            assert(le64((m1 as u64)) =~= b.subrange(pos + 1, pos + 9)) by {
                assert forall|i: int| 0 <= i < 8 implies #[trigger] le64((m1 as u64))[i] == b[pos
                    + 1 + i] by {
                    assert(value_bytes(v1)[i + 1] == b[pos + (i + 1)]);
                }
            }
            assert(le64((m2 as u64)) =~= b.subrange(pos + 1, pos + 9)) by {
                assert forall|i: int| 0 <= i < 8 implies #[trigger] le64((m2 as u64))[i] == b[pos
                    + 1 + i] by {
                    assert(value_bytes(v2)[i + 1] == b[pos + (i + 1)]);
                }
            }
            lemma_le64_inj((m1 as u64), (m2 as u64));
            lemma_trunc_u64_inj(m1, m2);
            assert(le64((s1 as u64)) =~= b.subrange(pos + 9, pos + 17)) by {
                assert forall|i: int| 0 <= i < 8 implies #[trigger] le64((s1 as u64))[i] == b[pos
                    + 9 + i] by {
                    assert(value_bytes(v1)[i + 9] == b[pos + (i + 9)]);
                }
            }
            assert(le64((s2 as u64)) =~= b.subrange(pos + 9, pos + 17)) by {
                assert forall|i: int| 0 <= i < 8 implies #[trigger] le64((s2 as u64))[i] == b[pos
                    + 9 + i] by {
                    assert(value_bytes(v2)[i + 9] == b[pos + (i + 9)]);
                }
            }
            lemma_le64_inj((s1 as u64), (s2 as u64));
            assert(s1 == s2);
        },
        (ValueView::Str(t1), ValueView::Str(t2)) => {
            let l1 = encode_utf8(t1).len() as int;
            let l2 = encode_utf8(t2).len() as int;
            assert(n1 - pos == 9 + l1);
            assert(n2 - pos == 9 + l2);
            assert(le64((l1 as u64)) =~= b.subrange(pos + 1, pos + 9)) by {
                assert forall|i: int| 0 <= i < 8 implies #[trigger] le64((l1 as u64))[i] == b[pos
                    + 1 + i] by {
                    assert(value_bytes(v1)[i + 1] == b[pos + (i + 1)]);
                }
            }
            assert(le64((l2 as u64)) =~= b.subrange(pos + 1, pos + 9)) by {
                assert forall|i: int| 0 <= i < 8 implies #[trigger] le64((l2 as u64))[i] == b[pos
                    + 1 + i] by {
                    assert(value_bytes(v2)[i + 1] == b[pos + (i + 1)]);
                }
            }
            lemma_le64_inj((l1 as u64), (l2 as u64));
            assert(l1 <= b.len() && l2 <= b.len());
            assert(l1 == l2);
            assert(n1 == n2);
            assert(encode_utf8(t1) =~= b.subrange(pos + 9, n1)) by {
                assert forall|i: int| 0 <= i < l1 implies #[trigger] encode_utf8(t1)[i] == b[pos
                    + 9 + i] by {
                    assert(value_bytes(v1)[i + 9] == b[pos + (i + 9)]);
                }
            }
            assert(encode_utf8(t2) =~= b.subrange(pos + 9, n2)) by {
                assert forall|i: int| 0 <= i < l2 implies #[trigger] encode_utf8(t2)[i] == b[pos
                    + 9 + i] by {
                    assert(value_bytes(v2)[i + 9] == b[pos + (i + 9)]);
                }
            }
            vstd::utf8::encode_utf8_decode_utf8(t1);
            vstd::utf8::encode_utf8_decode_utf8(t2);
            assert(t1 == t2);
        },
        (ValueView::List(es1), ValueView::List(es2)) => {
            lemma_list_bytes_min(es1);
            lemma_list_bytes_min(es2);
            assert(n1 - pos == 9 + list_bytes(es1).len());
            assert(n2 - pos == 9 + list_bytes(es2).len());
            assert(le64((es1.len() as u64)) =~= b.subrange(pos + 1, pos + 9)) by {
                assert forall|i: int|
                    0 <= i < 8 implies #[trigger] le64((es1.len() as u64))[i] == b[pos + 1
                    + i] by {
                    assert(value_bytes(v1)[i + 1] == b[pos + (i + 1)]);
                }
            }
            assert(le64((es2.len() as u64)) =~= b.subrange(pos + 1, pos + 9)) by {
                assert forall|i: int|
                    0 <= i < 8 implies #[trigger] le64((es2.len() as u64))[i] == b[pos + 1
                    + i] by {
                    assert(value_bytes(v2)[i + 1] == b[pos + (i + 1)]);
                }
            }
            lemma_le64_inj((es1.len() as u64), (es2.len() as u64));
            assert(es1.len() <= b.len() && es2.len() <= b.len());
            assert(es1.len() == es2.len());
            assert(b.subrange(pos + 9, n1) =~= list_bytes(es1)) by {
                assert forall|i: int|
                    0 <= i < list_bytes(es1).len() implies #[trigger] list_bytes(es1)[i] == b[(pos
                    + 9) + i] by {
                    assert(value_bytes(v1)[i + 9] == b[pos + (i + 9)]);
                }
            }
            assert(b.subrange(pos + 9, n2) =~= list_bytes(es2)) by {
                assert forall|i: int|
                    0 <= i < list_bytes(es2).len() implies #[trigger] list_bytes(es2)[i] == b[(pos
                    + 9) + i] by {
                    assert(value_bytes(v2)[i + 9] == b[pos + (i + 9)]);
                }
            }
            lemma_list_prefix(b, pos + 9, es1, n1, es2, n2);
        },
        (ValueView::Rec(fs1), ValueView::Rec(fs2)) => {
            lemma_rec_bytes_min(fs1);
            lemma_rec_bytes_min(fs2);
            assert(n1 - pos == 9 + rec_bytes(fs1).len());
            assert(n2 - pos == 9 + rec_bytes(fs2).len());
            assert(le64((fs1.len() as u64)) =~= b.subrange(pos + 1, pos + 9)) by {
                assert forall|i: int|
                    0 <= i < 8 implies #[trigger] le64((fs1.len() as u64))[i] == b[pos + 1
                    + i] by {
                    assert(value_bytes(v1)[i + 1] == b[pos + (i + 1)]);
                }
            }
            assert(le64((fs2.len() as u64)) =~= b.subrange(pos + 1, pos + 9)) by {
                assert forall|i: int|
                    0 <= i < 8 implies #[trigger] le64((fs2.len() as u64))[i] == b[pos + 1
                    + i] by {
                    assert(value_bytes(v2)[i + 1] == b[pos + (i + 1)]);
                }
            }
            lemma_le64_inj((fs1.len() as u64), (fs2.len() as u64));
            assert(fs1.len() <= b.len() && fs2.len() <= b.len());
            assert(fs1.len() == fs2.len());
            assert(b.subrange(pos + 9, n1) =~= rec_bytes(fs1)) by {
                assert forall|i: int|
                    0 <= i < rec_bytes(fs1).len() implies #[trigger] rec_bytes(fs1)[i] == b[(pos
                    + 9) + i] by {
                    assert(value_bytes(v1)[i + 9] == b[pos + (i + 9)]);
                }
            }
            assert(b.subrange(pos + 9, n2) =~= rec_bytes(fs2)) by {
                assert forall|i: int|
                    0 <= i < rec_bytes(fs2).len() implies #[trigger] rec_bytes(fs2)[i] == b[(pos
                    + 9) + i] by {
                    assert(value_bytes(v2)[i + 9] == b[pos + (i + 9)]);
                }
            }
            lemma_rec_prefix(b, pos + 9, fs1, n1, fs2, n2);
        },
        _ => {
            assert(false);
        },
    }
}

proof fn lemma_list_prefix(
    b: Seq<u8>,
    pos: int,
    es1: Seq<ValueView>,
    n1: int,
    es2: Seq<ValueView>,
    n2: int,
)
    requires
        b.len() <= usize::MAX,
        0 <= pos,
        pos <= n1 <= b.len(),
        pos <= n2 <= b.len(),
        b.subrange(pos, n1) == list_bytes(es1),
        b.subrange(pos, n2) == list_bytes(es2),
        es1.len() == es2.len(),
        list_bounded(es1),
        list_bounded(es2),
    ensures
        es1 == es2,
        n1 == n2,
    decreases list_size(es1), 1int, 0int,
{
    lemma_subrange_index(b, pos, n1, list_bytes(es1));
    lemma_subrange_index(b, pos, n2, list_bytes(es2));
    if es1.len() == 0 {
        assert(list_bytes(es1) =~= Seq::<u8>::empty());
        assert(list_bytes(es2) =~= Seq::<u8>::empty());
        assert(n1 == pos && n2 == pos);
        assert(es1 =~= es2);
    } else {
        let e1 = es1.first();
        let e2 = es2.first();
        lemma_value_bytes_shape(e1);
        lemma_value_bytes_shape(e2);
        let k1 = pos + value_bytes(e1).len();
        let k2 = pos + value_bytes(e2).len();
        assert(n1 - pos == value_bytes(e1).len() + list_bytes(es1.drop_first()).len());
        assert(n2 - pos == value_bytes(e2).len() + list_bytes(es2.drop_first()).len());
        assert(k1 <= n1);
        assert(k2 <= n2);
        assert(b.subrange(pos, k1) =~= value_bytes(e1)) by {
            assert forall|i: int|
                0 <= i < value_bytes(e1).len() implies #[trigger] value_bytes(e1)[i] == b[pos
                + i] by {
                assert(list_bytes(es1)[i] == b[pos + i]);
            }
        }
        assert(b.subrange(pos, k2) =~= value_bytes(e2)) by {
            assert forall|i: int|
                0 <= i < value_bytes(e2).len() implies #[trigger] value_bytes(e2)[i] == b[pos
                + i] by {
                assert(list_bytes(es2)[i] == b[pos + i]);
            }
        }
        lemma_value_prefix(b, pos, e1, k1, e2, k2);
        assert(b.subrange(k1, n1) =~= list_bytes(es1.drop_first())) by {
            assert forall|i: int|
                0 <= i < list_bytes(es1.drop_first()).len() implies #[trigger] list_bytes(
                es1.drop_first(),
            )[i] == b[k1 + i] by {
                assert(list_bytes(es1)[i + value_bytes(e1).len()] == b[pos + (i + value_bytes(
                    e1,
                ).len())]);
            }
        }
        assert(b.subrange(k2, n2) =~= list_bytes(es2.drop_first())) by {
            assert forall|i: int|
                0 <= i < list_bytes(es2.drop_first()).len() implies #[trigger] list_bytes(
                es2.drop_first(),
            )[i] == b[k2 + i] by {
                assert(list_bytes(es2)[i + value_bytes(e2).len()] == b[pos + (i + value_bytes(
                    e2,
                ).len())]);
            }
        }
        lemma_vsize_pos(e1);
        lemma_list_prefix(b, k1, es1.drop_first(), n1, es2.drop_first(), n2);
        assert(es1 =~= es2) by {
            assert(forall|i: int|
                1 <= i < es1.len() ==> #[trigger] es1[i] == es1.drop_first()[i - 1]);
            assert(forall|i: int|
                1 <= i < es2.len() ==> #[trigger] es2[i] == es2.drop_first()[i - 1]);
            assert(es1[0] == e1 && es2[0] == e2);
        }
    }
}

proof fn lemma_rec_prefix(
    b: Seq<u8>,
    pos: int,
    fs1: Seq<(Seq<char>, ValueView)>,
    n1: int,
    fs2: Seq<(Seq<char>, ValueView)>,
    n2: int,
)
    requires
        b.len() <= usize::MAX,
        0 <= pos,
        pos <= n1 <= b.len(),
        pos <= n2 <= b.len(),
        b.subrange(pos, n1) == rec_bytes(fs1),
        b.subrange(pos, n2) == rec_bytes(fs2),
        fs1.len() == fs2.len(),
        fields_bounded(fs1),
        fields_bounded(fs2),
    ensures
        fs1 == fs2,
        n1 == n2,
    decreases rec_size(fs1), 1int, 0int,
{
    lemma_subrange_index(b, pos, n1, rec_bytes(fs1));
    lemma_subrange_index(b, pos, n2, rec_bytes(fs2));
    if fs1.len() == 0 {
        assert(rec_bytes(fs1) =~= Seq::<u8>::empty());
        assert(rec_bytes(fs2) =~= Seq::<u8>::empty());
        assert(n1 == pos && n2 == pos);
        assert(fs1 =~= fs2);
    } else {
        let k1 = fs1.first().0;
        let k2 = fs2.first().0;
        let l1 = encode_utf8(k1).len() as int;
        let l2 = encode_utf8(k2).len() as int;
        lemma_value_bytes_shape(fs1.first().1);
        lemma_value_bytes_shape(fs2.first().1);
        assert(8 + l1 + value_bytes(fs1.first().1).len() + rec_bytes(fs1.drop_first()).len() == n1
            - pos);
        assert(8 + l2 + value_bytes(fs2.first().1).len() + rec_bytes(fs2.drop_first()).len() == n2
            - pos);
        assert(le64((l1 as u64)) =~= b.subrange(pos, pos + 8)) by {
            assert forall|i: int| 0 <= i < 8 implies #[trigger] le64((l1 as u64))[i] == b[pos
                + i] by {
                assert(rec_bytes(fs1)[i] == b[pos + i]);
            }
        }
        assert(le64((l2 as u64)) =~= b.subrange(pos, pos + 8)) by {
            assert forall|i: int| 0 <= i < 8 implies #[trigger] le64((l2 as u64))[i] == b[pos
                + i] by {
                assert(rec_bytes(fs2)[i] == b[pos + i]);
            }
        }
        lemma_le64_inj((l1 as u64), (l2 as u64));
        assert(l1 <= b.len() && l2 <= b.len());
        assert(l1 == l2);
        assert(encode_utf8(k1) =~= b.subrange(pos + 8, pos + 8 + l1)) by {
            assert forall|i: int| 0 <= i < l1 implies #[trigger] encode_utf8(k1)[i] == b[(pos + 8)
                + i] by {
                assert(rec_bytes(fs1)[i + 8] == b[pos + (i + 8)]);
            }
        }
        assert(encode_utf8(k2) =~= b.subrange(pos + 8, pos + 8 + l2)) by {
            assert forall|i: int| 0 <= i < l2 implies #[trigger] encode_utf8(k2)[i] == b[(pos + 8)
                + i] by {
                assert(rec_bytes(fs2)[i + 8] == b[pos + (i + 8)]);
            }
        }
        vstd::utf8::encode_utf8_decode_utf8(k1);
        vstd::utf8::encode_utf8_decode_utf8(k2);
        assert(k1 == k2);
        let vpos = pos + 8 + l1;
        let m1 = vpos + value_bytes(fs1.first().1).len();
        let m2 = vpos + value_bytes(fs2.first().1).len();
        assert(b.subrange(vpos, m1) =~= value_bytes(fs1.first().1)) by {
            assert forall|i: int|
                0 <= i < value_bytes(fs1.first().1).len() implies #[trigger] value_bytes(
                fs1.first().1,
            )[i] == b[vpos + i] by {
                assert(rec_bytes(fs1)[i + 8 + l1] == b[pos + (i + 8 + l1)]);
            }
        }
        assert(b.subrange(vpos, m2) =~= value_bytes(fs2.first().1)) by {
            assert forall|i: int|
                0 <= i < value_bytes(fs2.first().1).len() implies #[trigger] value_bytes(
                fs2.first().1,
            )[i] == b[vpos + i] by {
                assert(rec_bytes(fs2)[i + 8 + l2] == b[pos + (i + 8 + l2)]);
            }
        }
        lemma_value_prefix(b, vpos, fs1.first().1, m1, fs2.first().1, m2);
        assert(b.subrange(m1, n1) =~= rec_bytes(fs1.drop_first())) by {
            assert forall|i: int|
                0 <= i < rec_bytes(fs1.drop_first()).len() implies #[trigger] rec_bytes(
                fs1.drop_first(),
            )[i] == b[m1 + i] by {
                assert(rec_bytes(fs1)[i + (m1 - pos)] == b[pos + (i + (m1 - pos))]);
            }
        }
        assert(b.subrange(m2, n2) =~= rec_bytes(fs2.drop_first())) by {
            assert forall|i: int|
                0 <= i < rec_bytes(fs2.drop_first()).len() implies #[trigger] rec_bytes(
                fs2.drop_first(),
            )[i] == b[m2 + i] by {
                assert(rec_bytes(fs2)[i + (m2 - pos)] == b[pos + (i + (m2 - pos))]);
            }
        }
        lemma_vsize_pos(fs1.first().1);
        lemma_rec_prefix(b, m1, fs1.drop_first(), n1, fs2.drop_first(), n2);
        assert(fs1 =~= fs2) by {
            assert(forall|i: int|
                1 <= i < fs1.len() ==> #[trigger] fs1[i] == fs1.drop_first()[i - 1]);
            assert(forall|i: int|
                1 <= i < fs2.len() ==> #[trigger] fs2[i] == fs2.drop_first()[i - 1]);
            assert(fs1[0] == fs1.first() && fs2[0] == fs2.first());
        }
    }
}

/// The wire bytes of one record field.
pub open spec fn field_bytes(k: Seq<char>, v: ValueView) -> Seq<u8> {
    le64(encode_utf8(k).len() as u64) + encode_utf8(k) + value_bytes(v)
}

proof fn lemma_field_prefix(
    b: Seq<u8>,
    pos: int,
    k1: Seq<char>,
    v1: ValueView,
    n1: int,
    k2: Seq<char>,
    v2: ValueView,
    n2: int,
)
    requires
        b.len() <= usize::MAX,
        0 <= pos,
        pos <= n1 <= b.len(),
        pos <= n2 <= b.len(),
        b.subrange(pos, n1) == field_bytes(k1, v1),
        b.subrange(pos, n2) == field_bytes(k2, v2),
        view_bounded(v1),
        view_bounded(v2),
    ensures
        k1 == k2,
        v1 == v2,
        n1 == n2,
{
    let l1 = encode_utf8(k1).len() as int;
    let l2 = encode_utf8(k2).len() as int;
    lemma_value_bytes_shape(v1);
    lemma_value_bytes_shape(v2);
    lemma_subrange_index(b, pos, n1, field_bytes(k1, v1));
    lemma_subrange_index(b, pos, n2, field_bytes(k2, v2));
    assert(8 + l1 + value_bytes(v1).len() == n1 - pos);
    assert(8 + l2 + value_bytes(v2).len() == n2 - pos);
    assert(le64((l1 as u64)) =~= b.subrange(pos, pos + 8)) by {
        assert forall|i: int| 0 <= i < 8 implies #[trigger] le64((l1 as u64))[i] == b[pos + i] by {
            assert(field_bytes(k1, v1)[i] == b[pos + i]);
        }
    }
    assert(le64((l2 as u64)) =~= b.subrange(pos, pos + 8)) by {
        assert forall|i: int| 0 <= i < 8 implies #[trigger] le64((l2 as u64))[i] == b[pos + i] by {
            assert(field_bytes(k2, v2)[i] == b[pos + i]);
        }
    }
    lemma_le64_inj((l1 as u64), (l2 as u64));
    assert(l1 <= b.len() && l2 <= b.len());
    assert(l1 == l2);
    assert(encode_utf8(k1) =~= b.subrange(pos + 8, pos + 8 + l1)) by {
        assert forall|i: int| 0 <= i < l1 implies #[trigger] encode_utf8(k1)[i] == b[(pos + 8)
            + i] by {
            assert(field_bytes(k1, v1)[i + 8] == b[pos + (i + 8)]);
        }
    }
    assert(encode_utf8(k2) =~= b.subrange(pos + 8, pos + 8 + l2)) by {
        assert forall|i: int| 0 <= i < l2 implies #[trigger] encode_utf8(k2)[i] == b[(pos + 8)
            + i] by {
            assert(field_bytes(k2, v2)[i + 8] == b[pos + (i + 8)]);
        }
    }
    vstd::utf8::encode_utf8_decode_utf8(k1);
    vstd::utf8::encode_utf8_decode_utf8(k2);
    assert(k1 == k2);
    let vpos = pos + 8 + l1;
    assert(b.subrange(vpos, n1) =~= value_bytes(v1)) by {
        assert forall|i: int|
            0 <= i < value_bytes(v1).len() implies #[trigger] value_bytes(v1)[i] == b[vpos + i] by {
            assert(field_bytes(k1, v1)[i + 8 + l1] == b[pos + (i + 8 + l1)]);
        }
    }
    assert(b.subrange(vpos, n2) =~= value_bytes(v2)) by {
        assert forall|i: int|
            0 <= i < value_bytes(v2).len() implies #[trigger] value_bytes(v2)[i] == b[vpos + i] by {
            assert(field_bytes(k2, v2)[i + 8 + l2] == b[pos + (i + 8 + l2)]);
        }
    }
    lemma_value_prefix(b, vpos, v1, n1, v2, n2);
}

/// A decoded prefix of a list encoding is the matching prefix of the
/// encoded elements, and the next element's encoding begins right after it.
proof fn lemma_list_bytes_align(
    b: Seq<u8>,
    p1: int,
    endw: int,
    esw: Seq<ValueView>,
    ds: Seq<ValueView>,
    p: int,
)
    requires
        b.len() <= usize::MAX,
        0 <= p1,
        p1 <= p <= b.len(),
        p1 <= endw <= b.len(),
        b.subrange(p1, endw) == list_bytes(esw),
        b.subrange(p1, p) == list_bytes(ds),
        ds.len() <= esw.len(),
        list_bounded(esw),
        list_bounded(ds),
    ensures
        ds == esw.take(ds.len() as int),
        ds.len() < esw.len() ==> p + value_bytes(esw[ds.len() as int]).len() <= endw
            && b.subrange(p, p + value_bytes(esw[ds.len() as int]).len()) == value_bytes(
            esw[ds.len() as int],
        ),
    decreases ds.len(),
{
    lemma_subrange_index(b, p1, endw, list_bytes(esw));
    lemma_subrange_index(b, p1, p, list_bytes(ds));
    if ds.len() == 0 {
        assert(p == p1);
        assert(ds =~= esw.take(0));
        if esw.len() > 0 {
            let nxt = esw.first();
            lemma_value_bytes_shape(nxt);
            assert(endw - p1 == value_bytes(nxt).len() + list_bytes(esw.drop_first()).len());
            assert(b.subrange(p, p + value_bytes(nxt).len()) =~= value_bytes(nxt)) by {
                assert forall|i: int|
                    0 <= i < value_bytes(nxt).len() implies #[trigger] value_bytes(nxt)[i] == b[p
                    + i] by {
                    assert(list_bytes(esw)[i] == b[p1 + i]);
                }
            }
            assert(esw[0] == nxt);
        }
    } else {
        let d0 = ds.first();
        let w0 = esw.first();
        lemma_value_bytes_shape(d0);
        lemma_value_bytes_shape(w0);
        let kd = p1 + value_bytes(d0).len();
        let kw = p1 + value_bytes(w0).len();
        assert(p - p1 == value_bytes(d0).len() + list_bytes(ds.drop_first()).len());
        assert(endw - p1 == value_bytes(w0).len() + list_bytes(esw.drop_first()).len());
        assert(b.subrange(p1, kd) =~= value_bytes(d0)) by {
            assert forall|i: int|
                0 <= i < value_bytes(d0).len() implies #[trigger] value_bytes(d0)[i] == b[p1
                + i] by {
                assert(list_bytes(ds)[i] == b[p1 + i]);
            }
        }
        assert(b.subrange(p1, kw) =~= value_bytes(w0)) by {
            assert forall|i: int|
                0 <= i < value_bytes(w0).len() implies #[trigger] value_bytes(w0)[i] == b[p1
                + i] by {
                assert(list_bytes(esw)[i] == b[p1 + i]);
            }
        }
        lemma_value_prefix(b, p1, d0, kd, w0, kw);
        assert(b.subrange(kd, p) =~= list_bytes(ds.drop_first())) by {
            assert forall|i: int|
                0 <= i < list_bytes(ds.drop_first()).len() implies #[trigger] list_bytes(
                ds.drop_first(),
            )[i] == b[kd + i] by {
                assert(list_bytes(ds)[i + value_bytes(d0).len()] == b[p1 + (i + value_bytes(
                    d0,
                ).len())]);
            }
        }
        assert(b.subrange(kw, endw) =~= list_bytes(esw.drop_first())) by {
            assert forall|i: int|
                0 <= i < list_bytes(esw.drop_first()).len() implies #[trigger] list_bytes(
                esw.drop_first(),
            )[i] == b[kw + i] by {
                assert(list_bytes(esw)[i + value_bytes(w0).len()] == b[p1 + (i + value_bytes(
                    w0,
                ).len())]);
            }
        }
        lemma_list_bytes_align(b, kd, endw, esw.drop_first(), ds.drop_first(), p);
        assert(ds == esw.take(ds.len() as int)) by {
            assert(ds.drop_first() == esw.drop_first().take(ds.len() - 1));
            assert forall|i: int| 0 <= i < ds.len() implies #[trigger] ds[i] == esw.take(
                ds.len() as int,
            )[i] by {
                if i == 0 {
                    assert(ds[0] == d0 && esw[0] == w0);
                } else {
                    assert(ds[i] == ds.drop_first()[i - 1]);
                    assert(esw.drop_first().take(ds.len() - 1)[i - 1] == esw.drop_first()[i - 1]);
                    assert(esw.drop_first()[i - 1] == esw[i]);
                }
            }
            assert(ds =~= esw.take(ds.len() as int));
        }
        if ds.len() < esw.len() {
            assert(esw.drop_first()[ds.len() - 1] == esw[ds.len() as int]);
        }
    }
}

/// A decoded prefix of a record encoding is the matching prefix of the
/// encoded fields, and the next field's encoding begins right after it.
proof fn lemma_rec_bytes_align(
    b: Seq<u8>,
    p1: int,
    endw: int,
    fsw: Seq<(Seq<char>, ValueView)>,
    ds: Seq<(Seq<char>, ValueView)>,
    p: int,
)
    requires
        b.len() <= usize::MAX,
        0 <= p1,
        p1 <= p <= b.len(),
        p1 <= endw <= b.len(),
        b.subrange(p1, endw) == rec_bytes(fsw),
        b.subrange(p1, p) == rec_bytes(ds),
        ds.len() <= fsw.len(),
        fields_bounded(fsw),
        fields_bounded(ds),
    ensures
        ds == fsw.take(ds.len() as int),
        ds.len() < fsw.len() ==> {
            let nk = fsw[ds.len() as int].0;
            let nv = fsw[ds.len() as int].1;
            &&& p + 8 + encode_utf8(nk).len() + value_bytes(nv).len() <= endw
            &&& b.subrange(p, p + 8 + encode_utf8(nk).len() + value_bytes(nv).len())
                == field_bytes(nk, nv)
        },
    decreases ds.len(),
{
    lemma_subrange_index(b, p1, endw, rec_bytes(fsw));
    lemma_subrange_index(b, p1, p, rec_bytes(ds));
    if ds.len() == 0 {
        assert(p == p1);
        assert(ds =~= fsw.take(0));
        if fsw.len() > 0 {
            let nk = fsw.first().0;
            let nv = fsw.first().1;
            lemma_value_bytes_shape(nv);
            let flen = 8 + encode_utf8(nk).len() + value_bytes(nv).len();
            assert(endw - p1 == flen + rec_bytes(fsw.drop_first()).len());
            assert(b.subrange(p, p + flen) =~= field_bytes(nk, nv)) by {
                assert forall|i: int|
                    0 <= i < flen implies #[trigger] field_bytes(nk, nv)[i] == b[p + i] by {
                    assert(rec_bytes(fsw)[i] == b[p1 + i]);
                }
            }
            assert(fsw[0] == fsw.first());
        }
    } else {
        let d0 = ds.first();
        let w0 = fsw.first();
        lemma_value_bytes_shape(d0.1);
        lemma_value_bytes_shape(w0.1);
        let dlen = 8 + encode_utf8(d0.0).len() + value_bytes(d0.1).len();
        let wlen = 8 + encode_utf8(w0.0).len() + value_bytes(w0.1).len();
        let kd = p1 + dlen;
        let kw = p1 + wlen;
        assert(p - p1 == dlen + rec_bytes(ds.drop_first()).len());
        assert(endw - p1 == wlen + rec_bytes(fsw.drop_first()).len());
        assert(b.subrange(p1, kd) =~= field_bytes(d0.0, d0.1)) by {
            assert forall|i: int|
                0 <= i < dlen implies #[trigger] field_bytes(d0.0, d0.1)[i] == b[p1 + i] by {
                assert(rec_bytes(ds)[i] == b[p1 + i]);
            }
        }
        assert(b.subrange(p1, kw) =~= field_bytes(w0.0, w0.1)) by {
            assert forall|i: int|
                0 <= i < wlen implies #[trigger] field_bytes(w0.0, w0.1)[i] == b[p1 + i] by {
                assert(rec_bytes(fsw)[i] == b[p1 + i]);
            }
        }
        lemma_field_prefix(b, p1, d0.0, d0.1, kd, w0.0, w0.1, kw);
        assert(b.subrange(kd, p) =~= rec_bytes(ds.drop_first())) by {
            assert forall|i: int|
                0 <= i < rec_bytes(ds.drop_first()).len() implies #[trigger] rec_bytes(
                ds.drop_first(),
            )[i] == b[kd + i] by {
                assert(rec_bytes(ds)[i + dlen] == b[p1 + (i + dlen)]);
            }
        }
        assert(b.subrange(kw, endw) =~= rec_bytes(fsw.drop_first())) by {
            assert forall|i: int|
                0 <= i < rec_bytes(fsw.drop_first()).len() implies #[trigger] rec_bytes(
                fsw.drop_first(),
            )[i] == b[kw + i] by {
                assert(rec_bytes(fsw)[i + wlen] == b[p1 + (i + wlen)]);
            }
        }
        lemma_rec_bytes_align(b, kd, endw, fsw.drop_first(), ds.drop_first(), p);
        assert(ds == fsw.take(ds.len() as int)) by {
            assert(ds.drop_first() == fsw.drop_first().take(ds.len() - 1));
            assert forall|i: int| 0 <= i < ds.len() implies #[trigger] ds[i] == fsw.take(
                ds.len() as int,
            )[i] by {
                if i == 0 {
                    assert(ds[0] == d0 && fsw[0] == w0);
                } else {
                    assert(ds[i] == ds.drop_first()[i - 1]);
                    assert(fsw.drop_first().take(ds.len() - 1)[i - 1] == fsw.drop_first()[i - 1]);
                    assert(fsw.drop_first()[i - 1] == fsw[i]);
                }
            }
            assert(ds =~= fsw.take(ds.len() as int));
        }
        if ds.len() < fsw.len() {
            assert(fsw.drop_first()[ds.len() - 1] == fsw[ds.len() as int]);
        }
    }
}

/// No value encoding, over any bounded view, begins at `pos` in `b`.
pub open spec fn no_value_at(b: Seq<u8>, pos: int) -> bool {
    forall|wv: ValueView, end: int|
        #![trigger b.subrange(pos, end), value_bytes(wv)]
        !(view_bounded(wv) && pos < end <= b.len() && b.subrange(pos, end) == value_bytes(wv))
}

proof fn lemma_num_at(b: Seq<u8>, pos: int, end: int, m: int, st: nat)
    requires
        0 <= pos <= end <= b.len(),
        b.subrange(pos, end) == value_bytes(ValueView::Num(m, st)),
    ensures
        end == pos + 17,
        b.subrange(pos + 1, pos + 9) == le64((m as u64)),
        b.subrange(pos + 9, pos + 17) == le64((st as u64)),
{
    let wv = ValueView::Num(m, st);
    lemma_subrange_index(b, pos, end, value_bytes(wv));
    assert(le64((m as u64)) =~= b.subrange(pos + 1, pos + 9)) by {
        assert forall|i: int| 0 <= i < 8 implies #[trigger] le64((m as u64))[i] == b[pos + 1
            + i] by {
            assert(value_bytes(wv)[i + 1] == b[pos + (i + 1)]);
        }
    }
    assert(le64((st as u64)) =~= b.subrange(pos + 9, pos + 17)) by {
        assert forall|i: int| 0 <= i < 8 implies #[trigger] le64((st as u64))[i] == b[pos + 9
            + i] by {
            assert(value_bytes(wv)[i + 9] == b[pos + (i + 9)]);
        }
    }
}

proof fn lemma_str_at(b: Seq<u8>, pos: int, end: int, t: Seq<char>)
    requires
        0 <= pos <= end <= b.len(),
        b.subrange(pos, end) == value_bytes(ValueView::Str(t)),
    ensures
        end == pos + 9 + encode_utf8(t).len(),
        b.subrange(pos + 1, end) == le64((encode_utf8(t).len() as u64)) + encode_utf8(t),
{
    let wv = ValueView::Str(t);
    lemma_subrange_index(b, pos, end, value_bytes(wv));
    assert(le64((encode_utf8(t).len() as u64)) + encode_utf8(t) =~= b.subrange(pos + 1, end)) by {
        assert forall|i: int|
            0 <= i < 8 + encode_utf8(t).len() implies #[trigger] (le64(
            (encode_utf8(t).len() as u64),
        ) + encode_utf8(t))[i] == b[pos + 1 + i] by {
            assert(value_bytes(wv)[i + 1] == b[pos + (i + 1)]);
        }
    }
}

proof fn lemma_list_at(b: Seq<u8>, pos: int, end: int, es: Seq<ValueView>)
    requires
        0 <= pos <= end <= b.len(),
        b.len() <= usize::MAX,
        b.subrange(pos, end) == value_bytes(ValueView::List(es)),
    ensures
        end == pos + 9 + list_bytes(es).len(),
        es.len() <= b.len(),
        b.subrange(pos + 1, pos + 9) == le64((es.len() as u64)),
        b.subrange(pos + 9, end) == list_bytes(es),
{
    let wv = ValueView::List(es);
    lemma_subrange_index(b, pos, end, value_bytes(wv));
    lemma_list_bytes_min(es);
    assert(le64((es.len() as u64)) =~= b.subrange(pos + 1, pos + 9)) by {
        assert forall|i: int| 0 <= i < 8 implies #[trigger] le64((es.len() as u64))[i] == b[pos + 1
            + i] by {
            assert(value_bytes(wv)[i + 1] == b[pos + (i + 1)]);
        }
    }
    assert(list_bytes(es) =~= b.subrange(pos + 9, end)) by {
        assert forall|i: int|
            0 <= i < list_bytes(es).len() implies #[trigger] list_bytes(es)[i] == b[pos + 9
            + i] by {
            assert(value_bytes(wv)[i + 9] == b[pos + (i + 9)]);
        }
    }
}

proof fn lemma_rec_at(b: Seq<u8>, pos: int, end: int, fs: Seq<(Seq<char>, ValueView)>)
    requires
        0 <= pos <= end <= b.len(),
        b.len() <= usize::MAX,
        b.subrange(pos, end) == value_bytes(ValueView::Rec(fs)),
    ensures
        end == pos + 9 + rec_bytes(fs).len(),
        fs.len() <= b.len(),
        b.subrange(pos + 1, pos + 9) == le64((fs.len() as u64)),
        b.subrange(pos + 9, end) == rec_bytes(fs),
{
    let wv = ValueView::Rec(fs);
    lemma_subrange_index(b, pos, end, value_bytes(wv));
    lemma_rec_bytes_min(fs);
    assert(le64((fs.len() as u64)) =~= b.subrange(pos + 1, pos + 9)) by {
        assert forall|i: int| 0 <= i < 8 implies #[trigger] le64((fs.len() as u64))[i] == b[pos + 1
            + i] by {
            assert(value_bytes(wv)[i + 1] == b[pos + (i + 1)]);
        }
    }
    assert(rec_bytes(fs) =~= b.subrange(pos + 9, end)) by {
        assert forall|i: int|
            0 <= i < rec_bytes(fs).len() implies #[trigger] rec_bytes(fs)[i] == b[pos + 9 + i] by {
            assert(value_bytes(wv)[i + 9] == b[pos + (i + 9)]);
        }
    }
}

/// Appends the UTF-8 bytes of `s`, length-prefixed.
fn push_str_bytes(out: &mut Vec<u8>, s: &str)
    ensures
        final(out)@ == old(out)@ + le64(encode_utf8(s@).len() as u64) + encode_utf8(s@),
{
    let bytes = s.as_bytes();
    let n = bytes.len();
    push_u64(out, n as u64);
    let mut i: usize = 0;
    while i < n
        invariant
            0 <= i <= n,
            n == bytes@.len(),
            bytes@ == encode_utf8(s@),
            out@ == old(out)@ + le64(encode_utf8(s@).len() as u64) + encode_utf8(s@).take(i as int),
        decreases n - i,
    {
        out.push(bytes[i]);
        proof {
            assert(encode_utf8(s@).take(i as int).push(encode_utf8(s@)[i as int]) =~= encode_utf8(
                s@,
            ).take(i + 1));
            assert(out@ =~= old(out)@ + le64(encode_utf8(s@).len() as u64) + encode_utf8(s@).take(
                i + 1,
            ));
        }
        i = i + 1;
    }
    proof {
        assert(encode_utf8(s@).take(n as int) =~= encode_utf8(s@));
    }
}

/// Appends the wire bytes of `v`.
pub fn encode_value(v: &Value, out: &mut Vec<u8>)
    ensures
        final(out)@ == old(out)@ + value_bytes(v@),
    decreases crate::value::vsize(v@),
{
    match v {
        Value::Null => {
            out.push(0u8);
            proof {
                assert(out@ =~= old(out)@ + value_bytes(v@));
            }
        },
        Value::Bool(b) => {
            out.push(1u8);
            out.push(if *b {
                1u8
            } else {
                0u8
            });
            proof {
                assert(out@ =~= old(out)@ + value_bytes(v@));
            }
        },
        Value::Number(n) => {
            out.push(2u8);
            push_u64(out, #[verifier::truncate] (n.mantissa as u64));
            push_u64(out, n.scale as u64);
            proof {
                assert(out@ =~= old(out)@ + value_bytes(v@));
            }
        },
        Value::String(s) => {
            out.push(3u8);
            push_str_bytes(out, s.as_str());
            proof {
                assert(out@ =~= old(out)@ + value_bytes(v@));
            }
        },
        Value::List(l) => {
            proof {
                lemma_views_of_index(l@);
            }
            let ghost es = views_of(l@);
            out.push(4u8);
            push_u64(out, l.len() as u64);
            let ghost header = out@;
            let mut i: usize = 0;
            proof {
                assert(es.take(0) =~= Seq::<ValueView>::empty());
            }
            while i < l.len()
                invariant
                    0 <= i <= l@.len(),
                    es == views_of(l@),
                    es.len() == l@.len(),
                    forall|k: int| 0 <= k < l@.len() ==> es[k] == vview(#[trigger] l@[k]),
                    v@ == ValueView::List(es),
                    out@ == header + list_bytes(es.take(i as int)),
                decreases l@.len() - i,
            {
                proof {
                    crate::value::lemma_list_elem_smaller(es, i as int);
                }
                encode_value(&l[i], out);
                proof {
                    lemma_list_bytes_snoc(es, i as int);
                    assert(out@ =~= header + list_bytes(es.take(i + 1)));
                }
                i = i + 1;
            }
            proof {
                assert(es.take(es.len() as int) =~= es);
                assert(out@ =~= old(out)@ + value_bytes(v@));
            }
        },
        Value::Struct(fields) => {
            proof {
                lemma_field_views_of_index(fields@);
            }
            let ghost fs = field_views_of(fields@);
            out.push(5u8);
            push_u64(out, fields.len() as u64);
            let ghost header = out@;
            let mut i: usize = 0;
            proof {
                assert(fs.take(0) =~= Seq::<(Seq<char>, ValueView)>::empty());
            }
            while i < fields.len()
                invariant
                    0 <= i <= fields@.len(),
                    fs == field_views_of(fields@),
                    fs.len() == fields@.len(),
                    forall|k: int|
                        0 <= k < fields@.len() ==> #[trigger] fs[k] == (
                            fields@[k].0@,
                            vview(fields@[k].1),
                        ),
                    v@ == ValueView::Rec(fs),
                    out@ == header + rec_bytes(fs.take(i as int)),
                decreases fields@.len() - i,
            {
                proof {
                    crate::value::lemma_rec_field_smaller(fs, i as int);
                }
                push_str_bytes(out, fields[i].0.as_str());
                encode_value(&fields[i].1, out);
                proof {
                    lemma_rec_bytes_snoc(fs, i as int);
                    assert(out@ =~= header + rec_bytes(fs.take(i + 1)));
                }
                i = i + 1;
            }
            proof {
                assert(fs.take(fs.len() as int) =~= fs);
                assert(out@ =~= old(out)@ + value_bytes(v@));
            }
        },
    }
}

/// The wire bytes of a value, as a fresh buffer.
pub fn value_to_bytes(v: &Value) -> (r: Vec<u8>)
    ensures
        r@ == value_bytes(v@),
{
    let mut out: Vec<u8> = Vec::new();
    encode_value(v, &mut out);
    proof {
        assert(out@ =~= value_bytes(v@));
    }
    out
}

/// Relies on std's String::from_utf8: decodes UTF-8 bytes into a string,
/// and refuses bytes that are not valid UTF-8.
#[verifier::external_body]
fn string_from_utf8(v: Vec<u8>) -> (r: Option<String>)
    ensures
        r is Some <==> valid_utf8(v@),
        r matches Some(s) ==> s@ == decode_utf8(v@),
{
    match String::from_utf8(v) {
        Ok(s) => Some(s),
        Err(_) => None,
    }
}

/// Reads a length-prefixed UTF-8 string at `pos`; every well-formed
/// string encoding inside the buffer is read.
fn read_str(buf: &Vec<u8>, pos: usize) -> (r: Option<(String, usize)>)
    ensures
        r matches Some((s, newpos)) ==> {
            &&& pos <= newpos <= buf@.len()
            &&& buf@.subrange(pos as int, newpos as int) == le64(encode_utf8(s@).len() as u64)
                + encode_utf8(s@)
            &&& newpos == pos + 8 + encode_utf8(s@).len()
        },
        r is None ==> forall|t: Seq<char>, end: int|
            !(pos < end <= buf@.len() && buf@.subrange(pos as int, end) == le64(
                encode_utf8(t).len() as u64,
            ) + encode_utf8(t)),
{
    let (len, p1) = match read_u64(buf, pos) {
        Some(x) => x,
        None => {
            proof {
                assert forall|t: Seq<char>, end: int|
                    !(pos < end <= buf@.len() && buf@.subrange(pos as int, end) == le64(
                        encode_utf8(t).len() as u64,
                    ) + encode_utf8(t)) by {
                    if pos < end <= buf@.len() && buf@.subrange(pos as int, end) == le64(
                        encode_utf8(t).len() as u64,
                    ) + encode_utf8(t) {
                        lemma_subrange_index(
                            buf@,
                            pos as int,
                            end,
                            le64(encode_utf8(t).len() as u64) + encode_utf8(t),
                        );
                        assert(end - pos >= 8);
                        assert(false);
                    }
                }
            }
            return None;
        },
    };
    let ghost lw: u64 = len;
    let blen = buf.len();
    if len > (usize::MAX as u64) || blen - p1 < (len as usize) {
        proof {
            lemma_str_encoding_refused(buf@, pos as int, lw);
        }
        return None;
    }
    let len = len as usize;
    let mut bytes: Vec<u8> = Vec::new();
    let mut i: usize = 0;
    while i < len
        invariant
            0 <= i <= len,
            p1 + len <= buf@.len(),
            buf@.len() <= usize::MAX,
            bytes@ == buf@.subrange(p1 as int, p1 + i as int),
        decreases len - i,
    {
        proof {
            assert(p1 + i < buf@.len());
        }
        bytes.push(buf[p1 + i]);
        proof {
            assert(bytes@ =~= buf@.subrange(p1 as int, p1 + i + 1 as int));
        }
        i = i + 1;
    }
    let ghost raw = bytes@;
    match string_from_utf8(bytes) {
        Some(s) => {
            proof {
                broadcast use decode_utf8_encode_utf8;

                assert(encode_utf8(s@) == raw);
                assert(buf@.subrange(pos as int, (p1 + len) as int) =~= le64(
                    encode_utf8(s@).len() as u64,
                ) + encode_utf8(s@));
            }
            Some((s, p1 + len))
        },
        None => {
            proof {
                assert forall|t: Seq<char>, end: int|
                    !(pos < end <= buf@.len() && buf@.subrange(pos as int, end) == le64(
                        encode_utf8(t).len() as u64,
                    ) + encode_utf8(t)) by {
                    if pos < end <= buf@.len() && buf@.subrange(pos as int, end) == le64(
                        encode_utf8(t).len() as u64,
                    ) + encode_utf8(t) {
                        let sb = le64(encode_utf8(t).len() as u64) + encode_utf8(t);
                        lemma_subrange_index(buf@, pos as int, end, sb);
                        assert(le64((encode_utf8(t).len() as u64)) =~= buf@.subrange(
                            pos as int,
                            pos + 8,
                        )) by {
                            assert(forall|i: int| 0 <= i < 8 ==> #[trigger] sb[i] == le64(
                                (encode_utf8(t).len() as u64),
                            )[i]);
                            assert(forall|i: int|
                                0 <= i < 8 ==> #[trigger] buf@.subrange(pos as int, pos + 8)[i]
                                    == buf@[pos + i]);
                        }
                        assert(buf@.subrange(pos as int, pos + 8) == le64(lw));
                        lemma_le64_inj((encode_utf8(t).len() as u64), lw);
                        assert(encode_utf8(t).len() == end - pos - 8);
                        assert(encode_utf8(t).len() == len);
                        assert(encode_utf8(t) =~= raw) by {
                            assert(forall|i: int|
                                0 <= i < encode_utf8(t).len() ==> #[trigger] encode_utf8(t)[i]
                                    == sb[i + 8]);
                            assert(forall|i: int|
                                0 <= i < encode_utf8(t).len() ==> #[trigger] sb[i + 8] == buf@[pos
                                    + (i + 8)]);
                            assert(forall|i: int|
                                0 <= i < len ==> #[trigger] raw[i] == buf@[p1 + i]);
                        }
                        vstd::utf8::encode_utf8_valid_utf8(t);
                        assert(false);
                    }
                }
            }
            None
        },
    }
}

/// No string encoding whose declared length cannot be read lies at `pos`.
proof fn lemma_str_encoding_refused(b: Seq<u8>, pos: int, lw: u64)
    requires
        0 <= pos,
        pos + 8 <= b.len(),
        b.len() <= usize::MAX,
        b.subrange(pos, pos + 8) == le64(lw),
        lw > (usize::MAX as u64) || b.len() - (pos + 8) < lw,
    ensures
        forall|t: Seq<char>, end: int|
            !(pos < end <= b.len() && b.subrange(pos, end) == le64(encode_utf8(t).len() as u64)
                + encode_utf8(t)),
{
    assert forall|t: Seq<char>, end: int|
        !(pos < end <= b.len() && b.subrange(pos, end) == le64(encode_utf8(t).len() as u64)
            + encode_utf8(t)) by {
        if pos < end <= b.len() && b.subrange(pos, end) == le64(encode_utf8(t).len() as u64)
            + encode_utf8(t) {
            let sb = le64(encode_utf8(t).len() as u64) + encode_utf8(t);
            lemma_subrange_index(b, pos, end, sb);
            assert(encode_utf8(t).len() == end - pos - 8);
            assert(encode_utf8(t).len() <= b.len());
            assert(le64((encode_utf8(t).len() as u64)) =~= b.subrange(pos, pos + 8)) by {
                assert(forall|i: int| 0 <= i < 8 ==> #[trigger] sb[i] == le64(
                    (encode_utf8(t).len() as u64),
                )[i]);
                assert(forall|i: int|
                    0 <= i < 8 ==> #[trigger] b.subrange(pos, pos + 8)[i] == b[pos + i]);
            }
            lemma_le64_inj((encode_utf8(t).len() as u64), lw);
            assert(false);
        }
    }
}

/// No number encoding fits when fewer than seventeen bytes remain.
proof fn lemma_no_num_short(b: Seq<u8>, pos: int)
    requires
        0 <= pos < b.len(),
        b[pos] == 2,
        b.len() < pos + 17,
    ensures
        no_value_at(b, pos),
{
    assert forall|wv: ValueView, end: int|
        !(view_bounded(wv) && pos < end <= b.len() && b.subrange(pos, end) == value_bytes(wv)) by {
        if view_bounded(wv) && pos < end <= b.len() && b.subrange(pos, end) == value_bytes(wv) {
            lemma_value_bytes_shape(wv);
            lemma_subrange_index(b, pos, end, value_bytes(wv));
            assert(value_bytes(wv)[0int] == b[pos + 0]);
            assert(wv is Num);
            assert(end == pos + 17);
        }
    }
}

/// No list or record encoding fits when its count field cannot be read.
proof fn lemma_no_seq_short(b: Seq<u8>, pos: int)
    requires
        0 <= pos < b.len(),
        b.len() <= usize::MAX,
        b[pos] == 4 || b[pos] == 5,
        b.len() < pos + 9,
    ensures
        no_value_at(b, pos),
{
    assert forall|wv: ValueView, end: int|
        !(view_bounded(wv) && pos < end <= b.len() && b.subrange(pos, end) == value_bytes(wv)) by {
        if view_bounded(wv) && pos < end <= b.len() && b.subrange(pos, end) == value_bytes(wv) {
            lemma_value_bytes_shape(wv);
            lemma_subrange_index(b, pos, end, value_bytes(wv));
            assert(value_bytes(wv)[0int] == b[pos + 0]);
            if b[pos] == 4 {
                assert(wv is List);
                lemma_list_at(b, pos, end, wv->List_0);
            } else {
                assert(wv is Rec);
                lemma_rec_at(b, pos, end, wv->Rec_0);
            }
        }
    }
}

/// Decodes one value at `pos`; on success the returned value stands for
/// exactly the bytes between `pos` and the returned offset, and on refusal
/// no bounded value's encoding begins there.
pub fn decode_value(buf: &Vec<u8>, pos: usize) -> (r: Option<(Value, usize)>)
    ensures
        r matches Some((v, newpos)) ==> {
            &&& pos < newpos <= buf@.len()
            &&& buf@.subrange(pos as int, newpos as int) == value_bytes(v@)
        },
        r is None ==> no_value_at(buf@, pos as int),
    decreases buf@.len() - pos, 1int,
{
    if pos >= buf.len() {
        proof {
            assert forall|wv: ValueView, end: int|
                !(view_bounded(wv) && pos < end <= buf@.len() && buf@.subrange(pos as int, end)
                    == value_bytes(wv)) by {}
        }
        return None;
    }
    let tag = buf[pos];
    proof {
        assert(buf@[pos as int] == tag);
    }
    if tag == 0 {
        proof {
            assert(buf@.subrange(pos as int, pos + 1 as int) =~= seq![0u8]);
        }
        Some((Value::Null, pos + 1))
    } else if tag == 1 {
        if buf.len() - pos < 2 {
            proof {
                assert forall|wv: ValueView, end: int|
                    !(view_bounded(wv) && pos < end <= buf@.len() && buf@.subrange(pos as int, end)
                        == value_bytes(wv)) by {
                    if view_bounded(wv) && pos < end <= buf@.len() && buf@.subrange(
                        pos as int,
                        end,
                    ) == value_bytes(wv) {
                        lemma_value_bytes_shape(wv);
                        lemma_subrange_index(buf@, pos as int, end, value_bytes(wv));
                        assert(value_bytes(wv)[0int] == buf@[pos as int]);
                        assert(wv is Bool);
                        assert(end == pos + 2);
                    }
                }
            }
            return None;
        }
        let b = buf[pos + 1];
        if b == 0 || b == 1 {
            let v = Value::Bool(b == 1);
            proof {
                assert(buf@.subrange(pos as int, pos + 2 as int) =~= value_bytes(v@));
            }
            Some((v, pos + 2))
        } else {
            proof {
                assert forall|wv: ValueView, end: int|
                    !(view_bounded(wv) && pos < end <= buf@.len() && buf@.subrange(pos as int, end)
                        == value_bytes(wv)) by {
                    if view_bounded(wv) && pos < end <= buf@.len() && buf@.subrange(
                        pos as int,
                        end,
                    ) == value_bytes(wv) {
                        lemma_value_bytes_shape(wv);
                        lemma_subrange_index(buf@, pos as int, end, value_bytes(wv));
                        assert(value_bytes(wv)[0int] == buf@[pos as int]);
                        assert(wv is Bool);
                        assert(value_bytes(wv)[0int + 1] == buf@[pos + 1]);
                    }
                }
            }
            None
        }
    } else if tag == 2 {
        let (m, p1) = match read_u64(buf, pos + 1) {
            Some(x) => x,
            None => {
                proof {
                    lemma_no_num_short(buf@, pos as int);
                }
                return None;
            },
        };
        let (s, p2) = match read_u64(buf, p1) {
            Some(x) => x,
            None => {
                proof {
                    lemma_no_num_short(buf@, pos as int);
                }
                return None;
            },
        };
        if s > (u32::MAX as u64) {
            proof {
                assert forall|wv: ValueView, end: int|
                    !(view_bounded(wv) && pos < end <= buf@.len() && buf@.subrange(pos as int, end)
                        == value_bytes(wv)) by {
                    if view_bounded(wv) && pos < end <= buf@.len() && buf@.subrange(
                        pos as int,
                        end,
                    ) == value_bytes(wv) {
                        lemma_value_bytes_shape(wv);
                        lemma_subrange_index(buf@, pos as int, end, value_bytes(wv));
                        assert(value_bytes(wv)[0int] == buf@[pos as int]);
                        assert(wv is Num);
                        lemma_num_at(buf@, pos as int, end, wv->Num_0, wv->Num_1);
                        lemma_le64_inj(((wv->Num_1) as u64), s);
                    }
                }
            }
            return None;
        }
        let v = Value::Number(Number { mantissa: #[verifier::truncate] (m as i64), scale: s as u32 });
        proof {
            assert((m as i64) as u64 == m) by (bit_vector);
            assert(buf@.subrange(pos as int, p2 as int) =~= value_bytes(v@));
        }
        Some((v, p2))
    } else if tag == 3 {
        let (s, p1) = match read_str(buf, pos + 1) {
            Some(x) => x,
            None => {
                proof {
                    assert forall|wv: ValueView, end: int|
                        !(view_bounded(wv) && pos < end <= buf@.len() && buf@.subrange(
                            pos as int,
                            end,
                        ) == value_bytes(wv)) by {
                        if view_bounded(wv) && pos < end <= buf@.len() && buf@.subrange(
                            pos as int,
                            end,
                        ) == value_bytes(wv) {
                            lemma_value_bytes_shape(wv);
                            lemma_subrange_index(buf@, pos as int, end, value_bytes(wv));
                            assert(value_bytes(wv)[0int] == buf@[pos as int]);
                            assert(wv is Str);
                            lemma_str_at(buf@, pos as int, end, wv->Str_0);
                            assert(!(pos + 1 < end <= buf@.len() && buf@.subrange(pos + 1, end)
                                == le64((encode_utf8(wv->Str_0).len() as u64)) + encode_utf8(
                                wv->Str_0,
                            )));
                        }
                    }
                }
                return None;
            },
        };
        let v = Value::String(s);
        proof {
            assert(buf@.subrange(pos as int, p1 as int) =~= seq![3u8] + buf@.subrange(
                pos + 1 as int,
                p1 as int,
            ));
            assert(buf@.subrange(pos as int, p1 as int) =~= value_bytes(v@));
        }
        Some((v, p1))
    } else if tag == 4 {
        let (n, p1) = match read_u64(buf, pos + 1) {
            Some(x) => x,
            None => {
                proof {
                    lemma_no_seq_short(buf@, pos as int);
                }
                return None;
            },
        };
        if n > (usize::MAX as u64) {
            proof {
                assert forall|wv: ValueView, end: int|
                    !(view_bounded(wv) && pos < end <= buf@.len() && buf@.subrange(pos as int, end)
                        == value_bytes(wv)) by {
                    if view_bounded(wv) && pos < end <= buf@.len() && buf@.subrange(
                        pos as int,
                        end,
                    ) == value_bytes(wv) {
                        lemma_value_bytes_shape(wv);
                        lemma_subrange_index(buf@, pos as int, end, value_bytes(wv));
                        assert(value_bytes(wv)[0int] == buf@[pos as int]);
                        assert(wv is List);
                        lemma_list_at(buf@, pos as int, end, wv->List_0);
                        lemma_le64_inj(((wv->List_0.len()) as u64), n);
                    }
                }
            }
            return None;
        }
        let n = n as usize;
        let mut items: Vec<Value> = Vec::new();
        let mut p = p1;
        let mut i: usize = 0;
        proof {
            lemma_views_of_index(items@);
            assert(views_of(items@).take(0) =~= Seq::<ValueView>::empty());
        }
        while i < n
            invariant
                0 <= i <= n,
                pos + 1 <= p1 <= p <= buf@.len(),
                buf@.len() <= usize::MAX,
                buf@[pos as int] == 4,
                p1 == pos + 9,
                n <= usize::MAX,
                buf@.subrange(pos as int + 1, p1 as int) == le64((n as u64)),
                items@.len() == i,
                buf@.subrange(p1 as int, p as int) == list_bytes(views_of(items@)),
                views_of(items@).len() == i,
            decreases n - i, buf@.len() - p, 0int,
        {
            let ghost old_items = items@;
            let ghost old_p = p;
            match decode_value(buf, p) {
                Some((v, np)) => {
                    let ghost vv = v@;
                    items.push(v);
                    p = np;
                    proof {
                        lemma_views_of_index(old_items);
                        lemma_views_of_index(items@);
                        assert forall|k: int|
                            0 <= k < i implies #[trigger] views_of(items@)[k] == views_of(
                            old_items,
                        )[k] by {
                            assert(items@[k] == old_items[k]);
                        }
                        assert(views_of(items@).take(i as int) =~= views_of(old_items));
                        lemma_list_bytes_snoc(views_of(items@), i as int);
                        assert(vview(items@[i as int]) == vv);
                        assert(views_of(items@)[i as int] == vv);
                        assert(views_of(items@).take(i + 1) =~= views_of(items@));
                        assert(buf@.subrange(p1 as int, p as int) =~= buf@.subrange(
                            p1 as int,
                            old_p as int,
                        ) + buf@.subrange(old_p as int, p as int));
                    }
                },
                None => {
                    proof {
                        assert forall|wv: ValueView, end: int|
                            !(view_bounded(wv) && pos < end <= buf@.len() && buf@.subrange(
                                pos as int,
                                end,
                            ) == value_bytes(wv)) by {
                            if view_bounded(wv) && pos < end <= buf@.len() && buf@.subrange(
                                pos as int,
                                end,
                            ) == value_bytes(wv) {
                                lemma_value_bytes_shape(wv);
                                lemma_subrange_index(buf@, pos as int, end, value_bytes(wv));
                                assert(value_bytes(wv)[0int] == buf@[pos as int]);
                                assert(wv is List);
                                let esw = wv->List_0;
                                lemma_list_at(buf@, pos as int, end, esw);
                                lemma_le64_inj((esw.len() as u64), (n as u64));
                                assert(esw.len() == n);
                                lemma_values_bounded(items@);
                                lemma_list_bytes_align(
                                    buf@,
                                    p1 as int,
                                    end,
                                    esw,
                                    views_of(items@),
                                    p as int,
                                );
                                let nxt = esw[i as int];
                                lemma_list_bounded_index(esw);
                                lemma_value_bytes_shape(nxt);
                                assert(!(view_bounded(nxt) && p < p + value_bytes(nxt).len()
                                    <= buf@.len() && buf@.subrange(
                                    p as int,
                                    p + value_bytes(nxt).len(),
                                ) == value_bytes(nxt)));
                                assert(false);
                            }
                        }
                    }
                    return None;
                },
            }
            i = i + 1;
        }
        let v = Value::List(items);
        proof {
            assert(buf@.subrange(pos as int, p as int) =~= value_bytes(v@));
        }
        Some((v, p))
    } else if tag == 5 {
        let (n, p1) = match read_u64(buf, pos + 1) {
            Some(x) => x,
            None => {
                proof {
                    lemma_no_seq_short(buf@, pos as int);
                }
                return None;
            },
        };
        if n > (usize::MAX as u64) {
            proof {
                assert forall|wv: ValueView, end: int|
                    !(view_bounded(wv) && pos < end <= buf@.len() && buf@.subrange(pos as int, end)
                        == value_bytes(wv)) by {
                    if view_bounded(wv) && pos < end <= buf@.len() && buf@.subrange(
                        pos as int,
                        end,
                    ) == value_bytes(wv) {
                        lemma_value_bytes_shape(wv);
                        lemma_subrange_index(buf@, pos as int, end, value_bytes(wv));
                        assert(value_bytes(wv)[0int] == buf@[pos as int]);
                        assert(wv is Rec);
                        lemma_rec_at(buf@, pos as int, end, wv->Rec_0);
                        lemma_le64_inj(((wv->Rec_0.len()) as u64), n);
                    }
                }
            }
            return None;
        }
        let n = n as usize;
        let mut fields: Vec<(String, Value)> = Vec::new();
        let mut p = p1;
        let mut i: usize = 0;
        proof {
            lemma_field_views_of_index(fields@);
            assert(field_views_of(fields@).take(0) =~= Seq::<(Seq<char>, ValueView)>::empty());
        }
        while i < n
            invariant
                0 <= i <= n,
                pos + 1 <= p1 <= p <= buf@.len(),
                buf@.len() <= usize::MAX,
                buf@[pos as int] == 5,
                p1 == pos + 9,
                n <= usize::MAX,
                buf@.subrange(pos as int + 1, p1 as int) == le64((n as u64)),
                fields@.len() == i,
                buf@.subrange(p1 as int, p as int) == rec_bytes(field_views_of(fields@)),
                field_views_of(fields@).len() == i,
            decreases n - i, buf@.len() - p, 0int,
        {
            let ghost old_fields = fields@;
            let ghost old_p = p;
            let (key, p2) = match read_str(buf, p) {
                Some(x) => x,
                None => {
                    proof {
                        assert forall|wv: ValueView, end: int|
                            !(view_bounded(wv) && pos < end <= buf@.len() && buf@.subrange(
                                pos as int,
                                end,
                            ) == value_bytes(wv)) by {
                            if view_bounded(wv) && pos < end <= buf@.len() && buf@.subrange(
                                pos as int,
                                end,
                            ) == value_bytes(wv) {
                                lemma_value_bytes_shape(wv);
                                lemma_subrange_index(buf@, pos as int, end, value_bytes(wv));
                                assert(value_bytes(wv)[0int] == buf@[pos as int]);
                                assert(wv is Rec);
                                let fsw = wv->Rec_0;
                                lemma_rec_at(buf@, pos as int, end, fsw);
                                lemma_le64_inj((fsw.len() as u64), (n as u64));
                                assert(fsw.len() == n);
                                lemma_value_fields_bounded(fields@);
                                lemma_rec_bytes_align(
                                    buf@,
                                    p1 as int,
                                    end,
                                    fsw,
                                    field_views_of(fields@),
                                    p as int,
                                );
                                let nk = fsw[i as int].0;
                                let nv = fsw[i as int].1;
                                let kl = encode_utf8(nk).len() as int;
                                let fb = field_bytes(nk, nv);
                                lemma_subrange_index(
                                    buf@,
                                    p as int,
                                    p + fb.len(),
                                    fb,
                                );
                                assert(buf@.subrange(p as int, p + 8 + kl) =~= le64((kl as u64))
                                    + encode_utf8(nk)) by {
                                    assert forall|j: int|
                                        0 <= j < 8 + kl implies #[trigger] (le64((kl as u64))
                                            + encode_utf8(nk))[j] == buf@[p + j] by {
                                        assert(fb[j] == buf@[p + j]);
                                    }
                                }
                                assert(!(p < p + 8 + kl <= buf@.len() && buf@.subrange(
                                    p as int,
                                    p + 8 + kl,
                                ) == le64((encode_utf8(nk).len() as u64)) + encode_utf8(nk)));
                                assert(false);
                            }
                        }
                    }
                    return None;
                },
            };
            let ghost kk = key@;
            match decode_value(buf, p2) {
                Some((v, np)) => {
                    let ghost vv = v@;
                    fields.push((key, v));
                    p = np;
                    proof {
                        lemma_field_views_of_index(old_fields);
                        lemma_field_views_of_index(fields@);
                        assert forall|k: int|
                            0 <= k < i implies #[trigger] field_views_of(fields@)[k]
                            == field_views_of(old_fields)[k] by {
                            assert(fields@[k] == old_fields[k]);
                        }
                        assert(field_views_of(fields@).take(i as int) =~= field_views_of(
                            old_fields,
                        ));
                        lemma_rec_bytes_snoc(field_views_of(fields@), i as int);
                        assert(fields@[i as int].0@ == kk);
                        assert(vview(fields@[i as int].1) == vv);
                        assert(field_views_of(fields@)[i as int] == (kk, vv));
                        assert(field_views_of(fields@).take(i + 1) =~= field_views_of(fields@));
                        assert(buf@.subrange(p1 as int, p as int) =~= buf@.subrange(
                            p1 as int,
                            old_p as int,
                        ) + buf@.subrange(old_p as int, p2 as int) + buf@.subrange(
                            p2 as int,
                            p as int,
                        ));
                    }
                },
                None => {
                    proof {
                        assert forall|wv: ValueView, end: int|
                            !(view_bounded(wv) && pos < end <= buf@.len() && buf@.subrange(
                                pos as int,
                                end,
                            ) == value_bytes(wv)) by {
                            if view_bounded(wv) && pos < end <= buf@.len() && buf@.subrange(
                                pos as int,
                                end,
                            ) == value_bytes(wv) {
                                lemma_value_bytes_shape(wv);
                                lemma_subrange_index(buf@, pos as int, end, value_bytes(wv));
                                assert(value_bytes(wv)[0int] == buf@[pos as int]);
                                assert(wv is Rec);
                                let fsw = wv->Rec_0;
                                lemma_rec_at(buf@, pos as int, end, fsw);
                                lemma_le64_inj((fsw.len() as u64), (n as u64));
                                assert(fsw.len() == n);
                                lemma_value_fields_bounded(fields@);
                                lemma_rec_bytes_align(
                                    buf@,
                                    p1 as int,
                                    end,
                                    fsw,
                                    field_views_of(fields@),
                                    p as int,
                                );
                                let nk = fsw[i as int].0;
                                let nv = fsw[i as int].1;
                                let kl = encode_utf8(nk).len() as int;
                                let fb = field_bytes(nk, nv);
                                lemma_subrange_index(buf@, p as int, p + fb.len(), fb);
                                assert(le64((kl as u64)) =~= buf@.subrange(p as int, p + 8)) by {
                                    assert forall|j: int|
                                        0 <= j < 8 implies #[trigger] le64((kl as u64))[j]
                                        == buf@[p + j] by {
                                        assert(fb[j] == buf@[p + j]);
                                    }
                                }
                                let kd = key@;
                                let kdl = encode_utf8(kd).len() as int;
                                lemma_subrange_index(
                                    buf@,
                                    p as int,
                                    p2 as int,
                                    le64((encode_utf8(kd).len() as u64)) + encode_utf8(kd),
                                );
                                assert(le64((kdl as u64)) =~= buf@.subrange(p as int, p + 8)) by {
                                    assert forall|j: int|
                                        0 <= j < 8 implies #[trigger] le64((kdl as u64))[j]
                                        == buf@[p + j] by {
                                        assert((le64((encode_utf8(kd).len() as u64))
                                            + encode_utf8(kd))[j] == buf@[p + j]);
                                    }
                                }
                                lemma_le64_inj((kl as u64), (kdl as u64));
                                assert(kl == kdl);
                                assert(p2 == p + 8 + kl);
                                assert(buf@.subrange(p2 as int, p + fb.len()) =~= value_bytes(
                                    nv,
                                )) by {
                                    assert forall|j: int|
                                        0 <= j < value_bytes(nv).len() implies #[trigger] value_bytes(
                                        nv,
                                    )[j] == buf@[p2 + j] by {
                                        assert(fb[j + 8 + kl] == buf@[p + (j + 8 + kl)]);
                                    }
                                }
                                lemma_fields_bounded_index(fsw);
                                lemma_value_bytes_shape(nv);
                                assert(!(view_bounded(nv) && p2 < p + fb.len() <= buf@.len()
                                    && buf@.subrange(p2 as int, p + fb.len()) == value_bytes(nv)));
                                assert(false);
                            }
                        }
                    }
                    return None;
                },
            }
            i = i + 1;
        }
        let v = Value::Struct(fields);
        proof {
            assert(buf@.subrange(pos as int, p as int) =~= value_bytes(v@));
        }
        Some((v, p))
    } else {
        proof {
            assert forall|wv: ValueView, end: int|
                !(view_bounded(wv) && pos < end <= buf@.len() && buf@.subrange(pos as int, end)
                    == value_bytes(wv)) by {
                if view_bounded(wv) && pos < end <= buf@.len() && buf@.subrange(pos as int, end)
                    == value_bytes(wv) {
                    lemma_value_bytes_shape(wv);
                    lemma_subrange_index(buf@, pos as int, end, value_bytes(wv));
                    assert(value_bytes(wv)[0int] == buf@[pos as int]);
                }
            }
        }
        None
    }
}

} // verus!

use vstd::prelude::*;

use crate::flow::{
    DataType, DataTypeContainsKeyRuleConfig, DataTypeContainsTypeRuleConfig, DataTypeIdentifier,
    DataTypeItemOfCollectionRuleConfig, DataTypeNumberRangeRuleConfig, DataTypeRegexRuleConfig,
    DataTypeRule, ExecutionFlow, FlowSetting, NodeFunction, NodeParameter, NodeParameterValue,
    ValidationFlow,
};

verus! {

/// A length-prefixed UTF-8 string on the wire.
pub open spec fn str_bytes(t: Seq<char>) -> Seq<u8> {
    le64(encode_utf8(t).len() as u64) + encode_utf8(t)
}

/// An optional string on the wire: a presence byte, then the string.
pub open spec fn opt_str_bytes(t: Option<String>) -> Seq<u8> {
    match t {
        None => seq![0u8],
        Some(s) => seq![1u8] + str_bytes(s@),
    }
}

/// An optional value on the wire: a presence byte, then the value.
pub open spec fn opt_value_bytes(v: Option<Value>) -> Seq<u8> {
    match v {
        None => seq![0u8],
        Some(x) => seq![1u8] + value_bytes(vview(x)),
    }
}

pub open spec fn ident_bytes(id: DataTypeIdentifier) -> Seq<u8> {
    match id {
        DataTypeIdentifier::DataTypeIdentifier(s) => seq![0u8] + str_bytes(s@),
        DataTypeIdentifier::GenericType(s) => seq![1u8] + str_bytes(s@),
    }
}

pub open spec fn opt_ident_bytes(id: Option<DataTypeIdentifier>) -> Seq<u8> {
    match id {
        None => seq![0u8],
        Some(x) => seq![1u8] + ident_bytes(x),
    }
}

pub open spec fn rule_bytes(r: DataTypeRule) -> Seq<u8> {
    match r {
        DataTypeRule::Regex(c) => seq![0u8] + str_bytes(c.pattern@),
        DataTypeRule::NumberRange(c) => seq![1u8] + le64(c.from as u64) + le64(c.to as u64)
            + (match c.steps {
            None => seq![0u8],
            Some(st) => seq![1u8] + le64(st as u64),
        }),
        DataTypeRule::ItemOfCollection(c) => seq![2u8] + le64(c.items@.len() as u64) + list_bytes(
            views_of(c.items@),
        ),
        DataTypeRule::ContainsKey(c) => seq![3u8] + str_bytes(c.key@) + opt_ident_bytes(
            c.data_type_identifier,
        ),
        DataTypeRule::ContainsType(c) => seq![4u8] + opt_ident_bytes(c.data_type_identifier),
    }
}

pub open spec fn rules_bytes(rs: Seq<DataTypeRule>) -> Seq<u8>
    decreases rs,
{
    if rs.len() == 0 {
        Seq::empty()
    } else {
        rule_bytes(rs.first()) + rules_bytes(rs.drop_first())
    }
}

pub open spec fn data_type_bytes(dt: DataType) -> Seq<u8> {
    str_bytes(dt.identifier@) + opt_str_bytes(dt.parent_identifier) + le64(dt.rules@.len() as u64)
        + rules_bytes(dt.rules@)
}

pub open spec fn data_types_bytes(dts: Seq<DataType>) -> Seq<u8>
    decreases dts,
{
    if dts.len() == 0 {
        Seq::empty()
    } else {
        data_type_bytes(dts.first()) + data_types_bytes(dts.drop_first())
    }
}

pub open spec fn setting_bytes(s: FlowSetting) -> Seq<u8> {
    str_bytes(s.setting_id@) + le64(s.object@.len() as u64) + rec_bytes(field_views_of(s.object@))
}

pub open spec fn settings_bytes(ss: Seq<FlowSetting>) -> Seq<u8>
    decreases ss,
{
    if ss.len() == 0 {
        Seq::empty()
    } else {
        setting_bytes(ss.first()) + settings_bytes(ss.drop_first())
    }
}

pub open spec fn param_value_bytes(v: NodeParameterValue) -> Seq<u8> {
    match v {
        NodeParameterValue::LiteralValue(x) => seq![0u8] + value_bytes(vview(x)),
        NodeParameterValue::ReferenceValue(s) => seq![1u8] + str_bytes(s@),
    }
}

pub open spec fn param_bytes(p: NodeParameter) -> Seq<u8> {
    str_bytes(p.parameter_id@) + str_bytes(p.runtime_parameter_id@) + (match p.value {
        None => seq![0u8],
        Some(v) => seq![1u8] + param_value_bytes(v),
    })
}

pub open spec fn params_bytes(ps: Seq<NodeParameter>) -> Seq<u8>
    decreases ps,
{
    if ps.len() == 0 {
        Seq::empty()
    } else {
        param_bytes(ps.first()) + params_bytes(ps.drop_first())
    }
}

pub open spec fn node_function_bytes(f: NodeFunction) -> Seq<u8> {
    str_bytes(f.function_id@) + str_bytes(f.runtime_function_id@) + le64(
        f.parameters@.len() as u64,
    ) + params_bytes(f.parameters@)
}

pub open spec fn node_functions_bytes(fs: Seq<NodeFunction>) -> Seq<u8>
    decreases fs,
{
    if fs.len() == 0 {
        Seq::empty()
    } else {
        node_function_bytes(fs.first()) + node_functions_bytes(fs.drop_first())
    }
}

/// The wire bytes of a stored flow.
pub open spec fn validation_flow_bytes(f: ValidationFlow) -> Seq<u8> {
    le64(f.flow_id as u64) + le64(f.starting_node_id as u64) + le64(
        f.node_functions@.len() as u64,
    ) + node_functions_bytes(f.node_functions@) + le64(f.settings@.len() as u64) + settings_bytes(
        f.settings@,
    ) + opt_str_bytes(f.input_type_identifier) + le64(f.data_types@.len() as u64)
        + data_types_bytes(f.data_types@)
}

/// The wire bytes of a flow sent to the executor.
pub open spec fn execution_flow_bytes(f: ExecutionFlow) -> Seq<u8> {
    le64(f.flow_id as u64) + le64(f.starting_node_id as u64) + opt_value_bytes(f.input_value)
        + le64(f.node_functions@.len() as u64) + node_functions_bytes(f.node_functions@)
}

} // verus!

verus! {

proof fn lemma_list_bytes_push(es: Seq<ValueView>, x: ValueView)
    ensures
        list_bytes(es.push(x)) == list_bytes(es) + value_bytes(x),
    decreases es.len(),
{
    if es.len() == 0 {
        assert(es.push(x).first() == x);
        assert(es.push(x).drop_first() =~= Seq::<ValueView>::empty());
        assert(list_bytes(es.push(x)) == value_bytes(x) + list_bytes(Seq::<ValueView>::empty()));
        assert(list_bytes(es.push(x)) =~= list_bytes(es) + value_bytes(x));
    } else {
        assert(es.push(x).first() == es.first());
        assert(es.push(x).drop_first() =~= es.drop_first().push(x));
        lemma_list_bytes_push(es.drop_first(), x);
        assert(list_bytes(es.push(x)) == value_bytes(es.first()) + list_bytes(es.drop_first().push(x)));
        assert(list_bytes(es.push(x)) =~= list_bytes(es) + value_bytes(x));
    }
}

proof fn lemma_rules_bytes_push(rs: Seq<DataTypeRule>, x: DataTypeRule)
    ensures
        rules_bytes(rs.push(x)) == rules_bytes(rs) + rule_bytes(x),
    decreases rs.len(),
{
    if rs.len() == 0 {
        assert(rs.push(x).first() == x);
        assert(rs.push(x).drop_first() =~= Seq::<DataTypeRule>::empty());
        assert(rules_bytes(rs.push(x)) == rule_bytes(x) + rules_bytes(Seq::<DataTypeRule>::empty()));
        assert(rules_bytes(rs.push(x)) =~= rules_bytes(rs) + rule_bytes(x));
    } else {
        assert(rs.push(x).first() == rs.first());
        assert(rs.push(x).drop_first() =~= rs.drop_first().push(x));
        lemma_rules_bytes_push(rs.drop_first(), x);
        assert(rules_bytes(rs.push(x)) == rule_bytes(rs.first()) + rules_bytes(rs.drop_first().push(x)));
        assert(rules_bytes(rs.push(x)) =~= rules_bytes(rs) + rule_bytes(x));
    }
}

proof fn lemma_data_types_bytes_push(ds: Seq<DataType>, x: DataType)
    ensures
        data_types_bytes(ds.push(x)) == data_types_bytes(ds) + data_type_bytes(x),
    decreases ds.len(),
{
    if ds.len() == 0 {
        assert(ds.push(x).first() == x);
        assert(ds.push(x).drop_first() =~= Seq::<DataType>::empty());
        assert(data_types_bytes(ds.push(x)) == data_type_bytes(x) + data_types_bytes(Seq::<DataType>::empty()));
        assert(data_types_bytes(ds.push(x)) =~= data_types_bytes(ds) + data_type_bytes(x));
    } else {
        assert(ds.push(x).first() == ds.first());
        assert(ds.push(x).drop_first() =~= ds.drop_first().push(x));
        lemma_data_types_bytes_push(ds.drop_first(), x);
        assert(data_types_bytes(ds.push(x)) == data_type_bytes(ds.first()) + data_types_bytes(ds.drop_first().push(x)));
        assert(data_types_bytes(ds.push(x)) =~= data_types_bytes(ds) + data_type_bytes(x));
    }
}

proof fn lemma_settings_bytes_push(ss: Seq<FlowSetting>, x: FlowSetting)
    ensures
        settings_bytes(ss.push(x)) == settings_bytes(ss) + setting_bytes(x),
    decreases ss.len(),
{
    if ss.len() == 0 {
        assert(ss.push(x).first() == x);
        assert(ss.push(x).drop_first() =~= Seq::<FlowSetting>::empty());
        assert(settings_bytes(ss.push(x)) == setting_bytes(x) + settings_bytes(Seq::<FlowSetting>::empty()));
        assert(settings_bytes(ss.push(x)) =~= settings_bytes(ss) + setting_bytes(x));
    } else {
        assert(ss.push(x).first() == ss.first());
        assert(ss.push(x).drop_first() =~= ss.drop_first().push(x));
        lemma_settings_bytes_push(ss.drop_first(), x);
        assert(settings_bytes(ss.push(x)) == setting_bytes(ss.first()) + settings_bytes(ss.drop_first().push(x)));
        assert(settings_bytes(ss.push(x)) =~= settings_bytes(ss) + setting_bytes(x));
    }
}

proof fn lemma_params_bytes_push(ps: Seq<NodeParameter>, x: NodeParameter)
    ensures
        params_bytes(ps.push(x)) == params_bytes(ps) + param_bytes(x),
    decreases ps.len(),
{
    if ps.len() == 0 {
        assert(ps.push(x).first() == x);
        assert(ps.push(x).drop_first() =~= Seq::<NodeParameter>::empty());
        assert(params_bytes(ps.push(x)) == param_bytes(x) + params_bytes(Seq::<NodeParameter>::empty()));
        assert(params_bytes(ps.push(x)) =~= params_bytes(ps) + param_bytes(x));
    } else {
        assert(ps.push(x).first() == ps.first());
        assert(ps.push(x).drop_first() =~= ps.drop_first().push(x));
        lemma_params_bytes_push(ps.drop_first(), x);
        assert(params_bytes(ps.push(x)) == param_bytes(ps.first()) + params_bytes(ps.drop_first().push(x)));
        assert(params_bytes(ps.push(x)) =~= params_bytes(ps) + param_bytes(x));
    }
}

proof fn lemma_node_functions_bytes_push(fs: Seq<NodeFunction>, x: NodeFunction)
    ensures
        node_functions_bytes(fs.push(x)) == node_functions_bytes(fs) + node_function_bytes(x),
    decreases fs.len(),
{
    if fs.len() == 0 {
        assert(fs.push(x).first() == x);
        assert(fs.push(x).drop_first() =~= Seq::<NodeFunction>::empty());
        assert(node_functions_bytes(fs.push(x)) == node_function_bytes(x) + node_functions_bytes(Seq::<NodeFunction>::empty()));
        assert(node_functions_bytes(fs.push(x)) =~= node_functions_bytes(fs)
            + node_function_bytes(x));
    } else {
        assert(fs.push(x).first() == fs.first());
        assert(fs.push(x).drop_first() =~= fs.drop_first().push(x));
        lemma_node_functions_bytes_push(fs.drop_first(), x);
        assert(node_functions_bytes(fs.push(x)) == node_function_bytes(fs.first())
            + node_functions_bytes(fs.drop_first().push(x)));
        assert(node_functions_bytes(fs.push(x)) =~= node_functions_bytes(fs)
            + node_function_bytes(x));
    }
}

fn push_opt_str(out: &mut Vec<u8>, t: &Option<String>)
    ensures
        final(out)@ == old(out)@ + opt_str_bytes(*t),
{
    match t {
        None => {
            out.push(0u8);
            proof {
                assert(out@ =~= old(out)@ + opt_str_bytes(*t));
            }
        },
        Some(s) => {
            out.push(1u8);
            push_str_bytes(out, s.as_str());
            proof {
                assert(out@ =~= old(out)@ + opt_str_bytes(*t));
            }
        },
    }
}

fn push_ident(out: &mut Vec<u8>, id: &DataTypeIdentifier)
    ensures
        final(out)@ == old(out)@ + ident_bytes(*id),
{
    match id {
        DataTypeIdentifier::DataTypeIdentifier(s) => {
            out.push(0u8);
            push_str_bytes(out, s.as_str());
            proof {
                assert(out@ =~= old(out)@ + ident_bytes(*id));
            }
        },
        DataTypeIdentifier::GenericType(s) => {
            out.push(1u8);
            push_str_bytes(out, s.as_str());
            proof {
                assert(out@ =~= old(out)@ + ident_bytes(*id));
            }
        },
    }
}

fn push_opt_ident(out: &mut Vec<u8>, id: &Option<DataTypeIdentifier>)
    ensures
        final(out)@ == old(out)@ + opt_ident_bytes(*id),
{
    match id {
        None => {
            out.push(0u8);
            proof {
                assert(out@ =~= old(out)@ + opt_ident_bytes(*id));
            }
        },
        Some(x) => {
            out.push(1u8);
            push_ident(out, x);
            proof {
                assert(out@ =~= old(out)@ + opt_ident_bytes(*id));
            }
        },
    }
}

fn push_rule(out: &mut Vec<u8>, r: &DataTypeRule)
    ensures
        final(out)@ == old(out)@ + rule_bytes(*r),
{
    match r {
        DataTypeRule::Regex(c) => {
            out.push(0u8);
            push_str_bytes(out, c.pattern.as_str());
            proof {
                assert(out@ =~= old(out)@ + rule_bytes(*r));
            }
        },
        DataTypeRule::NumberRange(c) => {
            out.push(1u8);
            push_u64(out, #[verifier::truncate] (c.from as u64));
            push_u64(out, #[verifier::truncate] (c.to as u64));
            match c.steps {
                None => {
                    out.push(0u8);
                },
                Some(st) => {
                    out.push(1u8);
                    push_u64(out, #[verifier::truncate] (st as u64));
                },
            }
            proof {
                assert(out@ =~= old(out)@ + rule_bytes(*r));
            }
        },
        DataTypeRule::ItemOfCollection(c) => {
            out.push(2u8);
            push_u64(out, c.items.len() as u64);
            let ghost header = out@;
            let ghost es = views_of(c.items@);
            proof {
                lemma_views_of_index(c.items@);
                assert(es.take(0) =~= Seq::<ValueView>::empty());
            }
            let mut i: usize = 0;
            while i < c.items.len()
                invariant
                    0 <= i <= c.items@.len(),
                    es == views_of(c.items@),
                    es.len() == c.items@.len(),
                    forall|k: int| 0 <= k < c.items@.len() ==> es[k] == vview(#[trigger] c.items@[k]),
                    out@ == header + list_bytes(es.take(i as int)),
                decreases c.items@.len() - i,
            {
                encode_value(&c.items[i], out);
                proof {
                    assert(es.take(i + 1) =~= es.take(i as int).push(es[i as int]));
                    lemma_list_bytes_push(es.take(i as int), es[i as int]);
                    assert(out@ =~= header + list_bytes(es.take(i + 1)));
                }
                i = i + 1;
            }
            proof {
                assert(es.take(es.len() as int) =~= es);
                assert(out@ =~= old(out)@ + rule_bytes(*r));
            }
        },
        DataTypeRule::ContainsKey(c) => {
            out.push(3u8);
            push_str_bytes(out, c.key.as_str());
            push_opt_ident(out, &c.data_type_identifier);
            proof {
                assert(out@ =~= old(out)@ + rule_bytes(*r));
            }
        },
        DataTypeRule::ContainsType(c) => {
            out.push(4u8);
            push_opt_ident(out, &c.data_type_identifier);
            proof {
                assert(out@ =~= old(out)@ + rule_bytes(*r));
            }
        },
    }
}

fn push_data_type(out: &mut Vec<u8>, dt: &DataType)
    ensures
        final(out)@ == old(out)@ + data_type_bytes(*dt),
{
    push_str_bytes(out, dt.identifier.as_str());
    push_opt_str(out, &dt.parent_identifier);
    push_u64(out, dt.rules.len() as u64);
    let ghost header = out@;
    let ghost rs = dt.rules@;
    proof {
        assert(rs.take(0) =~= Seq::<DataTypeRule>::empty());
    }
    let mut i: usize = 0;
    while i < dt.rules.len()
        invariant
            0 <= i <= rs.len(),
            rs == dt.rules@,
            out@ == header + rules_bytes(rs.take(i as int)),
        decreases rs.len() - i,
    {
        push_rule(out, &dt.rules[i]);
        proof {
            assert(rs.take(i + 1) =~= rs.take(i as int).push(rs[i as int]));
            lemma_rules_bytes_push(rs.take(i as int), rs[i as int]);
            assert(out@ =~= header + rules_bytes(rs.take(i + 1)));
        }
        i = i + 1;
    }
    proof {
        assert(rs.take(rs.len() as int) =~= rs);
        assert(out@ =~= old(out)@ + data_type_bytes(*dt));
    }
}

fn push_field_list(out: &mut Vec<u8>, fields: &Vec<(String, Value)>)
    ensures
        final(out)@ == old(out)@ + le64(fields@.len() as u64) + rec_bytes(field_views_of(fields@)),
{
    push_u64(out, fields.len() as u64);
    let ghost header = out@;
    let ghost fs = field_views_of(fields@);
    proof {
        lemma_field_views_of_index(fields@);
        assert(fs.take(0) =~= Seq::<(Seq<char>, ValueView)>::empty());
    }
    let mut i: usize = 0;
    while i < fields.len()
        invariant
            0 <= i <= fields@.len(),
            fs == field_views_of(fields@),
            fs.len() == fields@.len(),
            forall|k: int|
                0 <= k < fields@.len() ==> #[trigger] fs[k] == (fields@[k].0@, vview(fields@[k].1)),
            out@ == header + rec_bytes(fs.take(i as int)),
        decreases fields@.len() - i,
    {
        push_str_bytes(out, fields[i].0.as_str());
        encode_value(&fields[i].1, out);
        proof {
            lemma_rec_bytes_snoc(fs, i as int);
            assert(out@ =~= header + rec_bytes(fs.take(i + 1)));
        }
        i = i + 1;
    }
    proof {
        assert(fs.take(fs.len() as int) =~= fs);
    }
}

fn push_setting(out: &mut Vec<u8>, s: &FlowSetting)
    ensures
        final(out)@ == old(out)@ + setting_bytes(*s),
{
    push_str_bytes(out, s.setting_id.as_str());
    push_field_list(out, &s.object);
    proof {
        assert(out@ =~= old(out)@ + setting_bytes(*s));
    }
}

fn push_param(out: &mut Vec<u8>, p: &NodeParameter)
    ensures
        final(out)@ == old(out)@ + param_bytes(*p),
{
    push_str_bytes(out, p.parameter_id.as_str());
    push_str_bytes(out, p.runtime_parameter_id.as_str());
    match &p.value {
        None => {
            out.push(0u8);
            proof {
                assert(out@ =~= old(out)@ + param_bytes(*p));
            }
        },
        Some(NodeParameterValue::LiteralValue(x)) => {
            out.push(1u8);
            out.push(0u8);
            encode_value(x, out);
            proof {
                assert(out@ =~= old(out)@ + param_bytes(*p));
            }
        },
        Some(NodeParameterValue::ReferenceValue(s)) => {
            out.push(1u8);
            out.push(1u8);
            push_str_bytes(out, s.as_str());
            proof {
                assert(out@ =~= old(out)@ + param_bytes(*p));
            }
        },
    }
}

fn push_node_function(out: &mut Vec<u8>, f: &NodeFunction)
    ensures
        final(out)@ == old(out)@ + node_function_bytes(*f),
{
    push_str_bytes(out, f.function_id.as_str());
    push_str_bytes(out, f.runtime_function_id.as_str());
    push_u64(out, f.parameters.len() as u64);
    let ghost header = out@;
    let ghost ps = f.parameters@;
    proof {
        assert(ps.take(0) =~= Seq::<NodeParameter>::empty());
    }
    let mut i: usize = 0;
    while i < f.parameters.len()
        invariant
            0 <= i <= ps.len(),
            ps == f.parameters@,
            out@ == header + params_bytes(ps.take(i as int)),
        decreases ps.len() - i,
    {
        push_param(out, &f.parameters[i]);
        proof {
            assert(ps.take(i + 1) =~= ps.take(i as int).push(ps[i as int]));
            lemma_params_bytes_push(ps.take(i as int), ps[i as int]);
            assert(out@ =~= header + params_bytes(ps.take(i + 1)));
        }
        i = i + 1;
    }
    proof {
        assert(ps.take(ps.len() as int) =~= ps);
        assert(out@ =~= old(out)@ + node_function_bytes(*f));
    }
}

fn push_node_functions(out: &mut Vec<u8>, fs: &Vec<NodeFunction>)
    ensures
        final(out)@ == old(out)@ + le64(fs@.len() as u64) + node_functions_bytes(fs@),
{
    push_u64(out, fs.len() as u64);
    let ghost header = out@;
    let ghost nfs = fs@;
    proof {
        assert(nfs.take(0) =~= Seq::<NodeFunction>::empty());
    }
    let mut i: usize = 0;
    while i < fs.len()
        invariant
            0 <= i <= nfs.len(),
            nfs == fs@,
            out@ == header + node_functions_bytes(nfs.take(i as int)),
        decreases nfs.len() - i,
    {
        push_node_function(out, &fs[i]);
        proof {
            assert(nfs.take(i + 1) =~= nfs.take(i as int).push(nfs[i as int]));
            lemma_node_functions_bytes_push(nfs.take(i as int), nfs[i as int]);
            assert(out@ =~= header + node_functions_bytes(nfs.take(i + 1)));
        }
        i = i + 1;
    }
    proof {
        assert(nfs.take(nfs.len() as int) =~= nfs);
    }
}

/// The wire bytes of a stored flow, as a fresh buffer.
pub fn encode_validation_flow(f: &ValidationFlow) -> (r: Vec<u8>)
    ensures
        r@ == validation_flow_bytes(*f),
{
    let mut out: Vec<u8> = Vec::new();
    push_u64(&mut out, #[verifier::truncate] (f.flow_id as u64));
    push_u64(&mut out, #[verifier::truncate] (f.starting_node_id as u64));
    push_node_functions(&mut out, &f.node_functions);
    push_u64(&mut out, f.settings.len() as u64);
    let ghost header = out@;
    let ghost ss = f.settings@;
    proof {
        assert(ss.take(0) =~= Seq::<FlowSetting>::empty());
    }
    let mut i: usize = 0;
    while i < f.settings.len()
        invariant
            0 <= i <= ss.len(),
            ss == f.settings@,
            out@ == header + settings_bytes(ss.take(i as int)),
        decreases ss.len() - i,
    {
        push_setting(&mut out, &f.settings[i]);
        proof {
            assert(ss.take(i + 1) =~= ss.take(i as int).push(ss[i as int]));
            lemma_settings_bytes_push(ss.take(i as int), ss[i as int]);
            assert(out@ =~= header + settings_bytes(ss.take(i + 1)));
        }
        i = i + 1;
    }
    proof {
        assert(ss.take(ss.len() as int) =~= ss);
    }
    push_opt_str(&mut out, &f.input_type_identifier);
    push_u64(&mut out, f.data_types.len() as u64);
    let ghost header2 = out@;
    let ghost ds = f.data_types@;
    proof {
        assert(ds.take(0) =~= Seq::<DataType>::empty());
    }
    let mut j: usize = 0;
    while j < f.data_types.len()
        invariant
            0 <= j <= ds.len(),
            ds == f.data_types@,
            out@ == header2 + data_types_bytes(ds.take(j as int)),
        decreases ds.len() - j,
    {
        push_data_type(&mut out, &f.data_types[j]);
        proof {
            assert(ds.take(j + 1) =~= ds.take(j as int).push(ds[j as int]));
            lemma_data_types_bytes_push(ds.take(j as int), ds[j as int]);
            assert(out@ =~= header2 + data_types_bytes(ds.take(j + 1)));
        }
        j = j + 1;
    }
    proof {
        assert(ds.take(ds.len() as int) =~= ds);
        assert(out@ =~= validation_flow_bytes(*f));
    }
    out
}

/// The wire bytes of an executor-bound flow, as a fresh buffer.
pub fn encode_execution_flow(f: &ExecutionFlow) -> (r: Vec<u8>)
    ensures
        r@ == execution_flow_bytes(*f),
{
    let mut out: Vec<u8> = Vec::new();
    push_u64(&mut out, #[verifier::truncate] (f.flow_id as u64));
    push_u64(&mut out, #[verifier::truncate] (f.starting_node_id as u64));
    match &f.input_value {
        None => {
            out.push(0u8);
        },
        Some(x) => {
            out.push(1u8);
            encode_value(x, &mut out);
        },
    }
    push_node_functions(&mut out, &f.node_functions);
    proof {
        assert(out@ =~= execution_flow_bytes(*f));
    }
    out
}

} // verus!

verus! {

fn read_opt_str(buf: &Vec<u8>, pos: usize) -> (r: Option<(Option<String>, usize)>)
    ensures
        r matches Some((t, newpos)) ==> {
            &&& pos < newpos <= buf@.len()
            &&& buf@.subrange(pos as int, newpos as int) == opt_str_bytes(t)
        },
{
    if pos >= buf.len() {
        return None;
    }
    let tag = buf[pos];
    if tag == 0 {
        proof {
            assert(buf@.subrange(pos as int, pos + 1 as int) =~= seq![0u8]);
        }
        Some((None, pos + 1))
    } else if tag == 1 {
        match read_str(buf, pos + 1) {
            Some((s, p1)) => {
                proof {
                    assert(buf@.subrange(pos as int, p1 as int) =~= seq![1u8] + buf@.subrange(
                        pos + 1 as int,
                        p1 as int,
                    ));
                }
                Some((Some(s), p1))
            },
            None => None,
        }
    } else {
        None
    }
}

fn read_ident(buf: &Vec<u8>, pos: usize) -> (r: Option<(DataTypeIdentifier, usize)>)
    ensures
        r matches Some((id, newpos)) ==> {
            &&& pos < newpos <= buf@.len()
            &&& buf@.subrange(pos as int, newpos as int) == ident_bytes(id)
        },
{
    if pos >= buf.len() {
        return None;
    }
    let tag = buf[pos];
    if tag > 1 {
        return None;
    }
    match read_str(buf, pos + 1) {
        Some((s, p1)) => {
            let id = if tag == 0 {
                DataTypeIdentifier::DataTypeIdentifier(s)
            } else {
                DataTypeIdentifier::GenericType(s)
            };
            proof {
                assert(buf@.subrange(pos as int, p1 as int) =~= seq![tag] + buf@.subrange(
                    pos + 1 as int,
                    p1 as int,
                ));
            }
            Some((id, p1))
        },
        None => None,
    }
}

fn read_opt_ident(buf: &Vec<u8>, pos: usize) -> (r: Option<(Option<DataTypeIdentifier>, usize)>)
    ensures
        r matches Some((id, newpos)) ==> {
            &&& pos < newpos <= buf@.len()
            &&& buf@.subrange(pos as int, newpos as int) == opt_ident_bytes(id)
        },
{
    if pos >= buf.len() {
        return None;
    }
    let tag = buf[pos];
    if tag == 0 {
        proof {
            assert(buf@.subrange(pos as int, pos + 1 as int) =~= seq![0u8]);
        }
        Some((None, pos + 1))
    } else if tag == 1 {
        match read_ident(buf, pos + 1) {
            Some((id, p1)) => {
                proof {
                    assert(buf@.subrange(pos as int, p1 as int) =~= seq![1u8] + buf@.subrange(
                        pos + 1 as int,
                        p1 as int,
                    ));
                }
                Some((Some(id), p1))
            },
            None => None,
        }
    } else {
        None
    }
}

fn decode_rule(buf: &Vec<u8>, pos: usize) -> (r: Option<(DataTypeRule, usize)>)
    ensures
        r matches Some((rule, newpos)) ==> {
            &&& pos < newpos <= buf@.len()
            &&& buf@.subrange(pos as int, newpos as int) == rule_bytes(rule)
        },
{
    if pos >= buf.len() {
        return None;
    }
    let tag = buf[pos];
    if tag == 0 {
        match read_str(buf, pos + 1) {
            Some((s, p1)) => {
                let rule = DataTypeRule::Regex(DataTypeRegexRuleConfig { pattern: s });
                proof {
                    assert(buf@.subrange(pos as int, p1 as int) =~= seq![0u8] + buf@.subrange(
                        pos + 1 as int,
                        p1 as int,
                    ));
                }
                Some((rule, p1))
            },
            None => None,
        }
    } else if tag == 1 {
        let (from, p1) = match read_u64(buf, pos + 1) {
            Some(x) => x,
            None => {
                return None;
            },
        };
        let (to, p2) = match read_u64(buf, p1) {
            Some(x) => x,
            None => {
                return None;
            },
        };
        if p2 >= buf.len() {
            return None;
        }
        let stag = buf[p2];
        if stag == 0 {
            let rule = DataTypeRule::NumberRange(DataTypeNumberRangeRuleConfig {
                from: #[verifier::truncate] (from as i64),
                to: #[verifier::truncate] (to as i64),
                steps: None,
            });
            proof {
                assert((#[verifier::truncate] (from as i64)) as u64 == from) by (bit_vector);
                assert((#[verifier::truncate] (to as i64)) as u64 == to) by (bit_vector);
                assert(buf@.subrange(pos as int, p2 + 1 as int) =~= rule_bytes(rule));
            }
            Some((rule, p2 + 1))
        } else if stag == 1 {
            let (st, p3) = match read_u64(buf, p2 + 1) {
                Some(x) => x,
                None => {
                    return None;
                },
            };
            let rule = DataTypeRule::NumberRange(DataTypeNumberRangeRuleConfig {
                from: #[verifier::truncate] (from as i64),
                to: #[verifier::truncate] (to as i64),
                steps: Some(#[verifier::truncate] (st as i64)),
            });
            proof {
                assert((#[verifier::truncate] (from as i64)) as u64 == from) by (bit_vector);
                assert((#[verifier::truncate] (to as i64)) as u64 == to) by (bit_vector);
                assert((#[verifier::truncate] (st as i64)) as u64 == st) by (bit_vector);
                assert(buf@.subrange(pos as int, p3 as int) =~= rule_bytes(rule));
            }
            Some((rule, p3))
        } else {
            None
        }
    } else if tag == 2 {
        let (n, p1) = match read_u64(buf, pos + 1) {
            Some(x) => x,
            None => {
                return None;
            },
        };
        if n > (usize::MAX as u64) {
            return None;
        }
        let n = n as usize;
        let mut items: Vec<Value> = Vec::new();
        let mut p = p1;
        let mut i: usize = 0;
        proof {
            lemma_views_of_index(items@);
        }
        while i < n
            invariant
                0 <= i <= n,
                pos + 1 <= p1 <= p <= buf@.len(),
                items@.len() == i,
                buf@.subrange(p1 as int, p as int) == list_bytes(views_of(items@)),
                views_of(items@).len() == i,
            decreases n - i,
        {
            let ghost old_items = items@;
            let ghost old_p = p;
            match decode_value(buf, p) {
                Some((v, np)) => {
                    let ghost vv = v@;
                    items.push(v);
                    p = np;
                    proof {
                        lemma_views_of_index(old_items);
                        lemma_views_of_index(items@);
                        assert forall|k: int|
                            0 <= k < i implies #[trigger] views_of(items@)[k] == views_of(
                            old_items,
                        )[k] by {
                            assert(items@[k] == old_items[k]);
                        }
                        assert(vview(items@[i as int]) == vv);
                        assert(views_of(items@) =~= views_of(old_items).push(vv));
                        lemma_list_bytes_push(views_of(old_items), vv);
                        assert(buf@.subrange(p1 as int, p as int) =~= buf@.subrange(
                            p1 as int,
                            old_p as int,
                        ) + buf@.subrange(old_p as int, p as int));
                    }
                },
                None => {
                    return None;
                },
            }
            i = i + 1;
        }
        let rule = DataTypeRule::ItemOfCollection(DataTypeItemOfCollectionRuleConfig { items });
        proof {
            assert(buf@.subrange(pos as int, p as int) =~= rule_bytes(rule));
        }
        Some((rule, p))
    } else if tag == 3 {
        let (key, p1) = match read_str(buf, pos + 1) {
            Some(x) => x,
            None => {
                return None;
            },
        };
        let (id, p2) = match read_opt_ident(buf, p1) {
            Some(x) => x,
            None => {
                return None;
            },
        };
        let rule = DataTypeRule::ContainsKey(DataTypeContainsKeyRuleConfig {
            key,
            data_type_identifier: id,
        });
        proof {
            assert(buf@.subrange(pos as int, p2 as int) =~= seq![3u8] + buf@.subrange(
                pos + 1 as int,
                p1 as int,
            ) + buf@.subrange(p1 as int, p2 as int));
            assert(buf@.subrange(pos as int, p2 as int) =~= rule_bytes(rule));
        }
        Some((rule, p2))
    } else if tag == 4 {
        let (id, p1) = match read_opt_ident(buf, pos + 1) {
            Some(x) => x,
            None => {
                return None;
            },
        };
        let rule = DataTypeRule::ContainsType(DataTypeContainsTypeRuleConfig {
            data_type_identifier: id,
        });
        proof {
            assert(buf@.subrange(pos as int, p1 as int) =~= seq![4u8] + buf@.subrange(
                pos + 1 as int,
                p1 as int,
            ));
            assert(buf@.subrange(pos as int, p1 as int) =~= rule_bytes(rule));
        }
        Some((rule, p1))
    } else {
        None
    }
}

fn decode_data_type(buf: &Vec<u8>, pos: usize) -> (r: Option<(DataType, usize)>)
    ensures
        r matches Some((dt, newpos)) ==> {
            &&& pos < newpos <= buf@.len()
            &&& buf@.subrange(pos as int, newpos as int) == data_type_bytes(dt)
        },
{
    let (identifier, p1) = match read_str(buf, pos) {
        Some(x) => x,
        None => {
            return None;
        },
    };
    if p1 <= pos {
        return None;
    }
    let (parent_identifier, p2) = match read_opt_str(buf, p1) {
        Some(x) => x,
        None => {
            return None;
        },
    };
    let (n, p3) = match read_u64(buf, p2) {
        Some(x) => x,
        None => {
            return None;
        },
    };
    if n > (usize::MAX as u64) {
        return None;
    }
    let n = n as usize;
    let mut rules: Vec<DataTypeRule> = Vec::new();
    let mut p = p3;
    let mut i: usize = 0;
    while i < n
        invariant
            0 <= i <= n,
            pos <= p3 <= p <= buf@.len(),
            rules@.len() == i,
            buf@.subrange(p3 as int, p as int) == rules_bytes(rules@),
        decreases n - i,
    {
        let ghost old_rules = rules@;
        let ghost old_p = p;
        match decode_rule(buf, p) {
            Some((rule, np)) => {
                let ghost rv = rule;
                rules.push(rule);
                p = np;
                proof {
                    assert(rules@ =~= old_rules.push(rv));
                    lemma_rules_bytes_push(old_rules, rv);
                    assert(buf@.subrange(p3 as int, p as int) =~= buf@.subrange(
                        p3 as int,
                        old_p as int,
                    ) + buf@.subrange(old_p as int, p as int));
                }
            },
            None => {
                return None;
            },
        }
        i = i + 1;
    }
    let dt = DataType { identifier, parent_identifier, rules };
    proof {
        assert(buf@.subrange(pos as int, p as int) =~= data_type_bytes(dt));
    }
    Some((dt, p))
}

fn decode_field_list(buf: &Vec<u8>, pos: usize) -> (r: Option<(Vec<(String, Value)>, usize)>)
    ensures
        r matches Some((fields, newpos)) ==> {
            &&& pos < newpos <= buf@.len()
            &&& buf@.subrange(pos as int, newpos as int) == le64(fields@.len() as u64) + rec_bytes(
                field_views_of(fields@),
            )
        },
{
    let (n, p1) = match read_u64(buf, pos) {
        Some(x) => x,
        None => {
            return None;
        },
    };
    if n > (usize::MAX as u64) {
        return None;
    }
    let n = n as usize;
    let mut fields: Vec<(String, Value)> = Vec::new();
    let mut p = p1;
    let mut i: usize = 0;
    proof {
        lemma_field_views_of_index(fields@);
    }
    while i < n
        invariant
            0 <= i <= n,
            pos <= p1 <= p <= buf@.len(),
            fields@.len() == i,
            n <= u64::MAX,
            buf@.subrange(p1 as int, p as int) == rec_bytes(field_views_of(fields@)),
            field_views_of(fields@).len() == i,
        decreases n - i,
    {
        let ghost old_fields = fields@;
        let ghost old_p = p;
        let (key, p2) = match read_str(buf, p) {
            Some(x) => x,
            None => {
                return None;
            },
        };
        let ghost kk = key@;
        match decode_value(buf, p2) {
            Some((v, np)) => {
                let ghost vv = v@;
                fields.push((key, v));
                p = np;
                proof {
                    lemma_field_views_of_index(old_fields);
                    lemma_field_views_of_index(fields@);
                    assert forall|k: int|
                        0 <= k < i implies #[trigger] field_views_of(fields@)[k]
                        == field_views_of(old_fields)[k] by {
                        assert(fields@[k] == old_fields[k]);
                    }
                    assert(fields@[i as int].0@ == kk);
                    assert(vview(fields@[i as int].1) == vv);
                    assert(field_views_of(fields@) =~= field_views_of(old_fields).push((kk, vv)));
                    lemma_rec_bytes_push(field_views_of(old_fields), kk, vv);
                    assert(buf@.subrange(p1 as int, p as int) =~= buf@.subrange(
                        p1 as int,
                        old_p as int,
                    ) + buf@.subrange(old_p as int, p2 as int) + buf@.subrange(
                        p2 as int,
                        p as int,
                    ));
                }
            },
            None => {
                return None;
            },
        }
        i = i + 1;
    }
    proof {
        assert(buf@.subrange(pos as int, p as int) =~= le64(fields@.len() as u64) + rec_bytes(
            field_views_of(fields@),
        ));
    }
    Some((fields, p))
}

proof fn lemma_rec_bytes_push(fs: Seq<(Seq<char>, ValueView)>, k: Seq<char>, v: ValueView)
    ensures
        rec_bytes(fs.push((k, v))) == rec_bytes(fs) + le64(encode_utf8(k).len() as u64)
            + encode_utf8(k) + value_bytes(v),
    decreases fs.len(),
{
    if fs.len() == 0 {
        assert(fs.push((k, v)).first() == (k, v));
        assert(fs.push((k, v)).drop_first() =~= Seq::<(Seq<char>, ValueView)>::empty());
        assert(rec_bytes(fs.push((k, v))) == le64(encode_utf8(k).len() as u64) + encode_utf8(k)
            + value_bytes(v) + rec_bytes(Seq::<(Seq<char>, ValueView)>::empty()));
        assert(rec_bytes(fs.push((k, v))) =~= rec_bytes(fs) + le64(encode_utf8(k).len() as u64)
            + encode_utf8(k) + value_bytes(v));
    } else {
        assert(fs.push((k, v)).first() == fs.first());
        assert(fs.push((k, v)).drop_first() =~= fs.drop_first().push((k, v)));
        lemma_rec_bytes_push(fs.drop_first(), k, v);
        assert(rec_bytes(fs.push((k, v))) == le64(encode_utf8(fs.first().0).len() as u64)
            + encode_utf8(fs.first().0) + value_bytes(fs.first().1) + rec_bytes(
            fs.drop_first().push((k, v)),
        ));
        assert(rec_bytes(fs.push((k, v))) =~= rec_bytes(fs) + le64(encode_utf8(k).len() as u64)
            + encode_utf8(k) + value_bytes(v));
    }
}

fn decode_setting(buf: &Vec<u8>, pos: usize) -> (r: Option<(FlowSetting, usize)>)
    ensures
        r matches Some((s, newpos)) ==> {
            &&& pos < newpos <= buf@.len()
            &&& buf@.subrange(pos as int, newpos as int) == setting_bytes(s)
        },
{
    let (setting_id, p1) = match read_str(buf, pos) {
        Some(x) => x,
        None => {
            return None;
        },
    };
    let (object, p2) = match decode_field_list(buf, p1) {
        Some(x) => x,
        None => {
            return None;
        },
    };
    let s = FlowSetting { setting_id, object };
    proof {
        assert(buf@.subrange(pos as int, p2 as int) =~= buf@.subrange(pos as int, p1 as int)
            + buf@.subrange(p1 as int, p2 as int));
        assert(buf@.subrange(pos as int, p2 as int) =~= setting_bytes(s));
    }
    Some((s, p2))
}

fn decode_param(buf: &Vec<u8>, pos: usize) -> (r: Option<(NodeParameter, usize)>)
    ensures
        r matches Some((param, newpos)) ==> {
            &&& pos < newpos <= buf@.len()
            &&& buf@.subrange(pos as int, newpos as int) == param_bytes(param)
        },
{
    let (parameter_id, p1) = match read_str(buf, pos) {
        Some(x) => x,
        None => {
            return None;
        },
    };
    let (runtime_parameter_id, p2) = match read_str(buf, p1) {
        Some(x) => x,
        None => {
            return None;
        },
    };
    if p2 >= buf.len() {
        return None;
    }
    let tag = buf[p2];
    if tag == 0 {
        let param = NodeParameter { parameter_id, runtime_parameter_id, value: None };
        proof {
            assert(buf@.subrange(pos as int, p2 + 1 as int) =~= buf@.subrange(
                pos as int,
                p1 as int,
            ) + buf@.subrange(p1 as int, p2 as int) + seq![0u8]);
            assert(buf@.subrange(pos as int, p2 + 1 as int) =~= param_bytes(param));
        }
        Some((param, p2 + 1))
    } else if tag == 1 {
        if p2 + 1 >= buf.len() {
            return None;
        }
        let vtag = buf[p2 + 1];
        if vtag == 0 {
            let (v, p3) = match decode_value(buf, p2 + 2) {
                Some(x) => x,
                None => {
                    return None;
                },
            };
            let param = NodeParameter {
                parameter_id,
                runtime_parameter_id,
                value: Some(NodeParameterValue::LiteralValue(v)),
            };
            proof {
                assert(buf@.subrange(pos as int, p3 as int) =~= buf@.subrange(
                    pos as int,
                    p1 as int,
                ) + buf@.subrange(p1 as int, p2 as int) + seq![1u8, 0u8] + buf@.subrange(
                    p2 + 2 as int,
                    p3 as int,
                ));
                assert(buf@.subrange(pos as int, p3 as int) =~= param_bytes(param));
            }
            Some((param, p3))
        } else if vtag == 1 {
            let (s, p3) = match read_str(buf, p2 + 2) {
                Some(x) => x,
                None => {
                    return None;
                },
            };
            let param = NodeParameter {
                parameter_id,
                runtime_parameter_id,
                value: Some(NodeParameterValue::ReferenceValue(s)),
            };
            proof {
                assert(buf@.subrange(pos as int, p3 as int) =~= buf@.subrange(
                    pos as int,
                    p1 as int,
                ) + buf@.subrange(p1 as int, p2 as int) + seq![1u8, 1u8] + buf@.subrange(
                    p2 + 2 as int,
                    p3 as int,
                ));
                assert(buf@.subrange(pos as int, p3 as int) =~= param_bytes(param));
            }
            Some((param, p3))
        } else {
            None
        }
    } else {
        None
    }
}

fn decode_node_function(buf: &Vec<u8>, pos: usize) -> (r: Option<(NodeFunction, usize)>)
    ensures
        r matches Some((f, newpos)) ==> {
            &&& pos < newpos <= buf@.len()
            &&& buf@.subrange(pos as int, newpos as int) == node_function_bytes(f)
        },
{
    let (function_id, p1) = match read_str(buf, pos) {
        Some(x) => x,
        None => {
            return None;
        },
    };
    let (runtime_function_id, p2) = match read_str(buf, p1) {
        Some(x) => x,
        None => {
            return None;
        },
    };
    let (n, p3) = match read_u64(buf, p2) {
        Some(x) => x,
        None => {
            return None;
        },
    };
    if n > (usize::MAX as u64) {
        return None;
    }
    let n = n as usize;
    let mut parameters: Vec<NodeParameter> = Vec::new();
    let mut p = p3;
    let mut i: usize = 0;
    while i < n
        invariant
            0 <= i <= n,
            pos <= p3 <= p <= buf@.len(),
            parameters@.len() == i,
            buf@.subrange(p3 as int, p as int) == params_bytes(parameters@),
        decreases n - i,
    {
        let ghost old_params = parameters@;
        let ghost old_p = p;
        match decode_param(buf, p) {
            Some((param, np)) => {
                let ghost pv = param;
                parameters.push(param);
                p = np;
                proof {
                    assert(parameters@ =~= old_params.push(pv));
                    lemma_params_bytes_push(old_params, pv);
                    assert(buf@.subrange(p3 as int, p as int) =~= buf@.subrange(
                        p3 as int,
                        old_p as int,
                    ) + buf@.subrange(old_p as int, p as int));
                }
            },
            None => {
                return None;
            },
        }
        i = i + 1;
    }
    let f = NodeFunction { function_id, runtime_function_id, parameters };
    proof {
        assert(buf@.subrange(pos as int, p as int) =~= node_function_bytes(f));
    }
    Some((f, p))
}

fn decode_node_functions(buf: &Vec<u8>, pos: usize) -> (r: Option<(Vec<NodeFunction>, usize)>)
    ensures
        r matches Some((fs, newpos)) ==> {
            &&& pos < newpos <= buf@.len()
            &&& buf@.subrange(pos as int, newpos as int) == le64(fs@.len() as u64)
                + node_functions_bytes(fs@)
        },
{
    let (n, p1) = match read_u64(buf, pos) {
        Some(x) => x,
        None => {
            return None;
        },
    };
    if n > (usize::MAX as u64) {
        return None;
    }
    let n = n as usize;
    let mut fs: Vec<NodeFunction> = Vec::new();
    let mut p = p1;
    let mut i: usize = 0;
    while i < n
        invariant
            0 <= i <= n,
            pos <= p1 <= p <= buf@.len(),
            fs@.len() == i,
            buf@.subrange(p1 as int, p as int) == node_functions_bytes(fs@),
        decreases n - i,
    {
        let ghost old_fs = fs@;
        let ghost old_p = p;
        match decode_node_function(buf, p) {
            Some((f, np)) => {
                let ghost fv = f;
                fs.push(f);
                p = np;
                proof {
                    assert(fs@ =~= old_fs.push(fv));
                    lemma_node_functions_bytes_push(old_fs, fv);
                    assert(buf@.subrange(p1 as int, p as int) =~= buf@.subrange(
                        p1 as int,
                        old_p as int,
                    ) + buf@.subrange(old_p as int, p as int));
                }
            },
            None => {
                return None;
            },
        }
        i = i + 1;
    }
    proof {
        assert(buf@.subrange(pos as int, p as int) =~= le64(fs@.len() as u64)
            + node_functions_bytes(fs@));
    }
    Some((fs, p))
}

/// Decodes a stored flow; on success the whole buffer is exactly the wire
/// bytes of the returned flow.
#[verifier::rlimit(60)]
pub fn decode_validation_flow(buf: &Vec<u8>) -> (r: Option<ValidationFlow>)
    ensures
        r matches Some(f) ==> buf@ == validation_flow_bytes(f),
{
    let (flow_id, p1) = match read_u64(buf, 0) {
        Some(x) => x,
        None => {
            return None;
        },
    };
    let (starting_node_id, p2) = match read_u64(buf, p1) {
        Some(x) => x,
        None => {
            return None;
        },
    };
    let (node_functions, p3) = match decode_node_functions(buf, p2) {
        Some(x) => x,
        None => {
            return None;
        },
    };
    let (n, p4) = match read_u64(buf, p3) {
        Some(x) => x,
        None => {
            return None;
        },
    };
    if n > (usize::MAX as u64) {
        return None;
    }
    let n = n as usize;
    let mut settings: Vec<FlowSetting> = Vec::new();
    let mut p = p4;
    let mut i: usize = 0;
    while i < n
        invariant
            0 <= i <= n,
            p4 <= p <= buf@.len(),
            settings@.len() == i,
            buf@.subrange(p4 as int, p as int) == settings_bytes(settings@),
        decreases n - i,
    {
        let ghost old_ss = settings@;
        let ghost old_p = p;
        match decode_setting(buf, p) {
            Some((s, np)) => {
                let ghost sv = s;
                settings.push(s);
                p = np;
                proof {
                    assert(settings@ =~= old_ss.push(sv));
                    lemma_settings_bytes_push(old_ss, sv);
                    assert(buf@.subrange(p4 as int, p as int) =~= buf@.subrange(
                        p4 as int,
                        old_p as int,
                    ) + buf@.subrange(old_p as int, p as int));
                }
            },
            None => {
                return None;
            },
        }
        i = i + 1;
    }
    let (input_type_identifier, p5) = match read_opt_str(buf, p) {
        Some(x) => x,
        None => {
            return None;
        },
    };
    let (m, p6) = match read_u64(buf, p5) {
        Some(x) => x,
        None => {
            return None;
        },
    };
    if m > (usize::MAX as u64) {
        return None;
    }
    let m = m as usize;
    let mut data_types: Vec<DataType> = Vec::new();
    let mut q = p6;
    let mut j: usize = 0;
    while j < m
        invariant
            0 <= j <= m,
            p6 <= q <= buf@.len(),
            data_types@.len() == j,
            buf@.subrange(p6 as int, q as int) == data_types_bytes(data_types@),
        decreases m - j,
    {
        let ghost old_ds = data_types@;
        let ghost old_q = q;
        match decode_data_type(buf, q) {
            Some((dt, nq)) => {
                let ghost dv = dt;
                data_types.push(dt);
                q = nq;
                proof {
                    assert(data_types@ =~= old_ds.push(dv));
                    lemma_data_types_bytes_push(old_ds, dv);
                    assert(buf@.subrange(p6 as int, q as int) =~= buf@.subrange(
                        p6 as int,
                        old_q as int,
                    ) + buf@.subrange(old_q as int, q as int));
                }
            },
            None => {
                return None;
            },
        }
        j = j + 1;
    }
    if q != buf.len() {
        return None;
    }
    let f = ValidationFlow {
        flow_id: #[verifier::truncate] (flow_id as i64),
        starting_node_id: #[verifier::truncate] (starting_node_id as i64),
        node_functions,
        settings,
        input_type_identifier,
        data_types,
    };
    proof {
        assert((#[verifier::truncate] (flow_id as i64)) as u64 == flow_id) by (bit_vector);
        assert((#[verifier::truncate] (starting_node_id as i64)) as u64 == starting_node_id)
            by (bit_vector);
        assert(buf@ =~= buf@.subrange(0, buf@.len() as int));
        assert(buf@.subrange(0, q as int) =~= buf@.subrange(0, p1 as int) + buf@.subrange(
            p1 as int,
            p2 as int,
        ) + buf@.subrange(p2 as int, p3 as int) + buf@.subrange(p3 as int, p4 as int)
            + buf@.subrange(p4 as int, p as int) + buf@.subrange(p as int, p5 as int)
            + buf@.subrange(p5 as int, p6 as int) + buf@.subrange(p6 as int, q as int));
        assert(buf@ =~= validation_flow_bytes(f));
    }
    Some(f)
}

} // verus!
