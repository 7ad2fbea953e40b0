//! Small verified helpers over strings: character append, equality of string
//! slices, and rendering of integers as decimal text.

use vstd::prelude::*;

verus! {

/// Relies on std's String::push: appends exactly one character at the end.
#[verifier::external_body]
pub fn push_char(s: &mut String, c: char)
    ensures
        final(s)@ == old(s)@.push(c),
{
    s.push(c);
}

/// Equality of two string slices, decided character by character.
pub fn str_eq(a: &str, b: &str) -> (r: bool)
    ensures
        r == (a@ == b@),
{
    let alen = a.unicode_len();
    let blen = b.unicode_len();
    if alen != blen {
        assert(a@.len() != b@.len());
        return false;
    }
    let mut i: usize = 0;
    while i < alen
        invariant
            0 <= i <= alen,
            alen == a@.len(),
            alen == b@.len(),
            forall|j: int| 0 <= j < i ==> a@[j] == b@[j],
        decreases alen - i,
    {
        if a.get_char(i) != b.get_char(i) {
            return false;
        }
        i = i + 1;
    }
    proof {
        assert(a@ =~= b@);
    }
    true
}

/// The decimal digit character for `d`.
pub open spec fn digit_char(d: nat) -> char {
    if d == 0 { '0' }
    else if d == 1 { '1' }
    else if d == 2 { '2' }
    else if d == 3 { '3' }
    else if d == 4 { '4' }
    else if d == 5 { '5' }
    else if d == 6 { '6' }
    else if d == 7 { '7' }
    else if d == 8 { '8' }
    else { '9' }
}

/// Decimal text of a natural number, most significant digit first.
pub open spec fn nat_str(n: nat) -> Seq<char>
    decreases n,
{
    if n < 10 {
        seq![digit_char(n)]
    } else {
        nat_str(n / 10) + seq![digit_char(n % 10)]
    }
}

/// Decimal text of an integer, with a leading minus sign when negative.
pub open spec fn int_str(m: int) -> Seq<char> {
    if m < 0 {
        seq!['-'] + nat_str((-m) as nat)
    } else {
        nat_str(m as nat)
    }
}

fn digit_to_char(d: u64) -> (c: char)
    requires
        d < 10,
    ensures
        c == digit_char(d as nat),
{
    if d == 0 { '0' }
    else if d == 1 { '1' }
    else if d == 2 { '2' }
    else if d == 3 { '3' }
    else if d == 4 { '4' }
    else if d == 5 { '5' }
    else if d == 6 { '6' }
    else if d == 7 { '7' }
    else if d == 8 { '8' }
    else { '9' }
}

/// Appends the decimal text of `n` to `out`.
pub fn append_u64(out: &mut String, n: u64)
    ensures
        final(out)@ == old(out)@ + nat_str(n as nat),
    decreases n,
{
    if n < 10 {
        push_char(out, digit_to_char(n));
    } else {
        append_u64(out, n / 10);
        push_char(out, digit_to_char(n % 10));
        assert(out@ =~= old(out)@ + nat_str(n as nat));
    }
}

/// The decimal text of `n`.
pub fn u64_string(n: u64) -> (r: String)
    ensures
        r@ == nat_str(n as nat),
{
    let mut s = String::new();
    append_u64(&mut s, n);
    proof {
        assert(s@ =~= nat_str(n as nat));
    }
    s
}

} // verus!

use vstd::prelude::*;

verus! {

/// The index of the first occurrence of `c` in `s`, or -1 when absent.
pub open spec fn index_of_char(s: Seq<char>, c: char) -> int
    decreases s.len(),
{
    if s.len() == 0 {
        -1
    } else if s[0] == c {
        0
    } else {
        let r = index_of_char(s.drop_first(), c);
        if r < 0 {
            -1
        } else {
            1 + r
        }
    }
}

pub proof fn lemma_index_of_char_at(s: Seq<char>, c: char, i: int)
    requires
        0 <= i < s.len(),
        s[i] == c,
        forall|j: int| 0 <= j < i ==> s[j] != c,
    ensures
        index_of_char(s, c) == i,
    decreases s.len(),
{
    if i > 0 {
        assert(forall|j: int| 0 <= j < i - 1 ==> #[trigger] s.drop_first()[j] == s[j + 1]);
        assert(s.drop_first()[i - 1] == s[i]);
        lemma_index_of_char_at(s.drop_first(), c, i - 1);
    }
}

pub proof fn lemma_index_of_char_absent(s: Seq<char>, c: char)
    requires
        forall|j: int| 0 <= j < s.len() ==> s[j] != c,
    ensures
        index_of_char(s, c) == -1,
    decreases s.len(),
{
    if s.len() > 0 {
        assert(forall|j: int| 0 <= j < s.len() - 1 ==> #[trigger] s.drop_first()[j] == s[j + 1]);
        lemma_index_of_char_absent(s.drop_first(), c);
    }
}

/// The first occurrence index stays inside the string.
pub proof fn lemma_index_of_char_range(s: Seq<char>, c: char)
    ensures
        -1 <= index_of_char(s, c) < s.len() || (s.len() == 0 && index_of_char(s, c) == -1),
    decreases s.len(),
{
    if s.len() > 0 {
        lemma_index_of_char_range(s.drop_first(), c);
    }
}

/// The segments of `s` between occurrences of the separator `sep`; always
/// at least one segment, and empty segments are kept.
pub open spec fn split_chars(s: Seq<char>, sep: char) -> Seq<Seq<char>>
    decreases s.len(),
    via split_chars_decreases
{
    let i = index_of_char(s, sep);
    if i < 0 {
        seq![s]
    } else {
        seq![s.take(i)] + split_chars(s.skip(i + 1), sep)
    }
}

#[via_fn]
proof fn split_chars_decreases(s: Seq<char>, sep: char) {
    lemma_index_of_char_range(s, sep);
}

/// A split has at least one segment.
pub proof fn lemma_split_chars_len(s: Seq<char>, sep: char)
    ensures
        split_chars(s, sep).len() >= 1,
{
}

/// The index of the first occurrence of `sep` in `s`, or the length of `s`
/// when it does not occur.
pub(crate) fn find_char(s: &str, sep: char) -> (r: usize)
    ensures
        r <= s@.len(),
        r < s@.len() ==> index_of_char(s@, sep) == r,
        r == s@.len() ==> index_of_char(s@, sep) == -1,
{
    let n = s.unicode_len();
    let mut i: usize = 0;
    while i < n
        invariant
            0 <= i <= n,
            n == s@.len(),
            forall|j: int| 0 <= j < i ==> s@[j] != sep,
        decreases n - i,
    {
        if s.get_char(i) == sep {
            proof {
                lemma_index_of_char_at(s@, sep, i as int);
            }
            return i;
        }
        i = i + 1;
    }
    proof {
        lemma_index_of_char_absent(s@, sep);
    }
    n
}

/// Splits `s` at every occurrence of `sep`.
pub fn split_string(s: &str, sep: char) -> (r: Vec<String>)
    ensures
        r@.len() == split_chars(s@, sep).len(),
        forall|i: int| 0 <= i < r@.len() ==> (#[trigger] r@[i])@ == split_chars(s@, sep)[i],
    decreases s@.len(),
{
    let n = s.unicode_len();
    let i = find_char(s, sep);
    if i == n {
        let mut out: Vec<String> = Vec::new();
        out.push(s.to_owned());
        proof {
            assert(s@.take(n as int) =~= s@);
        }
        return out;
    }
    let head = s.substring_char(0, i).to_owned();
    let tail = s.substring_char(i + 1, n);
    let mut out = split_string(tail, sep);
    out.insert(0, head);
    proof {
        let sp = split_chars(s@, sep);
        assert(tail@ =~= s@.skip(i + 1));
        assert(sp == seq![s@.take(i as int)] + split_chars(s@.skip(i + 1), sep));
        assert(forall|k: int| 0 <= k < out@.len() ==> (#[trigger] out@[k])@ == sp[k]);
    }
    out
}

} // verus!
