//! HTTP messages as the adapter shell sees them: methods, a header map
//! with case-folded names, requests, and responses with their wire bytes.

use vstd::prelude::*;
use vstd::utf8::encode_utf8;

use crate::strutil::{nat_str, split_chars, split_string, str_eq, u64_string};
use crate::value::Value;

verus! {

/// The request methods the shell accepts.
#[derive(Clone, Copy, PartialEq, Eq, Structural, Debug)]
pub enum HttpOption {
    GET,
    POST,
    PUT,
    DELETE,
}

/// The method named by `s`, if it is one of the accepted four.
pub open spec fn http_method_of(s: Seq<char>) -> Option<HttpOption> {
    if s == "GET"@ {
        Some(HttpOption::GET)
    } else if s == "POST"@ {
        Some(HttpOption::POST)
    } else if s == "PUT"@ {
        Some(HttpOption::PUT)
    } else if s == "DELETE"@ {
        Some(HttpOption::DELETE)
    } else {
        None
    }
}

/// The canonical spelling of a method.
pub open spec fn http_method_text(m: HttpOption) -> Seq<char> {
    match m {
        HttpOption::GET => "GET"@,
        HttpOption::POST => "POST"@,
        HttpOption::PUT => "PUT"@,
        HttpOption::DELETE => "DELETE"@,
    }
}

impl HttpOption {
    /// Parses a method name.
    pub fn from_str(s: &str) -> (r: Result<HttpOption, ()>)
        ensures
            match http_method_of(s@) {
                Some(m) => r == Result::<HttpOption, ()>::Ok(m),
                None => r is Err,
            },
    {
        if str_eq(s, "GET") {
            Ok(HttpOption::GET)
        } else if str_eq(s, "POST") {
            Ok(HttpOption::POST)
        } else if str_eq(s, "PUT") {
            Ok(HttpOption::PUT)
        } else if str_eq(s, "DELETE") {
            Ok(HttpOption::DELETE)
        } else {
            Err(())
        }
    }

    /// The canonical spelling of this method.
    pub fn to_string(&self) -> (r: String)
        ensures
            r@ == http_method_text(*self),
    {
        match self {
            HttpOption::GET => "GET".to_owned(),
            HttpOption::POST => "POST".to_owned(),
            HttpOption::PUT => "PUT".to_owned(),
            HttpOption::DELETE => "DELETE".to_owned(),
        }
    }
}

/// The value under `key` in an association list, at the first entry
/// carrying that key.
pub open spec fn hm_lookup(fields: Seq<(String, String)>, key: Seq<char>) -> Option<Seq<char>>
    decreases fields.len(),
{
    if fields.len() == 0 {
        None
    } else if fields.first().0@ == key {
        Some(fields.first().1@)
    } else {
        hm_lookup(fields.drop_first(), key)
    }
}

pub proof fn lemma_hm_lookup_at(fields: Seq<(String, String)>, key: Seq<char>, j: int)
    requires
        0 <= j < fields.len(),
        fields[j].0@ == key,
        forall|jj: int| 0 <= jj < j ==> (#[trigger] fields[jj]).0@ != key,
    ensures
        hm_lookup(fields, key) == Some(fields[j].1@),
    decreases fields.len(),
{
    if j == 0 {
        assert(fields[0] == fields.first());
    } else {
        assert(fields[0].0@ != key);
        assert(forall|jj: int|
            0 <= jj < j - 1 ==> #[trigger] fields.drop_first()[jj] == fields[jj + 1]);
        lemma_hm_lookup_at(fields.drop_first(), key, j - 1);
    }
}

pub proof fn lemma_hm_lookup_absent(fields: Seq<(String, String)>, key: Seq<char>)
    requires
        forall|jj: int| 0 <= jj < fields.len() ==> (#[trigger] fields[jj]).0@ != key,
    ensures
        hm_lookup(fields, key) is None,
    decreases fields.len(),
{
    if fields.len() > 0 {
        assert(fields[0].0@ != key);
        assert(forall|jj: int|
            0 <= jj < fields.len() - 1 ==> #[trigger] fields.drop_first()[jj] == fields[jj + 1]);
        lemma_hm_lookup_absent(fields.drop_first(), key);
    }
}

/// Looks `key` up in an association list.
pub fn assoc_get<'a>(fields: &'a Vec<(String, String)>, key: &str) -> (r: Option<&'a String>)
    ensures
        match hm_lookup(fields@, key@) {
            Some(v) => r is Some && r->Some_0@ == v,
            None => r is None,
        },
{
    let mut j: usize = 0;
    while j < fields.len()
        invariant
            0 <= j <= fields@.len(),
            forall|jj: int| 0 <= jj < j ==> (#[trigger] fields@[jj]).0@ != key@,
        decreases fields@.len() - j,
    {
        if str_eq(fields[j].0.as_str(), key) {
            proof {
                lemma_hm_lookup_at(fields@, key@, j as int);
            }
            return Some(&fields[j].1);
        }
        j = j + 1;
    }
    proof {
        lemma_hm_lookup_absent(fields@, key@);
    }
    None
}

/// Binds `key` to `value` in an association list: replaces the first entry
/// carrying the key, or appends a new one. Every other key keeps its value.
pub fn assoc_set(fields: &mut Vec<(String, String)>, key: String, value: String)
    ensures
        hm_lookup(final(fields)@, key@) == Some(value@),
        forall|k2: Seq<char>|
            k2 != key@ ==> #[trigger] hm_lookup(final(fields)@, k2) == hm_lookup(old(fields)@, k2),
        assoc_keys_unique(old(fields)@) ==> assoc_keys_unique(final(fields)@),
{
    let ghost orig = fields@;
    let mut j: usize = 0;
    while j < fields.len()
        invariant
            0 <= j <= fields@.len(),
            fields@ == orig,
            orig == old(fields)@,
            forall|jj: int| 0 <= jj < j ==> (#[trigger] fields@[jj]).0@ != key@,
        decreases fields@.len() - j,
    {
        if str_eq(fields[j].0.as_str(), key.as_str()) {
            let ghost pre = fields@;
            let old_pair = fields.remove(j);
            fields.insert(j, (old_pair.0, value));
            proof {
                assert(fields@ =~= pre.update(j as int, (pre[j as int].0, value)));
                assert(fields@.len() == pre.len());
                assert(forall|i: int|
                    0 <= i < pre.len() && i != j ==> #[trigger] fields@[i] == pre[i]);
                assert(fields@[j as int].0@ == key@);
                lemma_hm_lookup_at(fields@, key@, j as int);
                assert forall|k2: Seq<char>| k2 != key@ implies #[trigger] hm_lookup(fields@, k2)
                    == hm_lookup(orig, k2) by {
                    lemma_hm_lookup_update(orig, fields@, j as int, k2);
                }
                assert(forall|i: int|
                    0 <= i < fields@.len() ==> (#[trigger] fields@[i]).0@ == orig[i].0@);
            }
            return ;
        }
        j = j + 1;
    }
    let ghost pre = fields@;
    fields.push((key, value));
    proof {
        assert(forall|jj: int| 0 <= jj < pre.len() ==> (#[trigger] fields@[jj]) == pre[jj]);
        assert(fields@[pre.len() as int].0@ == key@);
        assert(forall|jj: int| 0 <= jj < pre.len() ==> (#[trigger] fields@[jj]).0@ != key@);
        lemma_hm_lookup_at(fields@, key@, pre.len() as int);
        assert forall|k2: Seq<char>| k2 != key@ implies #[trigger] hm_lookup(fields@, k2)
            == hm_lookup(pre, k2) by {
            lemma_hm_lookup_snoc(pre, fields@, k2);
        }
    }
}

proof fn lemma_hm_lookup_update(
    orig: Seq<(String, String)>,
    upd: Seq<(String, String)>,
    j: int,
    k2: Seq<char>,
)
    requires
        0 <= j < orig.len(),
        upd.len() == orig.len(),
        forall|i: int| 0 <= i < orig.len() && i != j ==> #[trigger] upd[i] == orig[i],
        upd[j].0@ == orig[j].0@,
        k2 != orig[j].0@,
    ensures
        hm_lookup(upd, k2) == hm_lookup(orig, k2),
    decreases orig.len(),
{
    if orig.len() > 0 {
        if j == 0 {
            assert(upd.first().0@ == orig.first().0@);
            if orig.first().0@ != k2 {
                assert(forall|i: int|
                    0 <= i < orig.len() - 1 ==> #[trigger] upd.drop_first()[i]
                        == orig.drop_first()[i]);
                assert(upd.drop_first() =~= orig.drop_first());
            }
        } else {
            assert(upd.first() == orig.first());
            assert(forall|i: int|
                0 <= i < orig.len() - 1 && i != j - 1 ==> #[trigger] upd.drop_first()[i]
                    == orig.drop_first()[i]);
            assert(upd.drop_first()[j - 1].0@ == orig.drop_first()[j - 1].0@);
            lemma_hm_lookup_update(orig.drop_first(), upd.drop_first(), j - 1, k2);
        }
    }
}

proof fn lemma_hm_lookup_snoc(pre: Seq<(String, String)>, ext: Seq<(String, String)>, k2: Seq<char>)
    requires
        ext.len() == pre.len() + 1,
        forall|i: int| 0 <= i < pre.len() ==> #[trigger] ext[i] == pre[i],
        k2 != ext[pre.len() as int].0@,
    ensures
        hm_lookup(ext, k2) == hm_lookup(pre, k2),
    decreases pre.len(),
{
    if pre.len() == 0 {
        assert(ext.first().0@ != k2);
        assert(ext.drop_first() =~= Seq::<(String, String)>::empty());
    } else {
        assert(ext.first() == pre.first());
        assert(forall|i: int|
            0 <= i < pre.len() - 1 ==> #[trigger] ext.drop_first()[i] == pre.drop_first()[i]);
        assert(ext.drop_first()[pre.len() - 1] == ext[pre.len() as int]);
        lemma_hm_lookup_snoc(pre.drop_first(), ext.drop_first(), k2);
    }
}

/// A header map: names and values case-folded at insertion from raw lines.
#[derive(Debug)]
pub struct HeaderMap {
    pub fields: Vec<(String, String)>,
}

/// The index of the first `": "` in `s`, or -1 when there is none.
pub open spec fn find_sep(s: Seq<char>) -> int
    decreases s.len(),
{
    if s.len() < 2 {
        -1
    } else if s[0] == ':' && s[1] == ' ' {
        0
    } else {
        let r = find_sep(s.drop_first());
        if r < 0 {
            -1
        } else {
            1 + r
        }
    }
}

proof fn lemma_find_sep_at(s: Seq<char>, j: int)
    requires
        0 <= j < s.len() - 1,
        s[j] == ':' && s[j + 1] == ' ',
        forall|i: int| 0 <= i < j ==> !((#[trigger] s[i]) == ':' && s[i + 1] == ' '),
    ensures
        find_sep(s) == j,
    decreases s.len(),
{
    if j > 0 {
        assert(forall|i: int| 0 <= i < s.len() - 1 ==> #[trigger] s.drop_first()[i] == s[i + 1]);
        assert forall|i: int|
            0 <= i < j - 1 implies !((#[trigger] s.drop_first()[i]) == ':' && s.drop_first()[i + 1] == ' ') by {
            assert(s.drop_first()[i] == s[i + 1]);
            assert(s.drop_first()[i + 1] == s[i + 2]);
            assert(!(s[i + 1] == ':' && s[i + 2] == ' '));
        }
        lemma_find_sep_at(s.drop_first(), j - 1);
    }
}

proof fn lemma_find_sep_absent(s: Seq<char>)
    requires
        forall|i: int| 0 <= i < s.len() - 1 ==> !((#[trigger] s[i]) == ':' && s[i + 1] == ' '),
    ensures
        find_sep(s) == -1,
    decreases s.len(),
{
    if s.len() >= 2 {
        assert(forall|i: int| 0 <= i < s.len() - 1 ==> #[trigger] s.drop_first()[i] == s[i + 1]);
        assert forall|i: int|
            0 <= i < s.len() - 2 implies !((#[trigger] s.drop_first()[i]) == ':'
                && s.drop_first()[i + 1] == ' ') by {
            assert(s.drop_first()[i] == s[i + 1]);
            assert(s.drop_first()[i + 1] == s[i + 2]);
            assert(!(s[i + 1] == ':' && s[i + 2] == ' '));
        }
        assert(!(s[0] == ':' && s[1] == ' '));
        lemma_find_sep_absent(s.drop_first());
    }
}

pub uninterp spec fn lower_of(s: Seq<char>) -> Seq<char>;

/// Relies on str::to_lowercase: the folded text depends on the characters
/// alone.
#[verifier::external_body]
fn to_lowercase(s: &str) -> (r: String)
    ensures
        r@ == lower_of(s@),
{
    s.to_lowercase()
}

/// The header entry one raw line contributes: the text before the first
/// `": "` and the text between the first and second, both case-folded;
/// nothing when the line has no separator.
pub open spec fn header_entry(line: Seq<char>) -> Option<(Seq<char>, Seq<char>)> {
    let i = find_sep(line);
    if i < 0 {
        None
    } else {
        let rest = line.skip(i + 2);
        let j = find_sep(rest);
        let raw = if j < 0 {
            rest
        } else {
            rest.take(j)
        };
        Some((lower_of(line.take(i)), lower_of(raw)))
    }
}

/// The header map that a list of raw lines builds up, later lines
/// overriding earlier ones.
pub open spec fn headers_of(lines: Seq<Seq<char>>) -> Map<Seq<char>, Seq<char>>
    decreases lines.len(),
{
    if lines.len() == 0 {
        Map::empty()
    } else {
        let m = headers_of(lines.drop_last());
        match header_entry(lines.last()) {
            Some((k, v)) => m.insert(k, v),
            None => m,
        }
    }
}

/// The map an association list denotes.
pub open spec fn hm_map(fields: Seq<(String, String)>) -> Map<Seq<char>, Seq<char>> {
    Map::new(
        |k: Seq<char>| hm_lookup(fields, k) is Some,
        |k: Seq<char>| hm_lookup(fields, k)->Some_0,
    )
}

/// The index of the first `": "` in `s`, or its length when there is none.
fn find_sep_str(s: &str) -> (r: usize)
    ensures
        r < s@.len() ==> find_sep(s@) == r && r + 2 <= s@.len(),
        r == s@.len() ==> find_sep(s@) == -1,
        r <= s@.len(),
{
    let n = s.unicode_len();
    if n < 2 {
        proof {
            if n == 1 {
                assert(forall|i: int|
                0 <= i < s@.len() - 1 ==> !((#[trigger] s@[i]) == ':' && s@[i + 1] == ' '));
            }
            lemma_find_sep_absent(s@);
        }
        return n;
    }
    let mut i: usize = 0;
    while i < n - 1
        invariant
            0 <= i <= n - 1,
            n == s@.len(),
            n >= 2,
            forall|j: int| 0 <= j < i ==> !((#[trigger] s@[j]) == ':' && s@[j + 1] == ' '),
        decreases n - i,
    {
        if s.get_char(i) == ':' && s.get_char(i + 1) == ' ' {
            proof {
                lemma_find_sep_at(s@, i as int);
            }
            return i;
        }
        i = i + 1;
    }
    proof {
        lemma_find_sep_absent(s@);
    }
    n
}

impl HeaderMap {
    /// An empty header map.
    pub fn new() -> (r: HeaderMap)
        ensures
            r.fields@.len() == 0,
            hm_map(r.fields@) =~= Map::<Seq<char>, Seq<char>>::empty(),
    {
        let r = HeaderMap { fields: Vec::new() };
        proof {
            assert forall|k: Seq<char>| !(#[trigger] hm_lookup(r.fields@, k) is Some) by {}
        }
        r
    }

    /// Binds a header name to a value, replacing any earlier binding.
    pub fn add(&mut self, key: String, value: String)
        ensures
            hm_map(final(self).fields@) =~= hm_map(old(self).fields@).insert(key@, value@),
    {
        assoc_set(&mut self.fields, key, value);
    }

    /// The value bound to a header name.
    pub fn get(&self, key: &str) -> (r: Option<&String>)
        ensures
            match r {
                Some(v) => hm_map(self.fields@).contains_key(key@) && hm_map(self.fields@)[key@]
                    == v@,
                None => !hm_map(self.fields@).contains_key(key@),
            },
    {
        assoc_get(&self.fields, key)
    }

    /// Builds a header map from raw `name: value` lines; names and values
    /// are case-folded, lines without a separator are dropped.
    pub fn from_vec(header: Vec<String>) -> (r: HeaderMap)
        ensures
            hm_map(r.fields@) =~= headers_of(header@.map_values(|t: String| t@)),
    {
        let ghost lines = header@.map_values(|t: String| t@);
        let mut header_map = HeaderMap::new();
        let mut i: usize = 0;
        proof {
            assert(lines.take(0) =~= Seq::<Seq<char>>::empty());
        }
        while i < header.len()
            invariant
                0 <= i <= header@.len(),
                lines == header@.map_values(|t: String| t@),
                lines.len() == header@.len(),
                hm_map(header_map.fields@) =~= headers_of(lines.take(i as int)),
            decreases header@.len() - i,
        {
            let param = &header[i];
            let n = param.as_str().unicode_len();
            let sep = find_sep_str(param.as_str());
            proof {
                assert(lines[i as int] == header@[i as int]@);
            }
            if sep < n {
                let key_raw = param.as_str().substring_char(0, sep);
                let rest = param.as_str().substring_char(sep + 2, n);
                let rest_n = rest.unicode_len();
                let sep2 = find_sep_str(rest);
                let value_raw = if sep2 < rest_n {
                    rest.substring_char(0, sep2)
                } else {
                    rest
                };
                let key = to_lowercase(key_raw);
                let value = to_lowercase(value_raw);
                proof {
                    assert(rest@ =~= lines[i as int].skip(sep + 2));
                    assert(header_entry(lines[i as int]) == Some((key@, value@)));
                }
                header_map.add(key, value);
                proof {
                    assert(lines.take(i + 1).drop_last() =~= lines.take(i as int));
                    assert(lines.take(i + 1).last() == lines[i as int]);
                    assert(hm_map(header_map.fields@) =~= headers_of(lines.take(i + 1)));
                }
            } else {
                proof {
                    assert(header_entry(lines[i as int]) is None);
                    assert(lines.take(i + 1).drop_last() =~= lines.take(i as int));
                    assert(lines.take(i + 1).last() == lines[i as int]);
                    assert(hm_map(header_map.fields@) =~= headers_of(lines.take(i + 1)));
                }
            }
            i = i + 1;
        }
        proof {
            assert(lines.take(lines.len() as int) =~= lines);
        }
        header_map
    }
}

/// One parsed request: the line tokens, the case-folded headers, and the
/// body assembled outside.
#[derive(Debug)]
pub struct HttpRequest {
    pub method: HttpOption,
    pub path: String,
    pub version: String,
    pub host: String,
    pub headers: HeaderMap,
    pub body: Option<Value>,
}

} // verus!

verus! {

/// The standard reason phrase for a status code, or a fallback.
pub open spec fn status_text_of(code: int) -> Seq<char> {
    if code == 100 { "Continue"@ }
    else if code == 101 { "Switching Protocols"@ }
    else if code == 200 { "OK"@ }
    else if code == 201 { "Created"@ }
    else if code == 202 { "Accepted"@ }
    else if code == 204 { "No Content"@ }
    else if code == 400 { "Bad Request"@ }
    else if code == 401 { "Unauthorized"@ }
    else if code == 403 { "Forbidden"@ }
    else if code == 404 { "Not Found"@ }
    else if code == 405 { "Method Not Allowed"@ }
    else if code == 409 { "Conflict"@ }
    else if code == 410 { "Gone"@ }
    else if code == 422 { "Unprocessable Entity"@ }
    else if code == 429 { "Too Many Requests"@ }
    else if code == 500 { "Internal Server Error"@ }
    else if code == 501 { "Not Implemented"@ }
    else if code == 502 { "Bad Gateway"@ }
    else if code == 503 { "Service Unavailable"@ }
    else if code == 504 { "Gateway Timeout"@ }
    else { "Unknown Status"@ }
}

/// The standard reason phrase for a status code.
pub fn status_text(status_code: u16) -> (r: &'static str)
    ensures
        r@ == status_text_of(status_code as int),
{
    match status_code {
        100 => "Continue",
        101 => "Switching Protocols",
        200 => "OK",
        201 => "Created",
        202 => "Accepted",
        204 => "No Content",
        400 => "Bad Request",
        401 => "Unauthorized",
        403 => "Forbidden",
        404 => "Not Found",
        405 => "Method Not Allowed",
        409 => "Conflict",
        410 => "Gone",
        422 => "Unprocessable Entity",
        429 => "Too Many Requests",
        500 => "Internal Server Error",
        501 => "Not Implemented",
        502 => "Bad Gateway",
        503 => "Service Unavailable",
        504 => "Gateway Timeout",
        _ => "Unknown Status",
    }
}

/// The body of an error response: a one-field JSON object carrying the
/// error text, JSON-escaped.
pub open spec fn err_body_bytes(e: Seq<char>) -> Seq<u8> {
    encode_utf8("{\"error\":\""@ + crate::violation::json_escape(e) + "\"}"@)
}

/// The header lines of a response, in header order.
pub open spec fn headers_text(fields: Seq<(String, String)>) -> Seq<char>
    decreases fields.len(),
{
    if fields.len() == 0 {
        Seq::empty()
    } else {
        fields.first().0@ + ": "@ + fields.first().1@ + "\r\n"@ + headers_text(fields.drop_first())
    }
}

proof fn lemma_headers_text_push(fields: Seq<(String, String)>, x: (String, String))
    ensures
        headers_text(fields.push(x)) == headers_text(fields) + x.0@ + ": "@ + x.1@ + "\r\n"@,
    decreases fields.len(),
{
    if fields.len() == 0 {
        assert(fields.push(x).first() == x);
        assert(fields.push(x).drop_first() =~= Seq::<(String, String)>::empty());
        assert(headers_text(fields.push(x)) == x.0@ + ": "@ + x.1@ + "\r\n"@ + headers_text(
            Seq::<(String, String)>::empty(),
        ));
        assert(headers_text(fields.push(x)) =~= headers_text(fields) + x.0@ + ": "@ + x.1@
            + "\r\n"@);
    } else {
        assert(fields.push(x).first() == fields.first());
        assert(fields.push(x).drop_first() =~= fields.drop_first().push(x));
        lemma_headers_text_push(fields.drop_first(), x);
        assert(headers_text(fields.push(x)) == fields.first().0@ + ": "@ + fields.first().1@
            + "\r\n"@ + headers_text(fields.drop_first().push(x)));
        assert(headers_text(fields.push(x)) =~= headers_text(fields) + x.0@ + ": "@ + x.1@
            + "\r\n"@);
    }
}

/// The head of the response on the wire: the status line, every header
/// line, and the blank line.
pub open spec fn response_head_text(code: int, fields: Seq<(String, String)>) -> Seq<char> {
    "HTTP/1.1 "@ + nat_str((code as nat)) + " "@ + status_text_of(code) + "\r\n"@ + headers_text(
        fields,
    ) + "\r\n"@
}

/// A response: status, headers, and raw body bytes.
#[derive(Debug)]
pub struct HttpResponse {
    pub status_code: u16,
    pub headers: Vec<(String, String)>,
    pub body: Vec<u8>,
}

impl HttpResponse {
    /// A response assembled from its parts.
    pub fn new(status_code: u16, headers: Vec<(String, String)>, body: Vec<u8>) -> (r:
        HttpResponse)
        ensures
            r.status_code == status_code,
            r.headers == headers,
            r.body == body,
    {
        HttpResponse { status_code, headers, body }
    }

    /// The response on the wire: status line, header lines, a blank line,
    /// then the body.
    pub fn to_bytes(&self) -> (r: Vec<u8>)
        ensures
            r@ == encode_utf8(response_head_text(self.status_code as int, self.headers@))
                + self.body@,
    {
        let mut head = String::new();
        head.append("HTTP/1.1 ");
        crate::strutil::append_u64(&mut head, self.status_code as u64);
        head.append(" ");
        head.append(status_text(self.status_code));
        head.append("\r\n");
        let ghost status_part = head@;
        let mut i: usize = 0;
        proof {
            assert(self.headers@.take(0) =~= Seq::<(String, String)>::empty());
        }
        while i < self.headers.len()
            invariant
                0 <= i <= self.headers@.len(),
                head@ == status_part + headers_text(self.headers@.take(i as int)),
            decreases self.headers@.len() - i,
        {
            head.append(self.headers[i].0.as_str());
            head.append(": ");
            head.append(self.headers[i].1.as_str());
            head.append("\r\n");
            proof {
                assert(self.headers@.take(i + 1) =~= self.headers@.take(i as int).push(
                    self.headers@[i as int],
                ));
                lemma_headers_text_push(self.headers@.take(i as int), self.headers@[i as int]);
                assert(head@ =~= status_part + headers_text(self.headers@.take(i + 1)));
            }
            i = i + 1;
        }
        head.append("\r\n");
        proof {
            assert(self.headers@.take(self.headers@.len() as int) =~= self.headers@);
            assert(head@ =~= response_head_text(self.status_code as int, self.headers@));
        }
        let mut out = head.as_str().as_bytes_vec();
        let mut j: usize = 0;
        while j < self.body.len()
            invariant
                0 <= j <= self.body@.len(),
                out@ == encode_utf8(response_head_text(self.status_code as int, self.headers@))
                    + self.body@.take(j as int),
            decreases self.body@.len() - j,
        {
            out.push(self.body[j]);
            proof {
                assert(self.body@.take(j + 1) =~= self.body@.take(j as int).push(
                    self.body@[j as int],
                ));
                assert(out@ =~= encode_utf8(
                    response_head_text(self.status_code as int, self.headers@),
                ) + self.body@.take(j + 1));
            }
            j = j + 1;
        }
        proof {
            assert(self.body@.take(self.body@.len() as int) =~= self.body@);
        }
        out
    }

    /// Whether the status is a success.
    pub fn is_success(&self) -> (r: bool)
        ensures
            r == (200 <= self.status_code < 300),
    {
        self.status_code >= 200 && self.status_code < 300
    }

    /// Whether the status is a client error.
    pub fn is_client_error(&self) -> (r: bool)
        ensures
            r == (400 <= self.status_code < 500),
    {
        self.status_code >= 400 && self.status_code < 500
    }

    /// Whether the status is a server error.
    pub fn is_server_error(&self) -> (r: bool)
        ensures
            r == (500 <= self.status_code < 600),
    {
        self.status_code >= 500 && self.status_code < 600
    }
}

/// Headers completed for a body-bearing response: the content type
/// defaults to JSON when absent, and the content length is set.
pub open spec fn completed_headers(
    old_h: Seq<(String, String)>,
    new_h: Seq<(String, String)>,
    body_len: nat,
) -> bool {
    &&& hm_lookup(new_h, "Content-Length"@) == Some(nat_str(body_len))
    &&& (match hm_lookup(old_h, "Content-Type"@) {
        Some(ct) => hm_lookup(new_h, "Content-Type"@) == Some(ct),
        None => hm_lookup(new_h, "Content-Type"@) == Some("application/json"@),
    })
    &&& forall|k2: Seq<char>|
        k2 != "Content-Length"@ && k2 != "Content-Type"@ ==> #[trigger] hm_lookup(new_h, k2)
            == hm_lookup(old_h, k2)
}

fn complete_headers(headers: &mut Vec<(String, String)>, body_len: usize)
    ensures
        completed_headers(old(headers)@, final(headers)@, body_len as nat),
{
    let has_ct = match assoc_get(headers, "Content-Type") {
        Some(_) => true,
        None => false,
    };
    if !has_ct {
        assoc_set(headers, "Content-Type".to_owned(), "application/json".to_owned());
    }
    assoc_set(headers, "Content-Length".to_owned(), u64_string(body_len as u64));
    proof {
        reveal_strlit("Content-Type");
        reveal_strlit("Content-Length");
        assert("Content-Type"@.len() != "Content-Length"@.len());
        assert("Content-Type"@ != "Content-Length"@);
    }
}

impl HttpResponse {
    /// A 200 response with the given body.
    pub fn ok(body: Vec<u8>, headers: Vec<(String, String)>) -> (r: HttpResponse)
        ensures
            r.status_code == 200,
            r.body == body,
            completed_headers(headers@, r.headers@, body@.len()),
    {
        let mut headers = headers;
        complete_headers(&mut headers, body.len());
        HttpResponse { status_code: 200, headers, body }
    }

    /// A 201 response with the given body.
    pub fn created(body: Vec<u8>, headers: Vec<(String, String)>) -> (r: HttpResponse)
        ensures
            r.status_code == 201,
            r.body == body,
            completed_headers(headers@, r.headers@, body@.len()),
    {
        let mut headers = headers;
        complete_headers(&mut headers, body.len());
        HttpResponse { status_code: 201, headers, body }
    }

    /// A 202 response with the given body.
    pub fn accepted(body: Vec<u8>, headers: Vec<(String, String)>) -> (r: HttpResponse)
        ensures
            r.status_code == 202,
            r.body == body,
            completed_headers(headers@, r.headers@, body@.len()),
    {
        let mut headers = headers;
        complete_headers(&mut headers, body.len());
        HttpResponse { status_code: 202, headers, body }
    }

    /// A 204 response without a body.
    pub fn no_content(headers: Vec<(String, String)>) -> (r: HttpResponse)
        ensures
            r.status_code == 204,
            r.headers == headers,
            r.body@.len() == 0,
    {
        HttpResponse { status_code: 204, headers, body: Vec::new() }
    }
}

fn error_response(status_code: u16, error: String, headers: Vec<(String, String)>) -> (r:
    HttpResponse)
    ensures
        r.status_code == status_code,
        r.body@ == err_body_bytes(error@),
        completed_headers(headers@, r.headers@, err_body_bytes(error@).len()),
{
    let mut text = String::new();
    text.append("{\"error\":\"");
    crate::violation::append_escaped(&mut text, error.as_str());
    text.append("\"}");
    proof {
        assert(text@ =~= "{\"error\":\""@ + crate::violation::json_escape(error@) + "\"}"@);
    }
    let body = text.as_str().as_bytes_vec();
    let mut headers = headers;
    complete_headers(&mut headers, body.len());
    HttpResponse { status_code, headers, body }
}

impl HttpResponse {
    /// A 400 response wrapping the error text.
    pub fn bad_request(error: String, headers: Vec<(String, String)>) -> (r: HttpResponse)
        ensures
            r.status_code == 400,
            r.body@ == err_body_bytes(error@),
            completed_headers(headers@, r.headers@, err_body_bytes(error@).len()),
    {
        error_response(400, error, headers)
    }

    /// A 401 response wrapping the error text.
    pub fn unauthorized(error: String, headers: Vec<(String, String)>) -> (r: HttpResponse)
        ensures
            r.status_code == 401,
            r.body@ == err_body_bytes(error@),
            completed_headers(headers@, r.headers@, err_body_bytes(error@).len()),
    {
        error_response(401, error, headers)
    }

    /// A 403 response wrapping the error text.
    pub fn forbidden(error: String, headers: Vec<(String, String)>) -> (r: HttpResponse)
        ensures
            r.status_code == 403,
            r.body@ == err_body_bytes(error@),
            completed_headers(headers@, r.headers@, err_body_bytes(error@).len()),
    {
        error_response(403, error, headers)
    }

    /// A 404 response wrapping the error text.
    pub fn not_found(error: String, headers: Vec<(String, String)>) -> (r: HttpResponse)
        ensures
            r.status_code == 404,
            r.body@ == err_body_bytes(error@),
            completed_headers(headers@, r.headers@, err_body_bytes(error@).len()),
    {
        error_response(404, error, headers)
    }

    /// A 405 response wrapping the error text.
    pub fn method_not_allowed(error: String, headers: Vec<(String, String)>) -> (r: HttpResponse)
        ensures
            r.status_code == 405,
            r.body@ == err_body_bytes(error@),
            completed_headers(headers@, r.headers@, err_body_bytes(error@).len()),
    {
        error_response(405, error, headers)
    }

    /// A 409 response wrapping the error text.
    pub fn conflict(error: String, headers: Vec<(String, String)>) -> (r: HttpResponse)
        ensures
            r.status_code == 409,
            r.body@ == err_body_bytes(error@),
            completed_headers(headers@, r.headers@, err_body_bytes(error@).len()),
    {
        error_response(409, error, headers)
    }

    /// A 410 response wrapping the error text.
    pub fn gone(error: String, headers: Vec<(String, String)>) -> (r: HttpResponse)
        ensures
            r.status_code == 410,
            r.body@ == err_body_bytes(error@),
            completed_headers(headers@, r.headers@, err_body_bytes(error@).len()),
    {
        error_response(410, error, headers)
    }

    /// A 422 response wrapping the error text.
    pub fn unprocessable_entity(error: String, headers: Vec<(String, String)>) -> (r: HttpResponse)
        ensures
            r.status_code == 422,
            r.body@ == err_body_bytes(error@),
            completed_headers(headers@, r.headers@, err_body_bytes(error@).len()),
    {
        error_response(422, error, headers)
    }

    /// A 429 response wrapping the error text.
    pub fn too_many_requests(error: String, headers: Vec<(String, String)>) -> (r: HttpResponse)
        ensures
            r.status_code == 429,
            r.body@ == err_body_bytes(error@),
            completed_headers(headers@, r.headers@, err_body_bytes(error@).len()),
    {
        error_response(429, error, headers)
    }

    /// A 500 response wrapping the error text.
    pub fn internal_server_error(error: String, headers: Vec<(String, String)>) -> (r:
        HttpResponse)
        ensures
            r.status_code == 500,
            r.body@ == err_body_bytes(error@),
            completed_headers(headers@, r.headers@, err_body_bytes(error@).len()),
    {
        error_response(500, error, headers)
    }

    /// A 501 response wrapping the error text.
    pub fn not_implemented(error: String, headers: Vec<(String, String)>) -> (r: HttpResponse)
        ensures
            r.status_code == 501,
            r.body@ == err_body_bytes(error@),
            completed_headers(headers@, r.headers@, err_body_bytes(error@).len()),
    {
        error_response(501, error, headers)
    }

    /// A 502 response wrapping the error text.
    pub fn bad_gateway(error: String, headers: Vec<(String, String)>) -> (r: HttpResponse)
        ensures
            r.status_code == 502,
            r.body@ == err_body_bytes(error@),
            completed_headers(headers@, r.headers@, err_body_bytes(error@).len()),
    {
        error_response(502, error, headers)
    }

    /// A 503 response wrapping the error text.
    pub fn service_unavailable(error: String, headers: Vec<(String, String)>) -> (r: HttpResponse)
        ensures
            r.status_code == 503,
            r.body@ == err_body_bytes(error@),
            completed_headers(headers@, r.headers@, err_body_bytes(error@).len()),
    {
        error_response(503, error, headers)
    }

    /// A 504 response wrapping the error text.
    pub fn gateway_timeout(error: String, headers: Vec<(String, String)>) -> (r: HttpResponse)
        ensures
            r.status_code == 504,
            r.body@ == err_body_bytes(error@),
            completed_headers(headers@, r.headers@, err_body_bytes(error@).len()),
    {
        error_response(504, error, headers)
    }
}

} // verus!

use crate::strutil::{find_char, index_of_char};
use crate::value::{
    field_views_of, keys_unique, lemma_field_views_of_index, rec_lookup, view_wf, vview, ValueView,
};

verus! {

/// What one `key=value` query part contributes: the text before the first
/// `=` and the text between the first and second; nothing without a `=`.
pub open spec fn query_entry(part: Seq<char>) -> Option<(Seq<char>, Seq<char>)> {
    let i = index_of_char(part, '=');
    if i < 0 {
        None
    } else {
        let rest = part.skip(i + 1);
        let j = index_of_char(rest, '=');
        let v = if j < 0 {
            rest
        } else {
            rest.take(j)
        };
        Some((part.take(i), v))
    }
}

/// The query parameters a list of `&`-separated parts builds up, later
/// parts overriding earlier ones.
pub open spec fn query_map(parts: Seq<Seq<char>>) -> Map<Seq<char>, Seq<char>>
    decreases parts.len(),
{
    if parts.len() == 0 {
        Map::empty()
    } else {
        let m = query_map(parts.drop_last());
        match query_entry(parts.last()) {
            Some((k, v)) => m.insert(k, v),
            None => m,
        }
    }
}

/// Mutually distinct keys in an association list.
pub open spec fn assoc_keys_unique(fields: Seq<(String, String)>) -> bool {
    forall|i: int, j: int|
        0 <= i < j < fields.len() ==> (#[trigger] fields[i]).0@ != (#[trigger] fields[j]).0@
}

/// The string-valued fields of a record, as a map.
pub open spec fn rec_str_map(fs: Seq<(Seq<char>, ValueView)>) -> Map<Seq<char>, Seq<char>> {
    Map::new(
        |k: Seq<char>| rec_lookup(fs, k) matches Some(ValueView::Str(_)),
        |k: Seq<char>| rec_lookup(fs, k)->Some_0->Str_0,
    )
}

/// Parses the `&`-separated query parameters into an association list with
/// distinct keys.
fn parse_query_pairs(query: &str) -> (r: Vec<(String, String)>)
    ensures
        hm_map(r@) =~= query_map(split_chars(query@, '&')),
        assoc_keys_unique(r@),
{
    let parts = split_string(query, '&');
    let ghost pv = split_chars(query@, '&');
    let mut acc: Vec<(String, String)> = Vec::new();
    let mut i: usize = 0;
    proof {
        assert(pv.take(0) =~= Seq::<Seq<char>>::empty());
        assert(hm_map(acc@) =~= query_map(pv.take(0)));
    }
    while i < parts.len()
        invariant
            0 <= i <= parts@.len(),
            parts@.len() == pv.len(),
            forall|k: int| 0 <= k < pv.len() ==> (#[trigger] parts@[k])@ == pv[k],
            hm_map(acc@) =~= query_map(pv.take(i as int)),
            assoc_keys_unique(acc@),
        decreases parts@.len() - i,
    {
        let part = &parts[i];
        let n = part.as_str().unicode_len();
        let eq = find_char(part.as_str(), '=');
        if eq < n {
            let key = part.as_str().substring_char(0, eq).to_owned();
            let rest = part.as_str().substring_char(eq + 1, n);
            let rn = rest.unicode_len();
            let eq2 = find_char(rest, '=');
            let value = if eq2 < rn {
                rest.substring_char(0, eq2).to_owned()
            } else {
                rest.to_owned()
            };
            proof {
                assert(rest@ =~= pv[i as int].skip(eq + 1));
                assert(query_entry(pv[i as int]) == Some((key@, value@)));
            }
            assoc_set(&mut acc, key, value);
            proof {
                assert(pv.take(i + 1).drop_last() =~= pv.take(i as int));
                assert(pv.take(i + 1).last() == pv[i as int]);
                assert(hm_map(acc@) =~= query_map(pv.take(i + 1)));
            }
        } else {
            proof {
                assert(query_entry(pv[i as int]) is None);
                assert(pv.take(i + 1).drop_last() =~= pv.take(i as int));
                assert(pv.take(i + 1).last() == pv[i as int]);
                assert(hm_map(acc@) =~= query_map(pv.take(i + 1)));
            }
        }
        i = i + 1;
    }
    proof {
        assert(pv.take(pv.len() as int) =~= pv);
    }
    acc
}


/// Builds the `query` record of a request from the text after `?`:
/// string-valued fields with distinct keys, or nothing when no parameter
/// parses.
fn query_struct_of(query: &str) -> (r: Option<Value>)
    ensures
        r matches Some(v) ==> view_wf(v@) && v is Struct,
{
    let pairs = parse_query_pairs(query);
    if pairs.len() > 0 {
        let mut qfields: Vec<(String, Value)> = Vec::new();
        let mut i: usize = 0;
        while i < pairs.len()
            invariant
                0 <= i <= pairs@.len(),
                qfields@.len() == i,
                assoc_keys_unique(pairs@),
                forall|k: int|
                    0 <= k < i ==> (#[trigger] qfields@[k]).0 == pairs@[k].0 && qfields@[k].1
                        == Value::String(pairs@[k].1),
            decreases pairs@.len() - i,
        {
            let k = pairs[i].0.clone();
            let v = pairs[i].1.clone();
            qfields.push((k, Value::String(v)));
            i = i + 1;
        }
        proof {
            lemma_field_views_of_index(qfields@);
            let fv = field_views_of(qfields@);
            assert forall|k: int| 0 <= k < fv.len() implies (#[trigger] fv[k]).1 is Str by {
                assert(qfields@[k].1 == Value::String(pairs@[k].1));
                assert(vview(qfields@[k].1) == ValueView::Str(pairs@[k].1@));
            }
            lemma_str_fields_wf(fv);
            assert forall|a: int, b: int|
                0 <= a < b < fv.len() implies (#[trigger] fv[a]).0 != (#[trigger] fv[b]).0 by {
                assert(fv[a].0 == qfields@[a].0@);
                assert(fv[b].0 == qfields@[b].0@);
                assert(qfields@[a].0@ == pairs@[a].0@);
                assert(qfields@[b].0@ == pairs@[b].0@);
            }
            assert(keys_unique(fv));
            assert(view_wf(vview(Value::Struct(qfields))));
        }
        Some(Value::Struct(qfields))
    } else {
        None
    }
}

/// Parses the raw request lines — the request line, then one line per
/// header — and assembles the request, attaching the externally decoded
/// body and the query parameters of the path under the `body` and `query`
/// fields of a fresh record.
/// A raw request is well-formed when it has a nonempty request line of at
/// least three space-separated tokens, a known method, and a host header.
pub open spec fn request_ok(lines: Seq<Seq<char>>) -> bool {
    &&& lines.len() >= 1
    &&& lines[0].len() > 0
    &&& split_chars(lines[0], ' ').len() >= 3
    &&& http_method_of(split_chars(lines[0], ' ')[0]) is Some
    &&& headers_of(lines.skip(1)).contains_key("host"@)
}

/// Whether the only defect of a raw request is an unknown method name.
pub open spec fn method_refused(lines: Seq<Seq<char>>) -> bool {
    &&& lines.len() >= 1
    &&& lines[0].len() > 0
    &&& split_chars(lines[0], ' ').len() >= 3
    &&& http_method_of(split_chars(lines[0], ' ')[0]) is None
}

pub fn parse_request(raw_http_request: Vec<String>, decoded_body: Option<Value>) -> (r: Result<
    HttpRequest,
    HttpResponse,
>)
    requires
        decoded_body matches Some(b) ==> view_wf(b@),
    ensures
        r is Ok <==> request_ok(raw_http_request@.map_values(|t: String| t@)),
        r matches Err(e) ==> e.status_code == (
        if method_refused(raw_http_request@.map_values(|t: String| t@)) {
            405int
        } else {
            400int
        }),
        r matches Ok(req) ==> {
            let tokens = split_chars(raw_http_request@[0]@, ' ');
            let hmap = headers_of(raw_http_request@.skip(1).map_values(|t: String| t@));
            &&& raw_http_request@.len() >= 1
            &&& tokens.len() >= 3
            &&& http_method_of(tokens[0]) == Some(req.method)
            &&& req.path@ == tokens[1]
            &&& req.version@ == tokens[2]
            &&& hm_map(req.headers.fields@) =~= hmap
            &&& hmap.contains_key("host"@) && req.host@ == hmap["host"@]
            &&& (match req.body {
                Some(b) => view_wf(b@),
                None => true,
            })
            &&& (decoded_body matches Some(b) ==> req.body matches Some(body) && rec_lookup(
                field_views_of(body->Struct_0@),
                "body"@,
            ) == Some(vview(b)))
            &&& (decoded_body is None && index_of_char(tokens[1], '?') < 0 ==> req.body is None)
        },
{
    let ghost lines = raw_http_request@.map_values(|t: String| t@);
    if raw_http_request.len() == 0 {
        return Err(HttpResponse::bad_request("Empty HTTP request line".to_owned(), Vec::new()));
    }
    let params = &raw_http_request[0];
    proof {
        assert(lines[0] == raw_http_request@[0]@);
    }
    let mut header_lines: Vec<String> = Vec::new();
    let mut h: usize = 1;
    while h < raw_http_request.len()
        invariant
            1 <= h <= raw_http_request@.len(),
            header_lines@.len() == h - 1,
            forall|k: int|
                0 <= k < h - 1 ==> (#[trigger] header_lines@[k])@ == raw_http_request@[k + 1]@,
        decreases raw_http_request@.len() - h,
    {
        header_lines.push(raw_http_request[h].clone());
        h = h + 1;
    }
    proof {
        assert(header_lines@.map_values(|t: String| t@) =~= raw_http_request@.skip(1).map_values(
            |t: String| t@,
        ));
    }
    let header_map = HeaderMap::from_vec(header_lines);
    proof {
        assert(lines.skip(1) =~= raw_http_request@.skip(1).map_values(|t: String| t@));
        assert(hm_map(header_map.fields@) =~= headers_of(lines.skip(1)));
    }
    if params.as_str().unicode_len() == 0 {
        return Err(HttpResponse::bad_request("Empty HTTP request line".to_owned(), Vec::new()));
    }
    let tokens = split_string(params.as_str(), ' ');
    let ghost tv = split_chars(params@, ' ');
    if tokens.len() < 2 {
        return Err(HttpResponse::bad_request("Missing request path".to_owned(), Vec::new()));
    }
    if tokens.len() < 3 {
        return Err(HttpResponse::bad_request("Missing HTTP version".to_owned(), Vec::new()));
    }
    let method = match HttpOption::from_str(tokens[0].as_str()) {
        Ok(m) => m,
        Err(_) => {
            let mut msg = String::new();
            msg.append("Unsupported HTTP method: ");
            msg.append(tokens[0].as_str());
            return Err(HttpResponse::method_not_allowed(msg, Vec::new()));
        },
    };
    let path = tokens[1].clone();
    let version = tokens[2].clone();
    let host = match header_map.get("host") {
        Some(hv) => hv.clone(),
        None => {
            return Err(HttpResponse::bad_request("Missing Host in Headers!".to_owned(), Vec::new()));
        },
    };
    let plen = path.as_str().unicode_len();
    let qpos = find_char(path.as_str(), '?');
    let query_struct: Option<Value> = if qpos < plen {
        let query = path.as_str().substring_char(qpos + 1, plen);
        query_struct_of(query)
    } else {
        None
    };
    let body: Option<Value> = match (decoded_body, query_struct) {
        (None, None) => None,
        (Some(b), None) => {
            let ghost bv = vview(b);
            let mut body_fields: Vec<(String, Value)> = Vec::new();
            body_fields.push(("body".to_owned(), b));
            proof {
                lemma_field_views_of_index(body_fields@);
                lemma_one_two_fields_wf(field_views_of(body_fields@));
                crate::value::lemma_rec_lookup_at(field_views_of(body_fields@), "body"@, 0);
            }
            Some(Value::Struct(body_fields))
        },
        (None, Some(q)) => {
            let mut body_fields: Vec<(String, Value)> = Vec::new();
            body_fields.push(("query".to_owned(), q));
            proof {
                lemma_field_views_of_index(body_fields@);
                lemma_one_two_fields_wf(field_views_of(body_fields@));
            }
            Some(Value::Struct(body_fields))
        },
        (Some(b), Some(q)) => {
            let ghost bv = vview(b);
            let ghost qv = vview(q);
            let mut body_fields: Vec<(String, Value)> = Vec::new();
            body_fields.push(("body".to_owned(), b));
            let ghost mid = body_fields@;
            body_fields.push(("query".to_owned(), q));
            proof {
                reveal_strlit("body");
                reveal_strlit("query");
                assert("body"@.len() != "query"@.len());
                assert(body_fields@.len() == 2);
                assert(body_fields@[0] == mid[0]);
                assert(body_fields@[0].0@ == "body"@);
                assert(body_fields@[1].0@ == "query"@);
                assert(vview(body_fields@[0].1) == bv);
                assert(vview(body_fields@[1].1) == qv);
                lemma_field_views_of_index(body_fields@);
                assert(field_views_of(body_fields@)[0].0 == "body"@);
                assert(field_views_of(body_fields@)[1].0 == "query"@);
                assert(view_wf(field_views_of(body_fields@)[0].1));
                assert(view_wf(field_views_of(body_fields@)[1].1));
                lemma_one_two_fields_wf(field_views_of(body_fields@));
                crate::value::lemma_rec_lookup_at(field_views_of(body_fields@), "body"@, 0);
            }
            Some(Value::Struct(body_fields))
        },
    };
    Ok(HttpRequest { method, path, version, host, headers: header_map, body })
}

/// Fields whose values are all strings make a well-formed record body.
proof fn lemma_str_fields_wf(fs: Seq<(Seq<char>, ValueView)>)
    requires
        forall|k: int| 0 <= k < fs.len() ==> (#[trigger] fs[k]).1 is Str,
    ensures
        crate::value::fields_wf(fs),
    decreases fs.len(),
{
    if fs.len() > 0 {
        assert(fs[0] == fs.first());
        assert(forall|k: int|
            0 <= k < fs.len() - 1 ==> (#[trigger] fs.drop_first()[k]) == fs[k + 1]);
        lemma_str_fields_wf(fs.drop_first());
        assert(view_wf(fs.first().1));
    }
}

/// One or two well-formed fields with distinct keys make a well-formed
/// record body.
proof fn lemma_one_two_fields_wf(fs: Seq<(Seq<char>, ValueView)>)
    requires
        1 <= fs.len() <= 2,
        forall|k: int| 0 <= k < fs.len() ==> view_wf((#[trigger] fs[k]).1),
        fs.len() == 2 ==> fs[0].0 != fs[1].0,
    ensures
        crate::value::fields_wf(fs),
        keys_unique(fs),
{
    assert(fs[0] == fs.first());
    assert(view_wf(fs.first().1));
    if fs.len() == 2 {
        assert(fs.drop_first()[0] == fs[1]);
        assert(fs.drop_first()[0] == fs.drop_first().first());
        assert(view_wf(fs.drop_first().first().1));
        assert(fs.drop_first().drop_first() =~= Seq::<(Seq<char>, ValueView)>::empty());
        assert(crate::value::fields_wf(fs.drop_first().drop_first()));
        assert(crate::value::fields_wf(fs.drop_first()));
    } else {
        assert(fs.drop_first() =~= Seq::<(Seq<char>, ValueView)>::empty());
        assert(crate::value::fields_wf(fs.drop_first()));
    }
}

} // verus!

use crate::path::find_field;
use crate::value::{lemma_views_of_index, views_of};

verus! {

/// The header entry one reply list element contributes: its `key` and
/// `value` string fields, when both are present and the value is nonempty.
pub open spec fn header_pair(e: ValueView) -> Option<(Seq<char>, Seq<char>)> {
    match e {
        ValueView::Rec(fs) => {
            match (rec_lookup(fs, "key"@), rec_lookup(fs, "value"@)) {
                (Some(ValueView::Str(k)), Some(ValueView::Str(v))) => if v.len() > 0 {
                    Some((k, v))
                } else {
                    None
                },
                _ => None,
            }
        },
        _ => None,
    }
}

/// The header pairs of a reply's header list, in order, with the elements
/// of any other shape dropped.
pub open spec fn header_pairs(es: Seq<ValueView>) -> Seq<(Seq<char>, Seq<char>)>
    decreases es.len(),
{
    if es.len() == 0 {
        Seq::empty()
    } else {
        match header_pair(es.first()) {
            Some(p) => seq![p] + header_pairs(es.drop_first()),
            None => header_pairs(es.drop_first()),
        }
    }
}

proof fn lemma_header_pairs_snoc(es: Seq<ValueView>, i: int)
    requires
        0 <= i < es.len(),
    ensures
        header_pairs(es.take(i + 1)) == header_pairs(es.take(i)) + (match header_pair(es[i]) {
            Some(p) => seq![p],
            None => Seq::empty(),
        }),
    decreases i,
{
    if i == 0 {
        assert(es.take(1).first() == es[0]);
        assert(es.take(1).drop_first() =~= Seq::<ValueView>::empty());
        assert(es.take(0) =~= Seq::<ValueView>::empty());
        assert(header_pairs(es.take(1)) =~= header_pairs(es.take(0)) + (match header_pair(es[0]) {
            Some(p) => seq![p],
            None => Seq::<(Seq<char>, Seq<char>)>::empty(),
        }));
    } else {
        lemma_header_pairs_snoc(es.drop_first(), i - 1);
        assert(es.take(i + 1).first() == es[0]);
        assert(es.take(i).first() == es[0]);
        assert(es.take(i + 1).drop_first() =~= es.drop_first().take(i));
        assert(es.take(i).drop_first() =~= es.drop_first().take(i - 1));
        assert(es.drop_first()[i - 1] == es[i]);
        assert(header_pairs(es.take(i + 1)) =~= header_pairs(es.take(i)) + (match header_pair(
            es[i],
        ) {
            Some(p) => seq![p],
            None => Seq::<(Seq<char>, Seq<char>)>::empty(),
        }));
    }
}

/// The shape a reply must have to become a response: a record with a
/// scale-zero status number in the status-code range, a header list, and a
/// payload.
pub open spec fn reply_shape_ok(v: ValueView) -> bool {
    &&& v is Rec
    &&& (rec_lookup(v->Rec_0, "status_code"@) matches Some(sc) && (sc matches ValueView::Num(
        m,
        scale,
    ) && (scale == 0 && 0 <= m <= 65535)))
    &&& rec_lookup(v->Rec_0, "payload"@) is Some
    &&& (rec_lookup(v->Rec_0, "headers"@) matches Some(h) && h is List)
}

/// Reads the executor's reply as HTTP response parts: the reply must be a
/// record of a numeric `status_code`, a `headers` list, and a `payload`;
/// the header entries become name-value pairs, in order. Exactly the
/// replies of that shape translate; everything else is refused.
pub fn response_parts_from_reply(reply: &Value) -> (r: Option<
    (u16, Vec<(String, String)>, &Value),
>)
    ensures
        r is Some <==> reply_shape_ok(reply@),
        r matches Some((code, hdrs, payload)) ==> {
            &&& reply@ is Rec
            &&& rec_lookup(reply@->Rec_0, "status_code"@) == Some(
                ValueView::Num(code as int, 0),
            )
            &&& rec_lookup(reply@->Rec_0, "payload"@) == Some(payload@)
            &&& (rec_lookup(reply@->Rec_0, "headers"@) matches Some(h) && h is List
                && hdrs@.map_values(|p: (String, String)| (p.0@, p.1@)) == header_pairs(
                h->List_0,
            ))
        },
{
    let fields = match reply {
        Value::Struct(fields) => fields,
        _ => {
            proof {
                crate::value::lemma_vview_variants(*reply);
            }
            return None;
        },
    };
    proof {
        assert(reply@ == ValueView::Rec(field_views_of(fields@)));
    }
    let code: u16 = match find_field(fields, "status_code") {
        Some(Value::Number(n)) => {
            if n.scale == 0 && n.mantissa >= 0 && n.mantissa <= 65535 {
                n.mantissa as u16
            } else {
                return None;
            }
        },
        Some(other) => {
            proof {
                crate::value::lemma_vview_variants(*other);
            }
            return None;
        },
        None => {
            return None;
        },
    };
    let payload = match find_field(fields, "payload") {
        Some(p) => p,
        None => {
            return None;
        },
    };
    let header_list = match find_field(fields, "headers") {
        Some(Value::List(items)) => items,
        Some(other) => {
            proof {
                crate::value::lemma_vview_variants(*other);
            }
            return None;
        },
        None => {
            return None;
        },
    };
    proof {
        lemma_views_of_index(header_list@);
    }
    let ghost es = views_of(header_list@);
    let mut hdrs: Vec<(String, String)> = Vec::new();
    let mut i: usize = 0;
    proof {
        assert(es.take(0) =~= Seq::<ValueView>::empty());
        assert(hdrs@.map_values(|p: (String, String)| (p.0@, p.1@)) =~= header_pairs(es.take(0)));
    }
    while i < header_list.len()
        invariant
            0 <= i <= header_list@.len(),
            es == views_of(header_list@),
            es.len() == header_list@.len(),
            forall|k: int| 0 <= k < header_list@.len() ==> es[k] == vview(#[trigger] header_list@[k]),
            hdrs@.map_values(|p: (String, String)| (p.0@, p.1@)) == header_pairs(es.take(i as int)),
        decreases header_list@.len() - i,
    {
        let entry = &header_list[i];
        proof {
            lemma_header_pairs_snoc(es, i as int);
        }
        match entry {
            Value::Struct(ef) => {
                proof {
                    assert(entry@ == ValueView::Rec(field_views_of(ef@)));
                }
                let kv = match find_field(ef, "key") {
                    Some(Value::String(k)) => Some(k),
                    _ => None,
                };
                let vv = match find_field(ef, "value") {
                    Some(Value::String(x)) => Some(x),
                    _ => None,
                };
                match (kv, vv) {
                    (Some(k), Some(x)) => {
                        if x.as_str().unicode_len() > 0 {
                            hdrs.push((k.clone(), x.clone()));
                            proof {
                                assert(header_pair(es[i as int]) == Some((k@, x@)));
                                assert(hdrs@.map_values(|p: (String, String)| (p.0@, p.1@))
                                    =~= header_pairs(es.take(i + 1)));
                            }
                        } else {
                            proof {
                                assert(header_pair(es[i as int]) is None);
                                assert(hdrs@.map_values(|p: (String, String)| (p.0@, p.1@))
                                    =~= header_pairs(es.take(i + 1)));
                            }
                        }
                    },
                    _ => {
                        proof {
                            assert(header_pair(es[i as int]) is None);
                            assert(hdrs@.map_values(|p: (String, String)| (p.0@, p.1@))
                                =~= header_pairs(es.take(i + 1)));
                        }
                    },
                }
            },
            _ => {
                proof {
                    crate::value::lemma_vview_variants(*entry);
                    assert(header_pair(es[i as int]) is None);
                    assert(hdrs@.map_values(|p: (String, String)| (p.0@, p.1@)) =~= header_pairs(
                        es.take(i + 1),
                    ));
                }
            },
        }
        i = i + 1;
    }
    proof {
        assert(es.take(es.len() as int) =~= es);
    }
    Some((code, hdrs, payload))
}

} // verus!
