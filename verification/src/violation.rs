//! The closed set of rule violations a validation run can report, and the
//! stable JSON shape the report serializes to.

use vstd::prelude::*;

use crate::strutil::{nat_str, push_char, append_u64};

verus! {

#[derive(Debug)]
pub struct MissingDataTypeRuleDefinition {
    pub missing_type: String,
}

#[derive(Debug)]
pub struct ContainsKeyRuleViolation {
    pub missing_key: String,
}

#[derive(Debug)]
pub struct RegexRuleViolation {
    pub missing_regex: String,
}

#[derive(Debug)]
pub struct RegexRuleTypeNotAcceptedViolation {
    pub type_not_accepted: String,
}

#[derive(Debug)]
pub struct DataTypeNotFoundRuleViolation {
    pub data_type: String,
}

#[derive(Debug)]
pub struct NumberInRangeRuleViolation {
    pub key: String,
}

#[derive(Debug)]
pub struct ItemOfCollectionRuleViolation {
    pub collection_name: String,
}

#[derive(Debug)]
pub struct InvalidFormatRuleViolation {
    pub expected_format: String,
    pub value: String,
}

#[derive(Debug)]
pub struct DataTypeIdentifierNotPresentRuleViolation {
    pub identifier: String,
}

#[derive(Debug)]
pub struct GenericKeyNotAllowedRuleViolation {
    pub key: String,
}

/// One rule failure.
#[derive(Debug)]
pub enum DataTypeRuleViolation {
    MissingDataType(MissingDataTypeRuleDefinition),
    ContainsKey(ContainsKeyRuleViolation),
    Regex(RegexRuleViolation),
    RegexTypeNotAccepted(RegexRuleTypeNotAcceptedViolation),
    DataTypeNotFound(DataTypeNotFoundRuleViolation),
    NumberInRange(NumberInRangeRuleViolation),
    ItemOfCollection(ItemOfCollectionRuleViolation),
    InvalidFormat(InvalidFormatRuleViolation),
    DataTypeIdentifierNotPresent(DataTypeIdentifierNotPresentRuleViolation),
    GenericKeyNotAllowed(GenericKeyNotAllowedRuleViolation),
}

/// The mathematical shape of one violation.
pub enum ViolationV {
    MissingDataType(Seq<char>),
    ContainsKey(Seq<char>),
    Regex(Seq<char>),
    RegexTypeNotAccepted(Seq<char>),
    DataTypeNotFound(Seq<char>),
    NumberInRange(Seq<char>),
    ItemOfCollection(Seq<char>),
    InvalidFormat(Seq<char>, Seq<char>),
    DataTypeIdentifierNotPresent(Seq<char>),
    GenericKeyNotAllowed(Seq<char>),
}

impl View for DataTypeRuleViolation {
    type V = ViolationV;

    open spec fn view(&self) -> ViolationV {
        match self {
            DataTypeRuleViolation::MissingDataType(v) => ViolationV::MissingDataType(
                v.missing_type@,
            ),
            DataTypeRuleViolation::ContainsKey(v) => ViolationV::ContainsKey(v.missing_key@),
            DataTypeRuleViolation::Regex(v) => ViolationV::Regex(v.missing_regex@),
            DataTypeRuleViolation::RegexTypeNotAccepted(v) => ViolationV::RegexTypeNotAccepted(
                v.type_not_accepted@,
            ),
            DataTypeRuleViolation::DataTypeNotFound(v) => ViolationV::DataTypeNotFound(
                v.data_type@,
            ),
            DataTypeRuleViolation::NumberInRange(v) => ViolationV::NumberInRange(v.key@),
            DataTypeRuleViolation::ItemOfCollection(v) => ViolationV::ItemOfCollection(
                v.collection_name@,
            ),
            DataTypeRuleViolation::InvalidFormat(v) => ViolationV::InvalidFormat(
                v.expected_format@,
                v.value@,
            ),
            DataTypeRuleViolation::DataTypeIdentifierNotPresent(v) => (
            ViolationV::DataTypeIdentifierNotPresent(v.identifier@)),
            DataTypeRuleViolation::GenericKeyNotAllowed(v) => ViolationV::GenericKeyNotAllowed(
                v.key@,
            ),
        }
    }
}

/// The views of a violation list, element by element.
pub open spec fn viol_views(s: Seq<DataTypeRuleViolation>) -> Seq<ViolationV>
    decreases s,
{
    if s.len() == 0 {
        Seq::empty()
    } else {
        seq![s[0]@] + viol_views(s.drop_first())
    }
}

pub proof fn lemma_viol_views_index(s: Seq<DataTypeRuleViolation>)
    ensures
        viol_views(s).len() == s.len(),
        forall|i: int| 0 <= i < s.len() ==> viol_views(s)[i] == (#[trigger] s[i])@,
    decreases s,
{
    if s.len() > 0 {
        lemma_viol_views_index(s.drop_first());
        assert(forall|i: int| 1 <= i < s.len() ==> s.drop_first()[i - 1] == #[trigger] s[i]);
        assert(forall|i: int|
            1 <= i < s.len() ==> #[trigger] viol_views(s)[i] == viol_views(s.drop_first())[i - 1]);
    }
}

/// An accumulated list of rule failures.
#[derive(Debug)]
pub struct DataTypeRuleError {
    pub violations: Vec<DataTypeRuleViolation>,
}

impl View for DataTypeRuleError {
    type V = Seq<ViolationV>;

    open spec fn view(&self) -> Seq<ViolationV> {
        viol_views(self.violations@)
    }
}

/// The hexadecimal digit character for `d`.
pub open spec fn hex_char(d: nat) -> char {
    if d < 10 {
        crate::strutil::digit_char(d)
    } else if d == 10 { 'a' }
    else if d == 11 { 'b' }
    else if d == 12 { 'c' }
    else if d == 13 { 'd' }
    else if d == 14 { 'e' }
    else { 'f' }
}

/// The JSON escape of one character: quotes and backslashes get a backslash,
/// common control characters their short form, other control characters a
/// `\u00XX` escape, and everything else stands as itself.
pub open spec fn esc_char(c: char) -> Seq<char> {
    if c == '"' {
        seq!['\\', '"']
    } else if c == '\\' {
        seq!['\\', '\\']
    } else if c == '\n' {
        seq!['\\', 'n']
    } else if c == '\r' {
        seq!['\\', 'r']
    } else if c == '\t' {
        seq!['\\', 't']
    } else if (c as nat) < 32 {
        seq!['\\', 'u', '0', '0', hex_char(c as nat / 16), hex_char(c as nat % 16)]
    } else {
        seq![c]
    }
}

/// The JSON escape of a string.
pub open spec fn json_escape(s: Seq<char>) -> Seq<char>
    decreases s.len(),
{
    if s.len() == 0 {
        Seq::empty()
    } else {
        esc_char(s[0]) + json_escape(s.drop_first())
    }
}

proof fn lemma_json_escape_snoc(s: Seq<char>, c: char)
    ensures
        json_escape(s.push(c)) == json_escape(s) + esc_char(c),
    decreases s.len(),
{
    if s.len() == 0 {
        assert(s.push(c)[0] == c);
        assert(s.push(c).drop_first() =~= s);
        assert(json_escape(s.push(c)) =~= json_escape(s) + esc_char(c));
    } else {
        assert(s.push(c).drop_first() =~= s.drop_first().push(c));
        lemma_json_escape_snoc(s.drop_first(), c);
        assert(json_escape(s.push(c)) =~= json_escape(s) + esc_char(c));
    }
}

fn hex_digit(d: u32) -> (c: char)
    requires
        d < 16,
    ensures
        c == hex_char(d as nat),
{
    if d == 0 { '0' }
    else if d == 1 { '1' }
    else if d == 2 { '2' }
    else if d == 3 { '3' }
    else if d == 4 { '4' }
    else if d == 5 { '5' }
    else if d == 6 { '6' }
    else if d == 7 { '7' }
    else if d == 8 { '8' }
    else if d == 9 { '9' }
    else if d == 10 { 'a' }
    else if d == 11 { 'b' }
    else if d == 12 { 'c' }
    else if d == 13 { 'd' }
    else if d == 14 { 'e' }
    else { 'f' }
}

/// Appends the JSON escape of `s` to `out`.
pub fn append_escaped(out: &mut String, s: &str)
    ensures
        final(out)@ == old(out)@ + json_escape(s@),
{
    let n = s.unicode_len();
    let mut i: usize = 0;
    while i < n
        invariant
            0 <= i <= n,
            n == s@.len(),
            out@ == old(out)@ + json_escape(s@.take(i as int)),
        decreases n - i,
    {
        let c = s.get_char(i);
        if c == '"' {
            push_char(out, '\\');
            push_char(out, '"');
        } else if c == '\\' {
            push_char(out, '\\');
            push_char(out, '\\');
        } else if c == '\n' {
            push_char(out, '\\');
            push_char(out, 'n');
        } else if c == '\r' {
            push_char(out, '\\');
            push_char(out, 'r');
        } else if c == '\t' {
            push_char(out, '\\');
            push_char(out, 't');
        } else if (c as u32) < 32 {
            push_char(out, '\\');
            push_char(out, 'u');
            push_char(out, '0');
            push_char(out, '0');
            push_char(out, hex_digit(c as u32 / 16));
            push_char(out, hex_digit(c as u32 % 16));
        } else {
            push_char(out, c);
        }
        proof {
            lemma_json_escape_snoc(s@.take(i as int), s@[i as int]);
            assert(s@.take(i as int).push(s@[i as int]) =~= s@.take(i + 1));
            assert(out@ =~= old(out)@ + json_escape(s@.take(i + 1)));
        }
        i = i + 1;
    }
    proof {
        assert(s@.take(n as int) =~= s@);
    }
}

/// The serialized JSON object for one violation: its kind, a sentence, and
/// the failing detail under a kind-specific name.
pub open spec fn viol_text(v: ViolationV) -> Seq<char> {
    match v {
        ViolationV::ContainsKey(k) => "{\"type\":\"ContainsKey\",\"explanation\":\"Missing required key: '"@
            + json_escape(k) + "'\",\"details\":{\"missing_key\":\""@ + json_escape(k) + "\"}}"@,
        ViolationV::Regex(p) => "{\"type\":\"Regex\",\"explanation\":\"Failed to match regex pattern: '"@
            + json_escape(p) + "'\",\"details\":{\"missing_regex\":\""@ + json_escape(p) + "\"}}"@,
        ViolationV::MissingDataType(t) => "{\"type\":\"MissingDataType\",\"explanation\":\"Missing required data type: '"@
            + json_escape(t) + "'\",\"details\":{\"missing_type\":\""@ + json_escape(t) + "\"}}"@,
        ViolationV::RegexTypeNotAccepted(t) => "{\"type\":\"RegexTypeNotAccepted\",\"explanation\":\"Regex pattern does not match data type: '"@
            + json_escape(t) + "'\",\"details\":{\"type_not_accepted\":\""@ + json_escape(t)
            + "\"}}"@,
        ViolationV::DataTypeNotFound(t) => "{\"type\":\"DataTypeNotFound\",\"explanation\":\"Data type not found: '"@
            + json_escape(t) + "'\",\"details\":{\"data_type\":\""@ + json_escape(t) + "\"}}"@,
        ViolationV::NumberInRange(k) => "{\"type\":\"NumberInRange\",\"explanation\":\"Number not in valid range for key: '"@
            + json_escape(k) + "'\",\"details\":{\"key\":\""@ + json_escape(k) + "\"}}"@,
        ViolationV::ItemOfCollection(n) => "{\"type\":\"ItemOfCollection\",\"explanation\":\"Item is not a valid member of collection: '"@
            + json_escape(n) + "'\",\"details\":{\"collection_name\":\""@ + json_escape(n)
            + "\"}}"@,
        ViolationV::InvalidFormat(e, g) => "{\"type\":\"InvalidFormat\",\"explanation\":\"Invalid format. Expected: '"@
            + json_escape(e) + "', Got: '"@ + json_escape(g)
            + "'\",\"details\":{\"expected_format\":\""@ + json_escape(e) + "\",\"value\":\""@
            + json_escape(g) + "\"}}"@,
        ViolationV::DataTypeIdentifierNotPresent(i) => "{\"type\":\"DataTypeIdentifierNotPresent\",\"explanation\":\"Data type identifier not present: '"@
            + json_escape(i) + "'\",\"details\":{\"identifier\":\""@ + json_escape(i) + "\"}}"@,
        ViolationV::GenericKeyNotAllowed(k) => "{\"type\":\"GenericKeyNotAllowed\",\"explanation\":\"Generic key not allowed: '"@
            + json_escape(k) + "'\",\"details\":{\"key\":\""@ + json_escape(k) + "\"}}"@,
    }
}

/// The comma-separated serializations of a list of violations.
pub open spec fn viols_text(vs: Seq<ViolationV>) -> Seq<char>
    decreases vs.len(),
{
    if vs.len() == 0 {
        Seq::empty()
    } else if vs.len() == 1 {
        viol_text(vs[0])
    } else {
        viol_text(vs[0]) + ","@ + viols_text(vs.drop_first())
    }
}

/// The full report: the error name, the violation count, and every
/// violation in order.
pub open spec fn report_text(vs: Seq<ViolationV>) -> Seq<char> {
    "{\"error\":\"DataTypeRuleError\",\"violation_count\":"@ + nat_str(vs.len())
        + ",\"violations\":["@ + viols_text(vs) + "]}"@
}

fn append_viol(out: &mut String, v: &DataTypeRuleViolation)
    ensures
        final(out)@ == old(out)@ + viol_text(v@),
{
    match v {
        DataTypeRuleViolation::ContainsKey(x) => {
            out.append("{\"type\":\"ContainsKey\",\"explanation\":\"Missing required key: '");
            append_escaped(out, x.missing_key.as_str());
            out.append("'\",\"details\":{\"missing_key\":\"");
            append_escaped(out, x.missing_key.as_str());
            out.append("\"}}");
        },
        DataTypeRuleViolation::Regex(x) => {
            out.append("{\"type\":\"Regex\",\"explanation\":\"Failed to match regex pattern: '");
            append_escaped(out, x.missing_regex.as_str());
            out.append("'\",\"details\":{\"missing_regex\":\"");
            append_escaped(out, x.missing_regex.as_str());
            out.append("\"}}");
        },
        DataTypeRuleViolation::MissingDataType(x) => {
            out.append(
                "{\"type\":\"MissingDataType\",\"explanation\":\"Missing required data type: '",
            );
            append_escaped(out, x.missing_type.as_str());
            out.append("'\",\"details\":{\"missing_type\":\"");
            append_escaped(out, x.missing_type.as_str());
            out.append("\"}}");
        },
        DataTypeRuleViolation::RegexTypeNotAccepted(x) => {
            out.append(
                "{\"type\":\"RegexTypeNotAccepted\",\"explanation\":\"Regex pattern does not match data type: '",
            );
            append_escaped(out, x.type_not_accepted.as_str());
            out.append("'\",\"details\":{\"type_not_accepted\":\"");
            append_escaped(out, x.type_not_accepted.as_str());
            out.append("\"}}");
        },
        DataTypeRuleViolation::DataTypeNotFound(x) => {
            out.append("{\"type\":\"DataTypeNotFound\",\"explanation\":\"Data type not found: '");
            append_escaped(out, x.data_type.as_str());
            out.append("'\",\"details\":{\"data_type\":\"");
            append_escaped(out, x.data_type.as_str());
            out.append("\"}}");
        },
        DataTypeRuleViolation::NumberInRange(x) => {
            out.append(
                "{\"type\":\"NumberInRange\",\"explanation\":\"Number not in valid range for key: '",
            );
            append_escaped(out, x.key.as_str());
            out.append("'\",\"details\":{\"key\":\"");
            append_escaped(out, x.key.as_str());
            out.append("\"}}");
        },
        DataTypeRuleViolation::ItemOfCollection(x) => {
            out.append(
                "{\"type\":\"ItemOfCollection\",\"explanation\":\"Item is not a valid member of collection: '",
            );
            append_escaped(out, x.collection_name.as_str());
            out.append("'\",\"details\":{\"collection_name\":\"");
            append_escaped(out, x.collection_name.as_str());
            out.append("\"}}");
        },
        DataTypeRuleViolation::InvalidFormat(x) => {
            out.append("{\"type\":\"InvalidFormat\",\"explanation\":\"Invalid format. Expected: '");
            append_escaped(out, x.expected_format.as_str());
            out.append("', Got: '");
            append_escaped(out, x.value.as_str());
            out.append("'\",\"details\":{\"expected_format\":\"");
            append_escaped(out, x.expected_format.as_str());
            out.append("\",\"value\":\"");
            append_escaped(out, x.value.as_str());
            out.append("\"}}");
        },
        DataTypeRuleViolation::DataTypeIdentifierNotPresent(x) => {
            out.append(
                "{\"type\":\"DataTypeIdentifierNotPresent\",\"explanation\":\"Data type identifier not present: '",
            );
            append_escaped(out, x.identifier.as_str());
            out.append("'\",\"details\":{\"identifier\":\"");
            append_escaped(out, x.identifier.as_str());
            out.append("\"}}");
        },
        DataTypeRuleViolation::GenericKeyNotAllowed(x) => {
            out.append("{\"type\":\"GenericKeyNotAllowed\",\"explanation\":\"Generic key not allowed: '");
            append_escaped(out, x.key.as_str());
            out.append("'\",\"details\":{\"key\":\"");
            append_escaped(out, x.key.as_str());
            out.append("\"}}");
        },
    }
}

proof fn lemma_viols_text_split(vs: Seq<ViolationV>, i: int)
    requires
        0 < i < vs.len(),
    ensures
        viols_text(vs.take(i + 1)) == viols_text(vs.take(i)) + ","@ + viol_text(vs[i]),
    decreases i,
{
    if i == 1 {
        assert(vs.take(2)[0] == vs[0]);
        assert(vs.take(2).drop_first() =~= seq![vs[1]]);
        assert(vs.take(1) =~= seq![vs[0]]);
        assert(viols_text(seq![vs[1]]) == viol_text(vs[1]));
        assert(viols_text(vs.take(2)) =~= viols_text(vs.take(1)) + ","@ + viol_text(vs[1]));
    } else {
        lemma_viols_text_split(vs.drop_first(), i - 1);
        assert(vs.take(i + 1).drop_first() =~= vs.drop_first().take(i));
        assert(vs.take(i).drop_first() =~= vs.drop_first().take(i - 1));
        assert(vs.drop_first()[i - 1] == vs[i]);
        assert(vs.take(i + 1)[0] == vs[0]);
        assert(vs.take(i)[0] == vs[0]);
        assert(viols_text(vs.take(i + 1)) =~= viols_text(vs.take(i)) + ","@ + viol_text(vs[i]));
    }
}

impl DataTypeRuleError {
    /// Serializes the report: `{error, violation_count, violations:[...]}`.
    pub fn to_string(&self) -> (r: String)
        ensures
            r@ == report_text(self@),
    {
        proof {
            lemma_viol_views_index(self.violations@);
        }
        let ghost vs = viol_views(self.violations@);
        let mut out = String::new();
        out.append("{\"error\":\"DataTypeRuleError\",\"violation_count\":");
        append_u64(&mut out, self.violations.len() as u64);
        out.append(",\"violations\":[");
        let ghost header = out@;
        let mut i: usize = 0;
        while i < self.violations.len()
            invariant
                0 <= i <= self.violations@.len(),
                vs == viol_views(self.violations@),
                vs.len() == self.violations@.len(),
                forall|k: int|
                    0 <= k < self.violations@.len() ==> vs[k] == (
                    #[trigger] self.violations@[k])@,
                out@ == header + viols_text(vs.take(i as int)),
            decreases self.violations@.len() - i,
        {
            if i > 0 {
                out.append(",");
            }
            append_viol(&mut out, &self.violations[i]);
            proof {
                if i == 0 {
                    assert(vs.take(1) =~= seq![vs[0]]);
                    assert(out@ =~= header + viols_text(vs.take(1)));
                } else {
                    lemma_viols_text_split(vs, i as int);
                    assert(out@ =~= header + viols_text(vs.take(i + 1)));
                }
            }
            i = i + 1;
        }
        out.append("]}");
        proof {
            assert(vs.take(vs.len() as int) =~= vs);
            assert(out@ =~= report_text(self@));
        }
        out
    }
}

} // verus!
