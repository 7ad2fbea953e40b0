//! The data-type rule interpreter: each rule is evaluated against a value
//! tree, violations are accumulated across rules rather than cut short, and
//! `ContainsKey` / `ContainsType` recurse through the flow's closed universe
//! of data types.

use vstd::prelude::*;

use crate::flow::{
    dt_lookup, get_data_type_by_id, DataType, DataTypeContainsKeyRuleConfig,
    DataTypeContainsTypeRuleConfig, DataTypeIdentifier, DataTypeItemOfCollectionRuleConfig,
    DataTypeNumberRangeRuleConfig, DataTypeRegexRuleConfig, DataTypeRule, ValidationFlow,
};
use crate::path::{expect_kind, lemma_path_value_smaller, spec_lookup};
use crate::regexp::{regex_match, regex_matches, regex_valid};
use crate::strutil::split_chars;
use crate::value::{
    equiv, lemma_fields_wf_index, lemma_list_elem_smaller, lemma_list_wf_index,
    lemma_views_of_index, lemma_vview_variants, list_size, num_text, number_string, value_eq,
    view_wf, views_of, vsize, vview, Value, ValueView,
};
use crate::violation::{
    viol_views, lemma_viol_views_index, ContainsKeyRuleViolation, DataTypeIdentifierNotPresentRuleViolation,
    DataTypeNotFoundRuleViolation, DataTypeRuleError, DataTypeRuleViolation,
    GenericKeyNotAllowedRuleViolation, InvalidFormatRuleViolation, ItemOfCollectionRuleViolation,
    MissingDataTypeRuleDefinition, NumberInRangeRuleViolation, RegexRuleTypeNotAcceptedViolation,
    RegexRuleViolation, ViolationV,
};

verus! {

pub struct VerificationResult;

/// The name of a value's shape, as the reports spell it.
pub open spec fn kind_name(v: ValueView) -> Seq<char> {
    match v {
        ValueView::Null => "NullValue"@,
        ValueView::Bool(_) => "BoolValue"@,
        ValueView::Num(_, _) => "NumberValue"@,
        ValueView::Str(_) => "StringValue"@,
        ValueView::List(_) => "ListValue"@,
        ValueView::Rec(_) => "StructValue"@,
    }
}

/// The text a scalar value is coerced to before a regex test.
pub open spec fn value_text(v: ValueView) -> Seq<char> {
    match v {
        ValueView::Null => "null"@,
        ValueView::Bool(b) => if b {
            "true"@
        } else {
            "false"@
        },
        ValueView::Num(m, s) => num_text(m, s),
        ValueView::Str(s) => s,
        _ => Seq::empty(),
    }
}

/// What a regex rule reports on `v`: containers are not accepted, scalars
/// are coerced to text and matched; a pattern that does not compile fails
/// the rule with a format violation.
pub open spec fn regex_rule_viols(pattern: Seq<char>, v: ValueView) -> Seq<ViolationV> {
    match v {
        ValueView::List(_) => seq![ViolationV::RegexTypeNotAccepted("ListValue"@)],
        ValueView::Rec(_) => seq![ViolationV::RegexTypeNotAccepted("StructValue"@)],
        _ => {
            if !regex_valid(pattern) {
                seq![ViolationV::InvalidFormat(pattern, "invalid regex"@)]
            } else if regex_matches(pattern, value_text(v)) {
                Seq::empty()
            } else {
                seq![ViolationV::Regex(pattern)]
            }
        },
    }
}

/// Ten to the power `s`.
pub open spec fn pow10(s: nat) -> int
    decreases s,
{
    if s == 0 {
        1
    } else {
        10 * pow10((s - 1) as nat)
    }
}

proof fn lemma_pow10_pos(s: nat)
    ensures
        1 <= pow10(s),
    decreases s,
{
    if s > 0 {
        lemma_pow10_pos((s - 1) as nat);
    }
}

proof fn lemma_pow10_mono(a: nat, b: nat)
    requires
        a <= b,
    ensures
        pow10(a) <= pow10(b),
    decreases b,
{
    if a < b {
        lemma_pow10_mono(a, (b - 1) as nat);
        lemma_pow10_pos((b - 1) as nat);
    }
}

proof fn lemma_pow10_18()
    ensures
        pow10(18) == 1000000000000000000,
{
    assert(pow10(0) == 1);
    assert(pow10(1) == 10);
    assert(pow10(2) == 100);
    assert(pow10(3) == 1000);
    assert(pow10(4) == 10000);
    assert(pow10(5) == 100000);
    assert(pow10(6) == 1000000);
    assert(pow10(7) == 10000000);
    assert(pow10(8) == 100000000);
    assert(pow10(9) == 1000000000);
    assert(pow10(10) == 10000000000);
    assert(pow10(11) == 100000000000);
    assert(pow10(12) == 1000000000000);
    assert(pow10(13) == 10000000000000);
    assert(pow10(14) == 100000000000000);
    assert(pow10(15) == 1000000000000000);
    assert(pow10(16) == 10000000000000000);
    assert(pow10(17) == 100000000000000000);
    assert(pow10(18) == 1000000000000000000);
}

proof fn lemma_pow10_bounds(s: nat)
    ensures
        1 <= pow10(s),
        s <= 18 ==> pow10(s) <= 1000000000000000000,
{
    lemma_pow10_pos(s);
    if s <= 18 {
        lemma_pow10_mono(s, 18);
        lemma_pow10_18();
    }
}

/// Whether the number `m / 10^s` lies in `[from, to]`.
pub open spec fn num_in_range(m: int, s: nat, from: int, to: int) -> bool {
    from * pow10(s) <= m && m <= to * pow10(s)
}

/// Whether the number `m / 10^s` is an integer multiple of `step`.
pub open spec fn num_on_step(m: int, s: nat, step: int) -> bool {
    (if m < 0 {
        -m
    } else {
        m
    }) % ((if step < 0 {
        -step
    } else {
        step
    }) * pow10(s)) == 0
}

/// What a number-range rule reports on `v`: only numbers are accepted; the
/// number must lie in the range, and, when a nonzero step is given, be an
/// integer multiple of it.
pub open spec fn number_range_viols(
    from: int,
    to: int,
    steps: Option<i64>,
    v: ValueView,
    key: Seq<char>,
) -> Seq<ViolationV> {
    match v {
        ValueView::Num(m, s) => {
            if !num_in_range(m, s, from, to) {
                seq![ViolationV::NumberInRange(key)]
            } else {
                match steps {
                    Some(st) => if st != 0 && !num_on_step(m, s, st as int) {
                        seq![ViolationV::NumberInRange(key)]
                    } else {
                        Seq::empty()
                    },
                    None => Seq::empty(),
                }
            }
        },
        _ => seq![ViolationV::RegexTypeNotAccepted(kind_name(v))],
    }
}

/// Whether some entry of `items` deep-equals `v`.
pub open spec fn contains_equiv(items: Seq<Value>, v: ValueView) -> bool {
    exists|i: int| 0 <= i < items.len() && equiv(vview(#[trigger] items[i]), v)
}

/// What a collection-membership rule reports on `v`.
pub open spec fn item_of_collection_viols(
    items: Seq<Value>,
    v: ValueView,
    key: Seq<char>,
) -> Seq<ViolationV> {
    if contains_equiv(items, v) {
        Seq::empty()
    } else {
        seq![ViolationV::ItemOfCollection(key)]
    }
}

/// What one rule reports on `v`, against the universe `u`.
pub open spec fn rule_viols(v: ValueView, rule: DataTypeRule, u: Seq<DataType>) -> Seq<ViolationV>
    decreases vsize(v), 1int, 0int,
    via rule_viols_decreases
{
    match rule {
        DataTypeRule::Regex(cfg) => regex_rule_viols(cfg.pattern@, v),
        DataTypeRule::NumberRange(cfg) => number_range_viols(
            cfg.from as int,
            cfg.to as int,
            cfg.steps,
            v,
            "value"@,
        ),
        DataTypeRule::ItemOfCollection(cfg) => item_of_collection_viols(cfg.items@, v, "key"@),
        DataTypeRule::ContainsKey(cfg) => match cfg.data_type_identifier {
            None => seq![ViolationV::DataTypeIdentifierNotPresent("identifier"@)],
            Some(DataTypeIdentifier::GenericType(_)) => seq![
                ViolationV::GenericKeyNotAllowed("identifier"@),
            ],
            Some(DataTypeIdentifier::DataTypeIdentifier(id)) => match v {
                ValueView::Rec(_) => match spec_lookup(v, cfg.key@) {
                    None => seq![ViolationV::ContainsKey(cfg.key@)],
                    Some(x) => match dt_lookup(u, id@) {
                        None => seq![ViolationV::MissingDataType(id@)],
                        Some(dt) => rules_viols(x, dt.rules@, u),
                    },
                },
                _ => seq![ViolationV::ContainsKey(cfg.key@)],
            },
        },
        DataTypeRule::ContainsType(cfg) => match cfg.data_type_identifier {
            None => seq![ViolationV::DataTypeIdentifierNotPresent("identifier"@)],
            Some(DataTypeIdentifier::GenericType(_)) => seq![
                ViolationV::GenericKeyNotAllowed("identifier"@),
            ],
            Some(DataTypeIdentifier::DataTypeIdentifier(id)) => match v {
                ValueView::List(es) => match dt_lookup(u, id@) {
                    None => seq![ViolationV::MissingDataType(id@)],
                    Some(dt) => elems_viols(es, dt.rules@, u),
                },
                _ => seq![ViolationV::InvalidFormat(id@, "other"@)],
            },
        },
    }
}

#[via_fn]
proof fn rule_viols_decreases(v: ValueView, rule: DataTypeRule, u: Seq<DataType>) {
    match rule {
        DataTypeRule::ContainsKey(cfg) => {
            if cfg.data_type_identifier matches Some(DataTypeIdentifier::DataTypeIdentifier(_)) {
                if v is Rec {
                    let segs = split_chars(cfg.key@, '.');
                    crate::strutil::lemma_split_chars_len(cfg.key@, '.');
                    if spec_lookup(v, cfg.key@) is Some {
                        lemma_path_value_smaller(v, segs, spec_lookup(v, cfg.key@)->Some_0);
                    }
                }
            }
        },
        _ => {},
    }
}

/// The concatenated reports of every rule on `v`.
pub open spec fn rules_viols(v: ValueView, rules: Seq<DataTypeRule>, u: Seq<DataType>) -> Seq<
    ViolationV,
>
    decreases vsize(v), 2int, rules.len(),
{
    if rules.len() == 0 {
        Seq::empty()
    } else {
        rule_viols(v, rules.first(), u) + rules_viols(v, rules.drop_first(), u)
    }
}

/// The concatenated reports of the rules on every element of a list.
pub open spec fn elems_viols(es: Seq<ValueView>, rules: Seq<DataTypeRule>, u: Seq<DataType>) -> Seq<
    ViolationV,
>
    decreases list_size(es), 3int, es.len(),
    via elems_viols_decreases
{
    if es.len() == 0 {
        Seq::empty()
    } else {
        rules_viols(es.first(), rules, u) + elems_viols(es.drop_first(), rules, u)
    }
}

#[via_fn]
proof fn elems_viols_decreases(es: Seq<ValueView>, rules: Seq<DataTypeRule>, u: Seq<DataType>) {
    if es.len() > 0 {
        lemma_list_elem_smaller(es, 0);
        assert(es[0] == es.first());
    }
}

/// The whole report of a flow on an input: empty when the flow names no
/// input type; a single not-found violation when the named type is missing
/// from the universe; otherwise the root type's rules on the input.
pub open spec fn flow_viols(flow: ValidationFlow, body: ValueView) -> Seq<ViolationV> {
    match flow.input_type_identifier {
        None => Seq::empty(),
        Some(t) => match dt_lookup(flow.data_types@, t@) {
            None => seq![ViolationV::DataTypeNotFound(t@)],
            Some(dt) => rules_viols(body, dt.rules@, flow.data_types@),
        },
    }
}

fn err_of(v: DataTypeRuleViolation) -> (r: DataTypeRuleError)
    ensures
        r@ == seq![v@],
{
    let mut violations: Vec<DataTypeRuleViolation> = Vec::new();
    violations.push(v);
    proof {
        lemma_viol_views_index(violations@);
        assert(viol_views(violations@) =~= seq![v@]);
    }
    DataTypeRuleError { violations }
}

/// Validates a value against a regex pattern: scalars are coerced to text
/// and must match; lists and records are rejected outright.
pub fn apply_regex(rule: DataTypeRegexRuleConfig, body: &Value) -> (r: Result<
    (),
    DataTypeRuleError,
>)
    ensures
        r is Ok <==> regex_rule_viols(rule.pattern@, body@).len() == 0,
        r matches Err(e) ==> e@ == regex_rule_viols(rule.pattern@, body@),
{
    let text: String = match body {
        Value::Bool(b) => {
            let t = if *b {
                "true"
            } else {
                "false"
            };
            let t2 = t.to_owned();
            proof {
                assert(t2@ == value_text(body@));
            }
            t2
        },
        Value::Number(n) => {
            let t2 = number_string(n);
            proof {
                assert(t2@ == value_text(body@));
            }
            t2
        },
        Value::String(s) => {
            let t2 = s.clone();
            proof {
                assert(t2@ == value_text(body@));
            }
            t2
        },
        Value::Null => {
            let t2 = "null".to_owned();
            proof {
                assert(t2@ == value_text(body@));
            }
            t2
        },
        Value::Struct(_) => {
            proof {
                lemma_vview_variants(*body);
                assert(regex_rule_viols(rule.pattern@, body@).len() == 1);
            }
            return Err(err_of(DataTypeRuleViolation::RegexTypeNotAccepted(
                RegexRuleTypeNotAcceptedViolation { type_not_accepted: "StructValue".to_owned() },
            )));
        },
        Value::List(_) => {
            proof {
                lemma_vview_variants(*body);
                assert(regex_rule_viols(rule.pattern@, body@).len() == 1);
            }
            return Err(err_of(DataTypeRuleViolation::RegexTypeNotAccepted(
                RegexRuleTypeNotAcceptedViolation { type_not_accepted: "ListValue".to_owned() },
            )));
        },
    };
    proof {
        assert(text@ == value_text(body@));
    }
    match regex_match(rule.pattern.as_str(), text.as_str()) {
        None => {
            proof {
                assert(regex_rule_viols(rule.pattern@, body@).len() == 1);
            }
            Err(err_of(DataTypeRuleViolation::InvalidFormat(InvalidFormatRuleViolation {
                expected_format: rule.pattern,
                value: "invalid regex".to_owned(),
            })))
        },
        Some(true) => {
            proof {
                assert(regex_rule_viols(rule.pattern@, body@).len() == 0);
            }
            Ok(())
        },
        Some(false) => {
            proof {
                assert(regex_rule_viols(rule.pattern@, body@).len() == 1);
            }
            Err(err_of(DataTypeRuleViolation::Regex(RegexRuleViolation {
                missing_regex: rule.pattern,
            })))
        },
    }
}

fn pow10_i128(s: u32) -> (r: i128)
    requires
        s <= 18,
    ensures
        r == pow10(s as nat),
        1 <= r <= 1000000000000000000,
{
    let mut r: i128 = 1;
    let mut i: u32 = 0;
    while i < s
        invariant
            0 <= i <= s,
            s <= 18,
            r == pow10(i as nat),
            1 <= r <= 1000000000000000000,
        decreases s - i,
    {
        proof {
            lemma_pow10_bounds((i + 1) as nat);
        }
        r = r * 10;
        i = i + 1;
    }
    r
}

proof fn lemma_mul_in_i128(a: int, p: int)
    requires
        -9223372036854775809 < a < 9223372036854775809,
        1 <= p <= 1000000000000000000,
    ensures
        -170141183460469231731687303715884105728 <= a * p
            <= 170141183460469231731687303715884105727,
{
    assert(-9223372036854775809 * 1000000000000000000 <= a * p <= 9223372036854775809
        * 1000000000000000000) by (nonlinear_arith)
        requires
            -9223372036854775809 < a < 9223372036854775809,
            1 <= p <= 1000000000000000000,
    ;
}

proof fn lemma_mul_pos(a: int, p: int)
    requires
        1 <= a,
        1 <= p,
    ensures
        1 <= a * p,
{
    assert(1 <= a * p) by (nonlinear_arith)
        requires
            1 <= a,
            1 <= p,
    ;
}

/// Validates a numeric value against a range and an optional step width.
pub fn apply_number_range(rule: DataTypeNumberRangeRuleConfig, body: &Value, key: &str) -> (r:
    Result<(), DataTypeRuleError>)
    requires
        view_wf(body@),
    ensures
        r is Ok <==> number_range_viols(rule.from as int, rule.to as int, rule.steps, body@, key@)
           .len() == 0,
        r matches Err(e) ==> e@ == number_range_viols(
            rule.from as int,
            rule.to as int,
            rule.steps,
            body@,
            key@,
        ),
{
    let ghost viols = number_range_viols(rule.from as int, rule.to as int, rule.steps, body@, key@);
    match body {
        Value::Number(n) => {
            let p = pow10_i128(n.scale);
            let m = n.mantissa as i128;
            proof {
                lemma_mul_in_i128(rule.from as int, p as int);
                lemma_mul_in_i128(rule.to as int, p as int);
            }
            let lo = (rule.from as i128) * p;
            let hi = (rule.to as i128) * p;
            if m < lo || m > hi {
                proof {
                    assert(viols.len() == 1);
                }
                return Err(err_of(DataTypeRuleViolation::NumberInRange(
                    NumberInRangeRuleViolation { key: key.to_owned() },
                )));
            }
            match rule.steps {
                Some(st) => {
                    if st == 0 {
                        proof {
                            assert(viols.len() == 0);
                        }
                        Ok(())
                    } else {
                        let abs_m: i128 = if m < 0 {
                            -m
                        } else {
                            m
                        };
                        let abs_st: i128 = if st < 0 {
                            -(st as i128)
                        } else {
                            st as i128
                        };
                        proof {
                            lemma_mul_in_i128(abs_st as int, p as int);
                            lemma_mul_pos(abs_st as int, p as int);
                        }
                        let divisor = abs_st * p;
                        if abs_m % divisor == 0 {
                            proof {
                                assert(num_on_step(n.mantissa as int, n.scale as nat, st as int));
                                assert(viols.len() == 0);
                            }
                            Ok(())
                        } else {
                            proof {
                                assert(!num_on_step(n.mantissa as int, n.scale as nat, st as int));
                                assert(viols.len() == 1);
                            }
                            Err(err_of(DataTypeRuleViolation::NumberInRange(
                                NumberInRangeRuleViolation { key: key.to_owned() },
                            )))
                        }
                    }
                },
                None => {
                    proof {
                        assert(viols.len() == 0);
                    }
                    Ok(())
                },
            }
        },
        _ => {
            proof {
                lemma_vview_variants(*body);
                assert(viols.len() == 1);
            }
            Err(err_of(DataTypeRuleViolation::RegexTypeNotAccepted(
                RegexRuleTypeNotAcceptedViolation { type_not_accepted: kind_label(body) },
            )))
        },
    }
}

/// The report label for a value's shape.
fn kind_label(body: &Value) -> (r: String)
    ensures
        r@ == kind_name(body@),
{
    proof {
        lemma_vview_variants(*body);
    }
    match body {
        Value::Null => "NullValue".to_owned(),
        Value::Bool(_) => "BoolValue".to_owned(),
        Value::Number(_) => "NumberValue".to_owned(),
        Value::String(_) => "StringValue".to_owned(),
        Value::List(_) => "ListValue".to_owned(),
        Value::Struct(_) => "StructValue".to_owned(),
    }
}

/// Validates that a value deep-equals one entry of a fixed collection.
pub fn apply_item_of_collection(
    rule: DataTypeItemOfCollectionRuleConfig,
    body: &Value,
    key: &str,
) -> (r: Result<(), DataTypeRuleError>)
    ensures
        r is Ok <==> item_of_collection_viols(rule.items@, body@, key@).len() == 0,
        r matches Err(e) ==> e@ == item_of_collection_viols(rule.items@, body@, key@),
{
    apply_item_of_collection_ref(&rule, body, key)
}

proof fn lemma_rules_viols_snoc(v: ValueView, rules: Seq<DataTypeRule>, u: Seq<DataType>, i: int)
    requires
        0 <= i < rules.len(),
    ensures
        rules_viols(v, rules.take(i + 1), u) == rules_viols(v, rules.take(i), u) + rule_viols(
            v,
            rules[i],
            u,
        ),
    decreases i,
{
    if i == 0 {
        assert(rules.take(1).first() == rules[0]);
        assert(rules.take(1).drop_first() =~= Seq::<DataTypeRule>::empty());
        assert(rules.take(0) =~= Seq::<DataTypeRule>::empty());
        assert(rules_viols(v, rules.take(1), u) =~= rules_viols(v, rules.take(0), u) + rule_viols(
            v,
            rules[0],
            u,
        ));
    } else {
        lemma_rules_viols_snoc(v, rules.drop_first(), u, i - 1);
        assert(rules.take(i + 1).first() == rules[0]);
        assert(rules.take(i).first() == rules[0]);
        assert(rules.take(i + 1).drop_first() =~= rules.drop_first().take(i));
        assert(rules.take(i).drop_first() =~= rules.drop_first().take(i - 1));
        assert(rules.drop_first()[i - 1] == rules[i]);
        assert(rules_viols(v, rules.take(i + 1), u) =~= rules_viols(v, rules.take(i), u)
            + rule_viols(v, rules[i], u));
    }
}

/// Evaluates every rule of `data_type` on `body`, accumulating violations
/// across rules rather than stopping at the first failure.
pub fn verify_data_type_rules(body: &Value, data_type: &DataType, availabe_data_types: &Vec<
    DataType,
>) -> (r: Result<(), DataTypeRuleError>)
    requires
        view_wf(body@),
    ensures
        r is Ok <==> rules_viols(body@, data_type.rules@, availabe_data_types@).len() == 0,
        r matches Err(e) ==> e@ == rules_viols(body@, data_type.rules@, availabe_data_types@),
    decreases vsize(body@), 1int,
{
    let mut violations: Vec<DataTypeRuleViolation> = Vec::new();
    let ghost rules = data_type.rules@;
    let ghost u = availabe_data_types@;
    let mut i: usize = 0;
    proof {
        assert(rules.take(0) =~= Seq::<DataTypeRule>::empty());
        lemma_viol_views_index(violations@);
    }
    while i < data_type.rules.len()
        invariant
            0 <= i <= rules.len(),
            rules == data_type.rules@,
            u == availabe_data_types@,
            view_wf(body@),
            viol_views(violations@) == rules_viols(body@, rules.take(i as int), u),
        decreases rules.len() - i, 0int,
    {
        let rule = &data_type.rules[i];
        let ghost rv = rule_viols(body@, rules[i as int], u);
        let step: Result<(), DataTypeRuleError> = match rule {
            DataTypeRule::Regex(cfg) => {
                let s = apply_regex(DataTypeRegexRuleConfig { pattern: cfg.pattern.clone() }, body);
                proof {
                    assert(s is Ok <==> rv.len() == 0);
                    assert(s matches Err(e2) ==> e2@ == rv);
                }
                s
            },
            DataTypeRule::NumberRange(cfg) => {
                let s = apply_number_range(*cfg, body, "value");
                proof {
                    assert(s is Ok <==> rv.len() == 0);
                    assert(s matches Err(e2) ==> e2@ == rv);
                }
                s
            },
            DataTypeRule::ItemOfCollection(cfg) => {
                let s = apply_item_of_collection_ref(cfg, body, "key");
                proof {
                    assert(s is Ok <==> rv.len() == 0);
                    assert(s matches Err(e2) ==> e2@ == rv);
                }
                s
            },
            DataTypeRule::ContainsKey(cfg) => {
                let s = apply_contains_key_at(cfg, body, availabe_data_types);
                proof {
                    assert(s is Ok <==> rv.len() == 0);
                    assert(s matches Err(e2) ==> e2@ == rv);
                }
                s
            },
            DataTypeRule::ContainsType(cfg) => {
                let s = apply_contains_type_at(cfg, availabe_data_types, body);
                proof {
                    assert(s is Ok <==> rv.len() == 0);
                    assert(s matches Err(e2) ==> e2@ == rv);
                }
                s
            },
        };
        match step {
            Ok(()) => {
                proof {
                    lemma_rules_viols_snoc(body@, rules, u, i as int);
                    assert(viol_views(violations@) =~= rules_viols(
                        body@,
                        rules.take(i + 1),
                        u,
                    ));
                }
            },
            Err(mut e) => {
                proof {
                    lemma_rules_viols_snoc(body@, rules, u, i as int);
                }
                let ghost old_vs = violations@;
                let ghost add_vs = e.violations@;
                violations.append(&mut e.violations);
                proof {
                    lemma_viol_views_concat(old_vs, add_vs);
                    assert(viol_views(violations@) =~= rules_viols(
                        body@,
                        rules.take(i + 1),
                        u,
                    ));
                }
            },
        }
        i = i + 1;
    }
    proof {
        assert(rules.take(rules.len() as int) =~= rules);
        lemma_viol_views_index(violations@);
    }
    if violations.len() == 0 {
        proof {
            assert(rules_viols(body@, rules, u).len() == 0);
        }
        Ok(())
    } else {
        Err(DataTypeRuleError { violations })
    }
}

proof fn lemma_viol_views_concat(a: Seq<DataTypeRuleViolation>, b: Seq<DataTypeRuleViolation>)
    ensures
        viol_views(a + b) == viol_views(a) + viol_views(b),
    decreases a.len(),
{
    if a.len() == 0 {
        assert(a + b =~= b);
        assert(viol_views(a + b) =~= viol_views(a) + viol_views(b));
    } else {
        lemma_viol_views_concat(a.drop_first(), b);
        assert((a + b).drop_first() =~= a.drop_first() + b);
        assert((a + b)[0] == a[0]);
        assert(viol_views(a + b) =~= viol_views(a) + viol_views(b));
    }
}

/// As `apply_item_of_collection`, for a rule held by reference.
fn apply_item_of_collection_ref(
    rule: &DataTypeItemOfCollectionRuleConfig,
    body: &Value,
    key: &str,
) -> (r: Result<(), DataTypeRuleError>)
    ensures
        r is Ok <==> item_of_collection_viols(rule.items@, body@, key@).len() == 0,
        r matches Err(e) ==> e@ == item_of_collection_viols(rule.items@, body@, key@),
{
    let ghost viols = item_of_collection_viols(rule.items@, body@, key@);
    let mut i: usize = 0;
    while i < rule.items.len()
        invariant
            0 <= i <= rule.items@.len(),
            viols == item_of_collection_viols(rule.items@, body@, key@),
            forall|k: int| 0 <= k < i ==> !equiv(vview(#[trigger] rule.items@[k]), body@),
        decreases rule.items@.len() - i,
    {
        if value_eq(&rule.items[i], body) {
            proof {
                assert(contains_equiv(rule.items@, body@));
                assert(viols.len() == 0);
            }
            return Ok(());
        }
        i = i + 1;
    }
    proof {
        assert(!contains_equiv(rule.items@, body@));
        assert(viols.len() == 1);
    }
    Err(err_of(DataTypeRuleViolation::ItemOfCollection(ItemOfCollectionRuleViolation {
        collection_name: key.to_owned(),
    })))
}

/// Validates that a record holds the rule's key and that the value under it
/// satisfies the referenced data type.
fn apply_contains_key_at(
    rule: &DataTypeContainsKeyRuleConfig,
    body: &Value,
    available_data_types: &Vec<DataType>,
) -> (r: Result<(), DataTypeRuleError>)
    requires
        view_wf(body@),
    ensures
        r is Ok <==> rule_viols(body@, DataTypeRule::ContainsKey((*rule)), available_data_types@)
           .len() == 0,
        r matches Err(e) ==> e@ == rule_viols(
            body@,
            DataTypeRule::ContainsKey((*rule)),
            available_data_types@,
        ),
    decreases vsize(body@), 0int,
{
    let ghost whole = rule_viols(
        body@,
        DataTypeRule::ContainsKey((*rule)),
        available_data_types@,
    );
    let identifier: &String = match &rule.data_type_identifier {
        Some(DataTypeIdentifier::DataTypeIdentifier(id)) => id,
        Some(DataTypeIdentifier::GenericType(_)) => {
            proof {
                assert(whole.len() == 1);
            }
            return Err(err_of(DataTypeRuleViolation::GenericKeyNotAllowed(
                GenericKeyNotAllowedRuleViolation { key: "identifier".to_owned() },
            )));
        },
        None => {
            proof {
                assert(whole.len() == 1);
            }
            return Err(err_of(DataTypeRuleViolation::DataTypeIdentifierNotPresent(
                DataTypeIdentifierNotPresentRuleViolation { identifier: "identifier".to_owned() },
            )));
        },
    };
    match body {
        Value::Struct(_) => {
            proof {
                lemma_vview_variants(*body);
            }
            let inner = match expect_kind(rule.key.as_str(), body) {
                Some(inner) => inner,
                None => {
                    proof {
                        assert(whole.len() == 1);
                    }
                    return Err(err_of(DataTypeRuleViolation::ContainsKey(
                        ContainsKeyRuleViolation { missing_key: rule.key.clone() },
                    )));
                },
            };
            let data_type = match get_data_type_by_id(available_data_types, identifier.as_str()) {
                Some(dt) => dt,
                None => {
                    proof {
                        assert(whole.len() == 1);
                    }
                    return Err(err_of(DataTypeRuleViolation::MissingDataType(
                        MissingDataTypeRuleDefinition { missing_type: identifier.clone() },
                    )));
                },
            };
            proof {
                crate::strutil::lemma_split_chars_len(rule.key@, '.');
                lemma_path_value_smaller(body@, split_chars(rule.key@, '.'), inner@);
                lemma_spec_lookup_wf(body@, split_chars(rule.key@, '.'), inner@);
            }
            verify_data_type_rules(inner, data_type, available_data_types)
        },
        _ => {
            proof {
                lemma_vview_variants(*body);
                assert(whole.len() == 1);
            }
            Err(err_of(DataTypeRuleViolation::ContainsKey(ContainsKeyRuleViolation {
                missing_key: rule.key.clone(),
            })))
        },
    }
}

/// A value reached by a path lookup inside a well-formed value is itself
/// well-formed.
proof fn lemma_spec_lookup_wf(v: ValueView, segs: Seq<Seq<char>>, x: ValueView)
    requires
        view_wf(v),
        crate::path::path_value(v, segs) == Some(x),
    ensures
        view_wf(x),
    decreases segs.len(),
{
    if segs.len() > 0 {
        let fs = v->Rec_0;
        let mid = crate::value::rec_lookup(fs, segs.first())->Some_0;
        lemma_rec_lookup_wf(fs, segs.first());
        lemma_spec_lookup_wf(mid, segs.drop_first(), x);
    }
}

proof fn lemma_rec_lookup_wf(fs: Seq<(Seq<char>, ValueView)>, key: Seq<char>)
    requires
        crate::value::fields_wf(fs),
        crate::value::rec_lookup(fs, key) is Some,
    ensures
        view_wf(crate::value::rec_lookup(fs, key)->Some_0),
    decreases fs.len(),
{
    if fs.len() > 0 {
        if fs.first().0 == key {
        } else {
            lemma_rec_lookup_wf(fs.drop_first(), key);
        }
    }
}

/// Validates that a list's every element satisfies the referenced data
/// type; the element reports are all accumulated.
fn apply_contains_type_at(
    rule: &DataTypeContainsTypeRuleConfig,
    available_data_types: &Vec<DataType>,
    body: &Value,
) -> (r: Result<(), DataTypeRuleError>)
    requires
        view_wf(body@),
    ensures
        r is Ok <==> rule_viols(
            body@,
            DataTypeRule::ContainsType((*rule)),
            available_data_types@,
        ).len() == 0,
        r matches Err(e) ==> e@ == rule_viols(
            body@,
            DataTypeRule::ContainsType((*rule)),
            available_data_types@,
        ),
    decreases vsize(body@), 0int,
{
    let ghost whole = rule_viols(
        body@,
        DataTypeRule::ContainsType((*rule)),
        available_data_types@,
    );
    let identifier: &String = match &rule.data_type_identifier {
        Some(DataTypeIdentifier::DataTypeIdentifier(id)) => id,
        Some(DataTypeIdentifier::GenericType(_)) => {
            proof {
                assert(whole.len() == 1);
            }
            return Err(err_of(DataTypeRuleViolation::GenericKeyNotAllowed(
                GenericKeyNotAllowedRuleViolation { key: "identifier".to_owned() },
            )));
        },
        None => {
            proof {
                assert(whole.len() == 1);
            }
            return Err(err_of(DataTypeRuleViolation::DataTypeIdentifierNotPresent(
                DataTypeIdentifierNotPresentRuleViolation { identifier: "identifier".to_owned() },
            )));
        },
    };
    match body {
        Value::List(items) => {
            proof {
                lemma_vview_variants(*body);
            }
            let data_type = match get_data_type_by_id(available_data_types, identifier.as_str()) {
                Some(dt) => dt,
                None => {
                    proof {
                        assert(whole.len() == 1);
                    }
                    return Err(err_of(DataTypeRuleViolation::MissingDataType(
                        MissingDataTypeRuleDefinition { missing_type: identifier.clone() },
                    )));
                },
            };
            proof {
                lemma_views_of_index(items@);
            }
            let ghost es = views_of(items@);
            let ghost u = available_data_types@;
            let ghost rs = data_type.rules@;
            let mut violations: Vec<DataTypeRuleViolation> = Vec::new();
            let mut i: usize = 0;
            proof {
                lemma_viol_views_index(violations@);
                assert(es.take(0) =~= Seq::<ValueView>::empty());
            }
            while i < items.len()
                invariant
                    0 <= i <= items@.len(),
                    es == views_of(items@),
                    es.len() == items@.len(),
                    u == available_data_types@,
                    rs == data_type.rules@,
                    view_wf(body@),
                    body@ == ValueView::List(es),
                    forall|k: int| 0 <= k < items@.len() ==> es[k] == vview(#[trigger] items@[k]),
                    viol_views(violations@) == elems_viols(es.take(i as int), rs, u),
                decreases items@.len() - i, 1int,
            {
                proof {
                    lemma_list_elem_smaller(es, i as int);
                    lemma_list_wf_index(es);
                }
                let step = verify_data_type_rules(&items[i], data_type, available_data_types);
                proof {
                    lemma_elems_viols_snoc(es, rs, u, i as int);
                }
                match step {
                    Ok(()) => {
                        proof {
                            assert(viol_views(violations@) =~= elems_viols(
                                es.take(i + 1),
                                rs,
                                u,
                            ));
                        }
                    },
                    Err(mut e) => {
                        let ghost old_vs = violations@;
                        let ghost add_vs = e.violations@;
                        violations.append(&mut e.violations);
                        proof {
                            lemma_viol_views_concat(old_vs, add_vs);
                            assert(viol_views(violations@) =~= elems_viols(
                                es.take(i + 1),
                                rs,
                                u,
                            ));
                        }
                    },
                }
                i = i + 1;
            }
            proof {
                assert(es.take(es.len() as int) =~= es);
                lemma_viol_views_index(violations@);
            }
            if violations.len() == 0 {
                proof {
                    assert(whole.len() == 0);
                }
                Ok(())
            } else {
                Err(DataTypeRuleError { violations })
            }
        },
        _ => {
            proof {
                lemma_vview_variants(*body);
                assert(whole.len() == 1);
            }
            Err(err_of(DataTypeRuleViolation::InvalidFormat(InvalidFormatRuleViolation {
                expected_format: identifier.clone(),
                value: "other".to_owned(),
            })))
        },
    }
}

proof fn lemma_elems_viols_snoc(es: Seq<ValueView>, rs: Seq<DataTypeRule>, u: Seq<DataType>, i: int)
    requires
        0 <= i < es.len(),
    ensures
        elems_viols(es.take(i + 1), rs, u) == elems_viols(es.take(i), rs, u) + rules_viols(
            es[i],
            rs,
            u,
        ),
    decreases i,
{
    if i == 0 {
        assert(es.take(1).first() == es[0]);
        assert(es.take(1).drop_first() =~= Seq::<ValueView>::empty());
        assert(es.take(0) =~= Seq::<ValueView>::empty());
        assert(elems_viols(es.take(1), rs, u) =~= elems_viols(es.take(0), rs, u) + rules_viols(
            es[0],
            rs,
            u,
        ));
    } else {
        lemma_elems_viols_snoc(es.drop_first(), rs, u, i - 1);
        assert(es.take(i + 1).first() == es[0]);
        assert(es.take(i).first() == es[0]);
        assert(es.take(i + 1).drop_first() =~= es.drop_first().take(i));
        assert(es.take(i).drop_first() =~= es.drop_first().take(i - 1));
        assert(es.drop_first()[i - 1] == es[i]);
        assert(elems_viols(es.take(i + 1), rs, u) =~= elems_viols(es.take(i), rs, u) + rules_viols(
            es[i],
            rs,
            u,
        ));
    }
}

/// Validates that a record holds the rule's key and that the value under it
/// satisfies the referenced data type.
pub fn apply_contains_key(
    rule: DataTypeContainsKeyRuleConfig,
    body: &Value,
    available_data_types: &Vec<DataType>,
) -> (r: Result<(), DataTypeRuleError>)
    requires
        view_wf(body@),
    ensures
        r is Ok <==> rule_viols(body@, DataTypeRule::ContainsKey(rule), available_data_types@)
           .len() == 0,
        r matches Err(e) ==> e@ == rule_viols(
            body@,
            DataTypeRule::ContainsKey(rule),
            available_data_types@,
        ),
{
    apply_contains_key_at(&rule, body, available_data_types)
}

/// Validates that a list's every element satisfies the referenced data
/// type; the element reports are all accumulated.
pub fn apply_contains_type(
    rule: DataTypeContainsTypeRuleConfig,
    available_data_types: &Vec<DataType>,
    body: &Value,
) -> (r: Result<(), DataTypeRuleError>)
    requires
        view_wf(body@),
    ensures
        r is Ok <==> rule_viols(body@, DataTypeRule::ContainsType(rule), available_data_types@)
           .len() == 0,
        r matches Err(e) ==> e@ == rule_viols(
            body@,
            DataTypeRule::ContainsType(rule),
            available_data_types@,
        ),
{
    apply_contains_type_at(&rule, available_data_types, body)
}

/// Validates a flow's input against the flow's declared input type. Returns
/// `Ok` at once when the flow declares no input type; reports a missing
/// data type when the declared identifier is not in the universe; and
/// otherwise interprets the root type's rules on the input.
pub fn verify_flow(flow: &ValidationFlow, body: &Value) -> (r: Result<(), DataTypeRuleError>)
    requires
        view_wf(body@),
    ensures
        r is Ok <==> flow_viols(*flow, body@).len() == 0,
        r matches Err(e) ==> e@ == flow_viols(*flow, body@),
{
    let input_type: &String = match &flow.input_type_identifier {
        Some(t) => t,
        None => {
            return Ok(());
        },
    };
    match get_data_type_by_id(&flow.data_types, input_type.as_str()) {
        Some(dt) => verify_data_type_rules(&body, dt, &flow.data_types),
        None => {
            proof {
                assert(flow_viols(*flow, body@).len() == 1);
            }
            Err(err_of(DataTypeRuleViolation::DataTypeNotFound(DataTypeNotFoundRuleViolation {
                data_type: input_type.clone(),
            })))
        },
    }
}


/// How many rules of `rules` fail on `v` by themselves.
pub open spec fn failing_rule_count(v: ValueView, rules: Seq<DataTypeRule>, u: Seq<DataType>) -> nat
    decreases rules.len(),
{
    if rules.len() == 0 {
        0
    } else {
        (if rule_viols(v, rules.first(), u).len() > 0 {
            1nat
        } else {
            0nat
        }) + failing_rule_count(v, rules.drop_first(), u)
    }
}

/// Validator purity: the report is a function of the value, the type and
/// the universe alone, so two runs produce the same violations and the
/// same serialized report.
pub proof fn lemma_validator_pure(
    flow: ValidationFlow,
    body: ValueView,
    r1: Seq<ViolationV>,
    r2: Seq<ViolationV>,
)
    requires
        r1 == flow_viols(flow, body),
        r2 == flow_viols(flow, body),
    ensures
        r1 == r2,
        crate::violation::report_text(r1) == crate::violation::report_text(r2),
{
}

/// The empty-input rule: a flow that names no input type accepts every
/// input without a single violation.
pub proof fn lemma_no_input_type_accepts_all(flow: ValidationFlow, body: ValueView)
    requires
        flow.input_type_identifier is None,
    ensures
        flow_viols(flow, body).len() == 0,
{
}

/// Violation completeness: the report lists at least one violation for
/// every rule of the root type that fails on the input by itself.
pub proof fn lemma_violation_completeness(v: ValueView, rules: Seq<DataTypeRule>, u: Seq<DataType>)
    ensures
        rules_viols(v, rules, u).len() >= failing_rule_count(v, rules, u),
    decreases rules.len(),
{
    if rules.len() > 0 {
        lemma_violation_completeness(v, rules.drop_first(), u);
    }
}

/// The regex round trip: a string that a valid pattern matches passes the
/// regex rule without a violation.
pub proof fn lemma_regex_round_trip(pattern: Seq<char>, text: Seq<char>)
    requires
        regex_valid(pattern),
        regex_matches(pattern, text),
    ensures
        regex_rule_viols(pattern, ValueView::Str(text)).len() == 0,
{
}


/// Violation completeness at the flow level: when the flow's input type is
/// found, the report lists at least one violation for every failing rule of
/// that root type.
pub proof fn lemma_flow_violation_completeness(flow: ValidationFlow, body: ValueView)
    requires
        flow.input_type_identifier matches Some(t) && dt_lookup(flow.data_types@, t@) is Some,
    ensures
        flow_viols(flow, body).len() >= failing_rule_count(
            body,
            dt_lookup(
                flow.data_types@,
                flow.input_type_identifier->Some_0@,
            )->Some_0.rules@,
            flow.data_types@,
        ),
{
    let dt = dt_lookup(flow.data_types@, flow.input_type_identifier->Some_0@)->Some_0;
    lemma_violation_completeness(body, dt.rules@, flow.data_types@);
}

} // verus!
