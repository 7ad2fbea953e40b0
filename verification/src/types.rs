//! The declared flow and data types the HTTP adapter pushes to the control
//! plane and validates against.

use vstd::prelude::*;

use crate::flow::{
    DataType, DataTypeContainsKeyRuleConfig, DataTypeContainsTypeRuleConfig, DataTypeIdentifier,
    DataTypeItemOfCollectionRuleConfig, DataTypeRegexRuleConfig, DataTypeRule, FlowSetting,
};
use crate::value::{Value, ValueView};

verus! {

/// One translated piece of text.
#[derive(PartialEq, Debug)]
pub struct Translation {
    pub code: String,
    pub content: String,
}

/// One kind of flow the adapter can host.
#[derive(PartialEq, Debug)]
pub struct FlowType {
    pub identifier: String,
    pub settings: Vec<FlowSetting>,
    pub input_type_identifier: Option<String>,
    pub return_type_identifier: Option<String>,
    pub editable: bool,
    pub name: Vec<Translation>,
    pub description: Vec<Translation>,
    pub documentation: Vec<Translation>,
}

/// Whether a rule requires `key` to hold a value of the concrete type `id`.
pub open spec fn rule_is_contains_key(rule: DataTypeRule, key: Seq<char>, id: Seq<char>) -> bool {
    rule matches DataTypeRule::ContainsKey(c) && (c.key@ == key && (
    c.data_type_identifier matches Some(DataTypeIdentifier::DataTypeIdentifier(s)) && s@ == id))
}

/// Whether a rule requires every element to satisfy the concrete type `id`.
pub open spec fn rule_is_contains_type(rule: DataTypeRule, id: Seq<char>) -> bool {
    rule matches DataTypeRule::ContainsType(c) && (
    c.data_type_identifier matches Some(DataTypeIdentifier::DataTypeIdentifier(s)) && s@ == id)
}

fn translation(code: &str, content: &str) -> (r: Translation)
    ensures
        r.code@ == code@,
        r.content@ == content@,
{
    Translation { code: code.to_owned(), content: content.to_owned() }
}

/// The flow types the HTTP adapter declares: one, the REST endpoint.
pub fn get_flow_types() -> (r: Vec<FlowType>)
    ensures
        r@.len() == 1,
        r@[0].identifier@ == "REST"@,
        r@[0].settings@.len() == 0,
        r@[0].input_type_identifier matches Some(t) && t@ == "HTTP_REQUEST_OBJECT"@,
        r@[0].return_type_identifier matches Some(t) && t@ == "HTTP_RESPONSE_OBJECT"@,
        r@[0].editable,
        r@[0].name@.len() == 1 && r@[0].name@[0].code@ == "en-US"@,
        r@[0].description@.len() == 1 && r@[0].documentation@.len() == 1,
{
    let description = "A REST API is a web service that lets clients interact with data on a server using standard HTTP methods like GET, POST, PUT, and DELETE, usually returning results in JSON format.";
    let mut name = Vec::new();
    name.push(translation("en-US", "Rest Endpoint"));
    let mut descriptions = Vec::new();
    descriptions.push(translation("en-US", description));
    let mut documentation = Vec::new();
    documentation.push(translation("en-US", description));
    let mut out = Vec::new();
    out.push(FlowType {
        identifier: "REST".to_owned(),
        settings: Vec::new(),
        input_type_identifier: Some("HTTP_REQUEST_OBJECT".to_owned()),
        return_type_identifier: Some("HTTP_RESPONSE_OBJECT".to_owned()),
        editable: true,
        name,
        description: descriptions,
        documentation,
    });
    out
}

fn concrete(id: &str) -> (r: Option<DataTypeIdentifier>)
    ensures
        r matches Some(DataTypeIdentifier::DataTypeIdentifier(s)) && s@ == id@,
{
    Some(DataTypeIdentifier::DataTypeIdentifier(id.to_owned()))
}

fn contains_key_rule(key: &str, id: &str) -> (r: DataTypeRule)
    ensures
        r matches DataTypeRule::ContainsKey(c) && (c.key@ == key@ && (
        c.data_type_identifier matches Some(DataTypeIdentifier::DataTypeIdentifier(s)) && s@
            == id@)),
{
    DataTypeRule::ContainsKey(DataTypeContainsKeyRuleConfig {
        key: key.to_owned(),
        data_type_identifier: concrete(id),
    })
}

/// The data types the HTTP adapter declares: the method and URL scalars,
/// the header list and entry shapes, and the request and response objects.
pub fn get_data_types() -> (r: Vec<DataType>)
    ensures
        r@.len() == 6,
        r@[0].identifier@ == "HTTP_METHOD"@,
        r@[1].identifier@ == "HTTP_URL"@,
        r@[2].identifier@ == "HTTP_HEADER_MAP"@,
        r@[3].identifier@ == "HTTP_HEADER_ENTRY"@,
        r@[4].identifier@ == "HTTP_REQUEST_OBJECT"@,
        r@[5].identifier@ == "HTTP_RESPONSE_OBJECT"@,
        r@[0].rules@.len() == 1,
        r@[1].rules@.len() == 1,
        r@[2].rules@.len() == 1,
        r@[3].rules@.len() == 2,
        r@[4].rules@.len() == 4,
        r@[5].rules@.len() == 2,
        r@[0].rules@[0] matches DataTypeRule::ItemOfCollection(c) && {
            &&& c.items@.len() == 6
            &&& crate::value::vview(c.items@[0]) == ValueView::Str("GET"@)
            &&& crate::value::vview(c.items@[1]) == ValueView::Str("POST"@)
            &&& crate::value::vview(c.items@[2]) == ValueView::Str("PUT"@)
            &&& crate::value::vview(c.items@[3]) == ValueView::Str("DELETE"@)
            &&& crate::value::vview(c.items@[4]) == ValueView::Str("PATCH"@)
            &&& crate::value::vview(c.items@[5]) == ValueView::Str("HEAD"@)
        },
        r@[1].rules@[0] matches DataTypeRule::Regex(c) && c.pattern@
            == "^\\/\\w+(?:[.:~-]\\w+)*(?:\\/\\w+(?:[.:~-]\\w+)*)*$"@,
        rule_is_contains_type(r@[2].rules@[0], "HTTP_HEADER_ENTRY"@),
        rule_is_contains_key(r@[3].rules@[0], "key"@, "TEXT"@),
        rule_is_contains_key(r@[3].rules@[1], "value"@, "TEXT"@),
        rule_is_contains_key(r@[4].rules@[0], "method"@, "HTTP_METHOD"@),
        rule_is_contains_key(r@[4].rules@[1], "url"@, "HTTP_URL"@),
        rule_is_contains_key(r@[4].rules@[2], "body"@, "OBJECT"@),
        rule_is_contains_key(r@[4].rules@[3], "headers"@, "HTTP_HEADER_MAP"@),
        rule_is_contains_key(r@[5].rules@[0], "body"@, "OBJECT"@),
        rule_is_contains_key(r@[5].rules@[1], "headers"@, "HTTP_HEADER_MAP"@),
        r@[0].parent_identifier is None,
        r@[1].parent_identifier is None,
        r@[2].parent_identifier matches Some(p) && p@ == "ARRAY"@,
        r@[3].parent_identifier matches Some(p) && p@ == "OBJECT"@,
        r@[4].parent_identifier matches Some(p) && p@ == "OBJECT"@,
        r@[5].parent_identifier matches Some(p) && p@ == "OBJECT"@,
{
    let mut methods: Vec<Value> = Vec::new();
    methods.push(Value::String("GET".to_owned()));
    methods.push(Value::String("POST".to_owned()));
    methods.push(Value::String("PUT".to_owned()));
    methods.push(Value::String("DELETE".to_owned()));
    methods.push(Value::String("PATCH".to_owned()));
    methods.push(Value::String("HEAD".to_owned()));
    let mut method_rules = Vec::new();
    method_rules.push(DataTypeRule::ItemOfCollection(DataTypeItemOfCollectionRuleConfig {
        items: methods,
    }));

    let mut url_rules = Vec::new();
    url_rules.push(DataTypeRule::Regex(DataTypeRegexRuleConfig {
        pattern: "^\\/\\w+(?:[.:~-]\\w+)*(?:\\/\\w+(?:[.:~-]\\w+)*)*$".to_owned(),
    }));

    let mut header_map_rules = Vec::new();
    header_map_rules.push(DataTypeRule::ContainsType(DataTypeContainsTypeRuleConfig {
        data_type_identifier: concrete("HTTP_HEADER_ENTRY"),
    }));

    let mut header_entry_rules = Vec::new();
    header_entry_rules.push(contains_key_rule("key", "TEXT"));
    header_entry_rules.push(contains_key_rule("value", "TEXT"));

    let mut request_rules = Vec::new();
    request_rules.push(contains_key_rule("method", "HTTP_METHOD"));
    request_rules.push(contains_key_rule("url", "HTTP_URL"));
    request_rules.push(contains_key_rule("body", "OBJECT"));
    request_rules.push(contains_key_rule("headers", "HTTP_HEADER_MAP"));

    let mut response_rules = Vec::new();
    response_rules.push(contains_key_rule("body", "OBJECT"));
    response_rules.push(contains_key_rule("headers", "HTTP_HEADER_MAP"));

    let mut out: Vec<DataType> = Vec::new();
    out.push(DataType {
        identifier: "HTTP_METHOD".to_owned(),
        parent_identifier: None,
        rules: method_rules,
    });
    out.push(DataType {
        identifier: "HTTP_URL".to_owned(),
        parent_identifier: None,
        rules: url_rules,
    });
    out.push(DataType {
        identifier: "HTTP_HEADER_MAP".to_owned(),
        parent_identifier: Some("ARRAY".to_owned()),
        rules: header_map_rules,
    });
    out.push(DataType {
        identifier: "HTTP_HEADER_ENTRY".to_owned(),
        parent_identifier: Some("OBJECT".to_owned()),
        rules: header_entry_rules,
    });
    out.push(DataType {
        identifier: "HTTP_REQUEST_OBJECT".to_owned(),
        parent_identifier: Some("OBJECT".to_owned()),
        rules: request_rules,
    });
    out.push(DataType {
        identifier: "HTTP_RESPONSE_OBJECT".to_owned(),
        parent_identifier: Some("OBJECT".to_owned()),
        rules: response_rules,
    });
    out
}

} // verus!
