//! Flows, their typed input schemas, and their settings: the declarative
//! records the registry stores and the adapters interpret.

use vstd::prelude::*;

use crate::strutil::str_eq;
use crate::value::{field_views_of, lemma_field_views_of_index, rec_lookup, Value, ValueView};

verus! {

/// A reference to a data type: a concrete identifier, or a generic
/// parameter, which the rule interpreter rejects.
#[derive(PartialEq, Debug)]
pub enum DataTypeIdentifier {
    DataTypeIdentifier(String),
    GenericType(String),
}

#[derive(Clone, PartialEq, Debug)]
pub struct DataTypeRegexRuleConfig {
    pub pattern: String,
}

#[derive(Clone, Copy, PartialEq, Eq, Structural, Debug)]
pub struct DataTypeNumberRangeRuleConfig {
    pub from: i64,
    pub to: i64,
    pub steps: Option<i64>,
}

#[derive(Clone, PartialEq, Debug)]
pub struct DataTypeItemOfCollectionRuleConfig {
    pub items: Vec<Value>,
}

#[derive(PartialEq, Debug)]
pub struct DataTypeContainsKeyRuleConfig {
    pub key: String,
    pub data_type_identifier: Option<DataTypeIdentifier>,
}

#[derive(PartialEq, Debug)]
pub struct DataTypeContainsTypeRuleConfig {
    pub data_type_identifier: Option<DataTypeIdentifier>,
}

/// One rule of a data type.
#[derive(PartialEq, Debug)]
pub enum DataTypeRule {
    Regex(DataTypeRegexRuleConfig),
    NumberRange(DataTypeNumberRangeRuleConfig),
    ItemOfCollection(DataTypeItemOfCollectionRuleConfig),
    ContainsKey(DataTypeContainsKeyRuleConfig),
    ContainsType(DataTypeContainsTypeRuleConfig),
}

/// A named collection of rules constraining a value.
#[derive(PartialEq, Debug)]
pub struct DataType {
    pub identifier: String,
    pub parent_identifier: Option<String>,
    pub rules: Vec<DataTypeRule>,
}

/// One configuration record of a flow, read by the adapter shells.
#[derive(PartialEq, Debug)]
pub struct FlowSetting {
    pub setting_id: String,
    pub object: Vec<(String, Value)>,
}

#[derive(PartialEq, Debug)]
pub enum NodeParameterValue {
    LiteralValue(Value),
    ReferenceValue(String),
}

#[derive(PartialEq, Debug)]
pub struct NodeParameter {
    pub parameter_id: String,
    pub runtime_parameter_id: String,
    pub value: Option<NodeParameterValue>,
}

#[derive(PartialEq, Debug)]
pub struct NodeFunction {
    pub function_id: String,
    pub runtime_function_id: String,
    pub parameters: Vec<NodeParameter>,
}

/// A flow as the registry stores it: its program, its settings, and the
/// closed universe of data types its input schema refers to.
#[derive(PartialEq, Debug)]
pub struct ValidationFlow {
    pub flow_id: i64,
    pub starting_node_id: i64,
    pub node_functions: Vec<NodeFunction>,
    pub settings: Vec<FlowSetting>,
    pub input_type_identifier: Option<String>,
    pub data_types: Vec<DataType>,
}

/// The subset of a flow forwarded to the executor, with the validated
/// input attached.
#[derive(PartialEq, Debug)]
pub struct ExecutionFlow {
    pub flow_id: i64,
    pub starting_node_id: i64,
    pub input_value: Option<Value>,
    pub node_functions: Vec<NodeFunction>,
}

/// The first data type of `dts` carrying `id`.
pub open spec fn dt_lookup(dts: Seq<DataType>, id: Seq<char>) -> Option<DataType>
    decreases dts.len(),
{
    if dts.len() == 0 {
        None
    } else if dts.first().identifier@ == id {
        Some(dts.first())
    } else {
        dt_lookup(dts.drop_first(), id)
    }
}

proof fn lemma_dt_lookup_at(dts: Seq<DataType>, id: Seq<char>, j: int)
    requires
        0 <= j < dts.len(),
        dts[j].identifier@ == id,
        forall|k: int| 0 <= k < j ==> (#[trigger] dts[k]).identifier@ != id,
    ensures
        dt_lookup(dts, id) == Some(dts[j]),
    decreases dts.len(),
{
    if j == 0 {
        assert(dts[0] == dts.first());
    } else {
        assert(dts[0].identifier@ != id);
        assert(forall|k: int| 0 <= k < j - 1 ==> #[trigger] dts.drop_first()[k] == dts[k + 1]);
        lemma_dt_lookup_at(dts.drop_first(), id, j - 1);
    }
}

proof fn lemma_dt_lookup_absent(dts: Seq<DataType>, id: Seq<char>)
    requires
        forall|k: int| 0 <= k < dts.len() ==> (#[trigger] dts[k]).identifier@ != id,
    ensures
        dt_lookup(dts, id) is None,
    decreases dts.len(),
{
    if dts.len() > 0 {
        assert(dts[0].identifier@ != id);
        assert(forall|k: int|
            0 <= k < dts.len() - 1 ==> #[trigger] dts.drop_first()[k] == dts[k + 1]);
        lemma_dt_lookup_absent(dts.drop_first(), id);
    }
}

/// Finds the data type named `identifier` in the universe.
pub fn get_data_type_by_id<'a>(data_types: &'a Vec<DataType>, identifier: &str) -> (r: Option<
    &'a DataType,
>)
    ensures
        match dt_lookup(data_types@, identifier@) {
            Some(dt) => r is Some && *r->Some_0 == dt,
            None => r is None,
        },
{
    let mut i: usize = 0;
    while i < data_types.len()
        invariant
            0 <= i <= data_types@.len(),
            forall|k: int| 0 <= k < i ==> (#[trigger] data_types@[k]).identifier@ != identifier@,
        decreases data_types@.len() - i,
    {
        if str_eq(data_types[i].identifier.as_str(), identifier) {
            proof {
                lemma_dt_lookup_at(data_types@, identifier@, i as int);
            }
            return Some(&data_types[i]);
        }
        i = i + 1;
    }
    proof {
        lemma_dt_lookup_absent(data_types@, identifier@);
    }
    None
}

/// What one setting contributes to a field lookup: the string under
/// `field` in its object, when the setting carries `id` at all.
pub open spec fn setting_contribution(s: FlowSetting, id: Seq<char>, field: Seq<char>) -> Option<
    Seq<char>,
> {
    if s.setting_id@ == id {
        match rec_lookup(field_views_of(s.object@), field) {
            Some(ValueView::Str(text)) => Some(text),
            _ => None,
        }
    } else {
        None
    }
}

/// The string under `(id, field)` in a settings list: the first setting
/// that carries `id` and holds a string under `field` decides.
pub open spec fn setting_field_string(
    ss: Seq<FlowSetting>,
    id: Seq<char>,
    field: Seq<char>,
) -> Option<Seq<char>>
    decreases ss.len(),
{
    if ss.len() == 0 {
        None
    } else if setting_contribution(ss.first(), id, field) is Some {
        setting_contribution(ss.first(), id, field)
    } else {
        setting_field_string(ss.drop_first(), id, field)
    }
}

proof fn lemma_setting_field_at(ss: Seq<FlowSetting>, id: Seq<char>, field: Seq<char>, j: int)
    requires
        0 <= j < ss.len(),
        setting_contribution(ss[j], id, field) is Some,
        forall|k: int| 0 <= k < j ==> setting_contribution(#[trigger] ss[k], id, field) is None,
    ensures
        setting_field_string(ss, id, field) == setting_contribution(ss[j], id, field),
    decreases ss.len(),
{
    if j == 0 {
        assert(ss[0] == ss.first());
    } else {
        assert(setting_contribution(ss[0], id, field) is None);
        assert(forall|k: int| 0 <= k < j - 1 ==> #[trigger] ss.drop_first()[k] == ss[k + 1]);
        lemma_setting_field_at(ss.drop_first(), id, field, j - 1);
    }
}

proof fn lemma_setting_field_absent(ss: Seq<FlowSetting>, id: Seq<char>, field: Seq<char>)
    requires
        forall|k: int|
            0 <= k < ss.len() ==> setting_contribution(#[trigger] ss[k], id, field) is None,
    ensures
        setting_field_string(ss, id, field) is None,
    decreases ss.len(),
{
    if ss.len() > 0 {
        assert(setting_contribution(ss[0], id, field) is None);
        assert(forall|k: int|
            0 <= k < ss.len() - 1 ==> #[trigger] ss.drop_first()[k] == ss[k + 1]);
        lemma_setting_field_absent(ss.drop_first(), id, field);
    }
}

/// Reads the string-valued field `field_name` of the setting `def_key`:
/// the single settings lookup `settings[id].object[field]`.
pub fn extract_flow_setting_field(
    settings: &Vec<FlowSetting>,
    def_key: &str,
    field_name: &str,
) -> (r: Option<String>)
    ensures
        match setting_field_string(settings@, def_key@, field_name@) {
            Some(text) => r is Some && r->Some_0@ == text,
            None => r is None,
        },
{
    let mut i: usize = 0;
    while i < settings.len()
        invariant
            0 <= i <= settings@.len(),
            forall|k: int|
                0 <= k < i ==> setting_contribution(#[trigger] settings@[k], def_key@, field_name@)
                    is None,
        decreases settings@.len() - i,
    {
        let setting = &settings[i];
        if str_eq(setting.setting_id.as_str(), def_key) {
            proof {
                lemma_field_views_of_index(setting.object@);
            }
            match crate::path::find_field(&setting.object, field_name) {
                Some(Value::String(text)) => {
                    proof {
                        lemma_setting_field_at(settings@, def_key@, field_name@, i as int);
                    }
                    return Some(text.clone());
                },
                Some(other) => {
                    proof {
                        crate::value::lemma_vview_variants(*other);
                    }
                },
                None => {},
            }
        }
        i = i + 1;
    }
    proof {
        lemma_setting_field_absent(settings@, def_key@, field_name@);
    }
    None
}

} // verus!
