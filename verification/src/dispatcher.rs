//! The dispatch pipeline to the executor: validate the input, derive the
//! executor-bound flow, encode it, and address it to a fresh correlation
//! topic; the reply decodes back into a value.

use vstd::prelude::*;

use crate::codec::{decode_value, encode_execution_flow, execution_flow_bytes, value_bytes};
use crate::flow::{ExecutionFlow, ValidationFlow};
use crate::validator::{flow_viols, verify_flow};
use crate::value::{view_wf, Value, ValueView};
use crate::violation::DataTypeRuleError;

verus! {

/// Relies on uuid::Uuid::new_v4 and its hyphenated text form: a fresh
/// 128-bit random identifier rendered as 36 characters.
#[verifier::external_body]
fn new_correlation_id() -> (r: String)
    ensures
        r@.len() == 36,
{
    uuid::Uuid::new_v4().to_string()
}

/// Derives the executor-bound flow: the program and addressing fields are
/// carried over, the type universe and settings are dropped, and the
/// validated input is attached.
pub fn convert_validation_flow(flow: ValidationFlow, input_value: Option<Value>) -> (r:
    ExecutionFlow)
    ensures
        r.flow_id == flow.flow_id,
        r.starting_node_id == flow.starting_node_id,
        r.node_functions == flow.node_functions,
        r.input_value == input_value,
{
    ExecutionFlow {
        flow_id: flow.flow_id,
        starting_node_id: flow.starting_node_id,
        input_value,
        node_functions: flow.node_functions,
    }
}

/// One encoded request to the executor: the reply topic carrying the fresh
/// correlation identifier, and the wire bytes of the execution flow.
pub struct ExecutionRequest {
    pub topic: String,
    pub correlation_id: String,
    pub payload: Vec<u8>,
}

/// Validates the input against the flow's input type and, when it passes,
/// builds the encoded executor request. A validation report is returned to
/// the caller; nothing is sent in that case.
pub fn prepare_flow_execution(flow: ValidationFlow, input_value: Option<Value>) -> (r: Result<
    ExecutionRequest,
    DataTypeRuleError,
>)
    requires
        input_value matches Some(b) ==> view_wf(b@),
    ensures
        match r {
            Ok(req) => {
                &&& (input_value matches Some(b) ==> flow_viols(flow, b@).len() == 0)
                &&& req.correlation_id@.len() == 36
                &&& req.topic@ == "execution."@ + req.correlation_id@
                &&& req.payload@ == execution_flow_bytes(
                    (ExecutionFlow {
                        flow_id: flow.flow_id,
                        starting_node_id: flow.starting_node_id,
                        input_value,
                        node_functions: flow.node_functions,
                    }),
                )
            },
            Err(e) => {
                &&& input_value matches Some(b) && flow_viols(flow, b@).len() > 0
                &&& input_value matches Some(b) ==> e@ == flow_viols(flow, b@)
            },
        },
{
    if let Some(body) = &input_value {
        let outcome = verify_flow(&flow, body);
        if let Err(report) = outcome {
            return Err(report);
        }
    }
    let correlation_id = new_correlation_id();
    let mut topic = String::new();
    topic.append("execution.");
    topic.append(correlation_id.as_str());
    let execution_flow = convert_validation_flow(flow, input_value);
    let payload = encode_execution_flow(&execution_flow);
    proof {
        assert(topic@ =~= "execution."@ + correlation_id@);
    }
    Ok(ExecutionRequest { topic, correlation_id, payload })
}

/// Decodes the executor's reply: the payload must be exactly one value.
/// Exactly the payloads that are one whole value encoding decode.
pub fn decode_execution_reply(payload: &Vec<u8>) -> (r: Option<Value>)
    ensures
        r matches Some(v) ==> payload@ == value_bytes(v@),
        r is None ==> forall|v: ValueView|
            !(crate::codec::view_bounded(v) && payload@ == #[trigger] value_bytes(v)),
{
    let plen = payload.len();
    match decode_value(payload, 0) {
        Some((v, consumed)) => {
            if consumed == plen {
                proof {
                    assert(payload@.subrange(0, payload@.len() as int) =~= payload@);
                }
                Some(v)
            } else {
                proof {
                    let ghost dv = v@;
                    assert forall|w: ValueView|
                        !(crate::codec::view_bounded(w) && payload@ == #[trigger] value_bytes(
                            w,
                        )) by {
                        if crate::codec::view_bounded(w) && payload@ == value_bytes(w) {
                            crate::codec::lemma_value_bytes_shape(w);
                            crate::codec::lemma_vview_bounded(v);
                            assert(payload@.subrange(0, plen as int) =~= payload@);
                            crate::codec::lemma_value_prefix(
                                payload@,
                                0,
                                dv,
                                consumed as int,
                                w,
                                plen as int,
                            );
                            assert(false);
                        }
                    }
                }
                None
            }
        },
        None => {
            proof {
                assert forall|w: ValueView|
                    !(crate::codec::view_bounded(w) && payload@ == #[trigger] value_bytes(w)) by {
                    if crate::codec::view_bounded(w) && payload@ == value_bytes(w) {
                        crate::codec::lemma_value_bytes_shape(w);
                        assert(payload@.subrange(0, plen as int) =~= payload@);
                        assert(!(crate::codec::view_bounded(w) && 0 < plen <= payload@.len()
                            && payload@.subrange(0, plen as int) == value_bytes(w)));
                        assert(false);
                    }
                }
            }
            None
        },
    }
}

} // verus!
