//! The per-flow predicate of the cron shell: the flow's five schedule
//! settings are assembled into one expression, which must fire in the
//! minute the tick captured.

use vstd::prelude::*;

use crate::flow::{extract_flow_setting_field, setting_field_string, ValidationFlow};
use crate::matcher::IdentifiableFlow;

verus! {

pub uninterp spec fn cron_fires_at(expr: Seq<char>, minute: u64) -> bool;

/// Relies on cron::Schedule::from_str and Schedule::after, with the probe
/// instant rebuilt by chrono from the epoch minute: whether the expression
/// fires in that minute. An expression that does not parse never fires.
/// The outcome depends on the expression and the minute alone.
#[verifier::external_body]
fn cron_fires(expr: &str, minute: u64) -> (r: bool)
    ensures
        r == cron_fires_at(expr@, minute),
{
    let second = (minute as i64).saturating_mul(60);
    let parsed = <::cron::Schedule as core::str::FromStr>::from_str(expr);
    let instant = ::chrono::DateTime::from_timestamp(second, 0);
    match (parsed, instant) {
        (Ok(schedule), Some(start)) => match schedule.after(&start).next() {
            Some(next) => next.timestamp() < second + 60,
            None => false,
        },
        _ => false,
    }
}

/// The assembled cron expression of a flow's five schedule settings, with
/// the seconds field wildcarded.
pub open spec fn cron_expression(
    minute: Seq<char>,
    hour: Seq<char>,
    dom: Seq<char>,
    month: Seq<char>,
    dow: Seq<char>,
) -> Seq<char> {
    "* "@ + minute + " "@ + hour + " "@ + dom + " "@ + month + " "@ + dow
}

/// The cron predicate: a tick at one captured minute.
pub struct Time {
    pub now_minute: u64,
}

impl IdentifiableFlow for Time {
    open spec fn spec_identify(&self, flow: ValidationFlow) -> bool {
        match (
            setting_field_string(flow.settings@, "CRON_MINUTE"@, "minute"@),
            setting_field_string(flow.settings@, "CRON_HOUR"@, "hour"@),
            setting_field_string(flow.settings@, "CRON_DAY_OF_MONTH"@, "day_of_month"@),
            setting_field_string(flow.settings@, "CRON_MONTH"@, "month"@),
            setting_field_string(flow.settings@, "CRON_DAY_OF_WEEK"@, "day_of_week"@),
        ) {
            (Some(minute), Some(hour), Some(dom), Some(month), Some(dow)) => cron_fires_at(
                cron_expression(minute, hour, dom, month, dow),
                self.now_minute,
            ),
            _ => false,
        }
    }

    fn identify(&self, flow: &ValidationFlow) -> (r: bool)
        ensures
            r == self.spec_identify(*flow),
    {
        let minute = match extract_flow_setting_field(&flow.settings, "CRON_MINUTE", "minute") {
            Some(x) => x,
            None => {
                return false;
            },
        };
        let hour = match extract_flow_setting_field(&flow.settings, "CRON_HOUR", "hour") {
            Some(x) => x,
            None => {
                return false;
            },
        };
        let dom = match extract_flow_setting_field(
            &flow.settings,
            "CRON_DAY_OF_MONTH",
            "day_of_month",
        ) {
            Some(x) => x,
            None => {
                return false;
            },
        };
        let month = match extract_flow_setting_field(&flow.settings, "CRON_MONTH", "month") {
            Some(x) => x,
            None => {
                return false;
            },
        };
        let dow = match extract_flow_setting_field(
            &flow.settings,
            "CRON_DAY_OF_WEEK",
            "day_of_week",
        ) {
            Some(x) => x,
            None => {
                return false;
            },
        };
        let mut expr = String::new();
        expr.append("* ");
        expr.append(minute.as_str());
        expr.append(" ");
        expr.append(hour.as_str());
        expr.append(" ");
        expr.append(dom.as_str());
        expr.append(" ");
        expr.append(month.as_str());
        expr.append(" ");
        expr.append(dow.as_str());
        proof {
            assert(expr@ =~= cron_expression(minute@, hour@, dom@, month@, dow@));
        }
        cron_fires(expr.as_str(), self.now_minute)
    }
}

} // verus!
