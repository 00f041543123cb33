//! The request translator: the one exported operation. Given a raw
//! payload it counts the request as seen, decodes the payload against
//! the schema, and either wraps the validated configuration as a command
//! or counts the request as failed and forwards the classified error
//! unchanged.

use vstd::prelude::*;

use crate::config::{wrap, Command, CommandView, DecodeError, DecodeErrorView, LoggerConfigView};
use crate::decode::decode_payload;
use crate::grammar::decode;
use crate::metrics::{sat_inc, Metrics};

verus! {

/// Translates one untrusted payload into a trusted command or a
/// classified error. The outcome is exactly [`decode`] of the payload's
/// bytes — a pure function of its content. The seen counter is
/// incremented exactly once whatever the outcome; the failure counter
/// exactly once on failure and not at all on success.
pub fn translate(metrics: &mut Metrics, payload: &[u8]) -> (r: Result<Command, DecodeError>)
    ensures
        final(metrics).seen == sat_inc(old(metrics).seen),
        (match r {
            Ok(cmd) => decode(payload@) is Ok && cmd@ == CommandView::ConfigureLogger(
                decode(payload@)->Ok_0,
            ) && final(metrics).failed == old(metrics).failed,
            Err(e) => decode(payload@) == Err::<LoggerConfigView, DecodeErrorView>(e@)
                && final(metrics).failed == sat_inc(old(metrics).failed),
        }),
{
    metrics.record_seen();
    match decode_payload(payload) {
        Ok(config) => Ok(wrap(config)),
        Err(e) => {
            metrics.record_failed();
            Err(e)
        },
    }
}

} // verus!
