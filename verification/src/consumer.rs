//! What the consumer does with each poll of the topic.
use vstd::prelude::*;
use crate::ingest::{frames_json, json_frame, lossy_utf8, parsed_json, try_deserializer};
use crate::json::JsonValue;

verus! {

/// What a poll of the topic brought.
#[derive(Debug)]
pub enum PollOutcome {
    /// No message within the poll interval.
    Nothing,
    /// The poll failed.
    Failed,
    /// A message, with its payload when it has one.
    Message(Option<Vec<u8>>),
}

/// What the consumer does next.
#[derive(Debug)]
pub enum ConsumerAction {
    /// Poll again.
    Wait,
    /// Report the failed poll, then poll again.
    ReportError,
    /// Report a message without payload, then poll again.
    ReportMissingPayload,
    /// Insert this JSON document as a row, then poll again.
    Insert(JsonValue),
    /// Stop: the payload frames no JSON document, or what it frames does
    /// not parse.
    Abort,
}

/// Decides what to do with the outcome of a poll: wait on nothing, report
/// a failure or a message without payload, and insert the JSON document
/// that a payload frames; a payload that frames none, or frames text that
/// does not parse, stops the consumer.
pub fn next_action(outcome: PollOutcome) -> (r: ConsumerAction)
    ensures
        outcome is Nothing ==> r is Wait,
        outcome is Failed ==> r is ReportError,
        outcome == PollOutcome::Message(None) ==> r is ReportMissingPayload,
        forall|p: Vec<u8>| outcome == PollOutcome::Message(Some(p)) ==> {
            &&& (r is Abort <==> !frames_json(lossy_utf8(p@)) || parsed_json(json_frame(lossy_utf8(p@))) is None)
            &&& (r matches ConsumerAction::Insert(j) ==> frames_json(lossy_utf8(p@)) && parsed_json(
                json_frame(lossy_utf8(p@)),
            ) == Some(j))
            &&& (r is Insert || r is Abort)
        },
{
    match outcome {
        PollOutcome::Nothing => ConsumerAction::Wait,
        PollOutcome::Failed => ConsumerAction::ReportError,
        PollOutcome::Message(None) => ConsumerAction::ReportMissingPayload,
        PollOutcome::Message(Some(payload)) => match try_deserializer(payload.as_slice()) {
            Some(document) => ConsumerAction::Insert(document),
            None => ConsumerAction::Abort,
        },
    }
}

} // verus!
