//! The records of an evaluation log, and what each stands for.

use vstd::prelude::*;
use crate::role::ChatMessageRole;

verus! {

/// One message of a transcript.
#[derive(Debug, Clone, PartialEq, Eq)]
pub struct ChatMessage {
    pub role: ChatMessageRole,
    pub content: String,
}

/// What a message says, as plain values.
pub struct MessageView {
    pub role: ChatMessageRole,
    pub content: Seq<char>,
}

impl View for ChatMessage {
    type V = MessageView;

    open spec fn view(&self) -> MessageView {
        MessageView { role: self.role, content: self.content@ }
    }
}

/// The samples a log was run on.
#[derive(Debug, Clone, PartialEq, Eq)]
pub struct EvalDataset {
    pub name: String,
    pub sample_ids: Vec<String>,
}

/// The limits a log was run with.
#[derive(Debug, Clone, PartialEq, Eq)]
pub struct EvalLogConfig {
    pub epochs: u32,
    pub message_limit: u32,
}

/// The task a log belongs to.
#[derive(Debug, Clone, PartialEq, Eq)]
pub struct EvalSpec {
    pub run_id: String,
    pub task: String,
}

/// The head of a log.
#[derive(Debug, Clone, PartialEq, Eq)]
pub struct EvalLogHeader {
    pub eval: EvalSpec,
    pub dataset: EvalDataset,
    pub config: EvalLogConfig,
}

/// One decoded sample. `messages` has one place for each message of the
/// record, in the record's order; a message that the filter turned down
/// leaves its place empty.
#[derive(Debug, Clone, PartialEq, Eq)]
pub struct EvalSample {
    pub id: String,
    pub epoch: i64,
    pub messages: Vec<Option<ChatMessage>>,
}

/// What a sample holds, as plain values.
pub struct SampleView {
    pub id: Seq<char>,
    pub epoch: i64,
    pub messages: Seq<Option<MessageView>>,
}

/// The view of one place of a transcript.
pub open spec fn place_view(place: Option<ChatMessage>) -> Option<MessageView> {
    match place {
        Some(message) => Some(message@),
        None => None,
    }
}

/// The views of the places of a transcript, in order.
pub open spec fn places_view(places: Seq<Option<ChatMessage>>) -> Seq<Option<MessageView>> {
    Seq::new(places.len(), |i: int| place_view(places[i]))
}

impl View for EvalSample {
    type V = SampleView;

    open spec fn view(&self) -> SampleView {
        SampleView { id: self.id@, epoch: self.epoch, messages: places_view(self.messages@) }
    }
}

} // verus!
