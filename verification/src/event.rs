//! The typed events of the streaming protocol and their mathematical model.

use vstd::prelude::*;

verus! {

/// One decoded event of the agent stream.
#[derive(Debug, Clone)]
pub enum AgentEvent {
    FileWrite { path: String, content: String },
    Status { message: String },
    Done { summary: String, files: Vec<String> },
    Error { message: String },
}

/// The mathematical model of an event: the same shape over character
/// sequences.
pub enum EventModel {
    FileWrite { path: Seq<char>, content: Seq<char> },
    Status { message: Seq<char> },
    Done { summary: Seq<char>, files: Seq<Seq<char>> },
    Error { message: Seq<char> },
}

impl AgentEvent {
    /// The model of this event.
    pub open spec fn model(&self) -> EventModel {
        match self {
            AgentEvent::FileWrite { path, content } => EventModel::FileWrite {
                path: path@,
                content: content@,
            },
            AgentEvent::Status { message } => EventModel::Status { message: message@ },
            AgentEvent::Done { summary, files } => EventModel::Done {
                summary: summary@,
                files: files.deep_view(),
            },
            AgentEvent::Error { message } => EventModel::Error { message: message@ },
        }
    }
}

} // verus!
