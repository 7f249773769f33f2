//! Changes to the store, as they are reported to a client.

use crate::cmd::{command_frame, get_name, set_name, SpecCommand};
use crate::frame::{frames_view, lemma_frames_view, Frame};
use crate::wire::SpecFrame;
use vstd::prelude::*;

verus! {

/// The kind of change to a key.
#[derive(PartialEq, Eq, Hash)]
pub enum EventType {
    Delete(String),
    Change(String),
}

/// A change to a key: it was deleted, or it now holds a value.
pub enum Event {
    Delete(String),
    Change(String, Vec<u8>),
}

/// The frame a change is reported in.
pub open spec fn event_frame(key: Seq<char>, value: Option<Seq<u8>>) -> SpecFrame {
    match value {
        None => SpecFrame::Array(seq![SpecFrame::Simple(get_name()), SpecFrame::Simple(key)]),
        Some(v) => SpecFrame::Array(
            seq![SpecFrame::Simple(set_name()), SpecFrame::Simple(key), SpecFrame::Bulk(v)],
        ),
    }
}

impl Event {
    /// The frame a change is reported in: a deletion as a `GET` of the key,
    /// a new value as a `SET` of the key to it.
    pub fn parse_ro_frame(&self) -> (f: Frame)
        ensures
            f@ == match self {
                Event::Delete(key) => event_frame(key@, None),
                Event::Change(key, value) => event_frame(key@, Some(value@)),
            },
    {
        proof {
            reveal_strlit("GET");
            reveal_strlit("SET");
            assert("GET"@ =~= get_name());
            assert("SET"@ =~= set_name());
        }
        let mut frames: Vec<Frame> = Vec::new();
        match self {
            Event::Delete(key) => {
                frames.push(Frame::Simple("GET".to_owned()));
                frames.push(Frame::Simple(key.clone()));
            },
            Event::Change(key, value) => {
                frames.push(Frame::Simple("SET".to_owned()));
                frames.push(Frame::Simple(key.clone()));
                frames.push(Frame::Bulk(vstd::slice::slice_to_vec(value.as_slice())));
            },
        }
        proof {
            lemma_frames_view(frames@);
            match self {
                Event::Delete(key) => {
                    assert(frames_view(frames@) =~= event_frame(key@, None)->Array_0);
                },
                Event::Change(key, value) => {
                    assert(frames_view(frames@) =~= event_frame(key@, Some(value@))->Array_0);
                },
            }
        }
        Frame::Array(frames)
    }
}

/// A change is reported in the frame of the command that reads or makes it:
/// a deletion as the `GET` of the key, a new value as the `SET` of the key
/// to that value.
pub proof fn lemma_event_frames_are_command_frames(key: Seq<char>, value: Seq<u8>)
    ensures
        event_frame(key, None) == command_frame(SpecCommand::Get(key)),
        event_frame(key, Some(value)) == command_frame(SpecCommand::SetCmd(key, value)),
{
}

} // verus!
