//! Errors reported by the frame reader, the command decoder and the store.

use vstd::prelude::*;

verus! {

/// Why a frame could not be read, checked or converted.
#[derive(Debug)]
pub enum FrameError {
    /// The cursor has no byte left to read ("src has no data").
    NoData,
    /// No `\r\n` terminates the line that was asked for ("buffer has no line").
    NoLine,
    /// The completeness check met a head byte it does not know, or an array
    /// without a readable length ("failed to check data").
    CheckFailed,
    /// The parser met a head byte it does not know
    /// ("failed to parse frame : frame head error!").
    InvalidHead,
    /// The bytes of a simple string or an error string are not UTF-8.
    InvalidUtf8,
    /// The frame does not carry a string ("failed to parse to string!").
    NotAString,
    /// The frame is an error reply; it carries the reply's message.
    ErrorReply(String),
    /// The frame is an array and carries no bytes ("error response!").
    NotBytes,
    /// The frame is not an array of strings.
    NotAStringList,
}

/// Why a frame could not be read as a command.
#[derive(Debug, Clone, Copy, PartialEq, Eq)]
pub enum CommandError {
    /// The frame is not an array ("error frame!not a command!").
    NotACommand,
    /// The array does not start with a simple string naming the command
    /// ("failed to get command from frame").
    NoCommandName,
}

/// Why a message could not be published.
#[derive(Debug, Clone, Copy, PartialEq, Eq)]
pub enum PublishError {
    /// Nobody had subscribed to the channel yet ("This channel has no subscriber!").
    NoSubscriber,
    /// The channel is registered but every receiver is gone.
    NoReceiver,
}

} // verus!
