//! Commands a client sends, and how they travel in frames.

use crate::error::CommandError;
use crate::frame::{frames_view, lemma_frames_view, Frame};
use crate::ext::be_bytes_i64;
use crate::wire::SpecFrame;
use vstd::utf8::encode_utf8;
use vstd::prelude::*;

verus! {

/// The name of the `GET` command.
pub open spec fn get_name() -> Seq<char> {
    seq!['G', 'E', 'T']
}

/// The name of the `DEL` command.
pub open spec fn del_name() -> Seq<char> {
    seq!['D', 'E', 'L']
}

/// The name of the `SET` command.
pub open spec fn set_name() -> Seq<char> {
    seq!['S', 'E', 'T']
}

/// The name of the `PUBLISH` command.
pub open spec fn publish_name() -> Seq<char> {
    seq!['P', 'U', 'B', 'L', 'I', 'S', 'H']
}

/// The name of the `SUBSCRIBE` command.
pub open spec fn subscribe_name() -> Seq<char> {
    seq!['S', 'U', 'B', 'S', 'C', 'R', 'I', 'B', 'E']
}

/// The name of the `UNSUBSCRIBE` command.
pub open spec fn unsubscribe_name() -> Seq<char> {
    seq!['U', 'N', 'S', 'U', 'B', 'S', 'C', 'R', 'I', 'B', 'E']
}

/// The texts of a list of strings.
pub open spec fn strings_view(v: Seq<String>) -> Seq<Seq<char>> {
    v.map_values(|s: String| s@)
}

/// Reads the value under a key.
pub struct Get {
    pub key: String,
}

impl Get {
    pub fn new(key: &str) -> (g: Get)
        ensures
            g.key@ == key@,
    {
        Get { key: key.to_owned() }
    }
}

/// Deletes a key and its value.
pub struct Del {
    pub key: String,
}

impl Del {
    pub fn new(key: &str) -> (d: Del)
        ensures
            d.key@ == key@,
    {
        Del { key: key.to_owned() }
    }
}

/// Stores a value under a key.
pub struct SetCmd {
    pub key: String,
    pub value: Vec<u8>,
}

impl SetCmd {
    pub fn new(key: &str, value: Vec<u8>) -> (s: SetCmd)
        ensures
            s.key@ == key@,
            s.value@ == value@,
    {
        SetCmd { key: key.to_owned(), value }
    }
}

/// Sends a message to the subscribers of a channel.
pub struct Publish {
    pub key: String,
    pub value: Vec<u8>,
}

/// Subscribes to channels.
pub struct Subscribe {
    pub channels: Vec<String>,
}

impl Subscribe {
    pub fn from_vec(channels: Vec<String>) -> (s: Subscribe)
        ensures
            s.channels@ == channels@,
    {
        Subscribe { channels }
    }
}

/// Ends subscriptions to channels.
pub struct UnSubscribe {
    pub channels: Vec<String>,
}

/// A command of the protocol.
pub enum Command {
    Get(Get),
    SetCmd(SetCmd),
    Del(Del),
    Subscribe(Subscribe),
    UnSubscribe(UnSubscribe),
    Publish(Publish),
    Unknown,
}

/// A command as a mathematical value.
pub enum SpecCommand {
    Get(Seq<char>),
    SetCmd(Seq<char>, Seq<u8>),
    Del(Seq<char>),
    Subscribe(Seq<Seq<char>>),
    UnSubscribe(Seq<Seq<char>>),
    Publish(Seq<char>, Seq<u8>),
    Unknown,
}

impl View for Command {
    type V = SpecCommand;

    open spec fn view(&self) -> SpecCommand {
        match self {
            Command::Get(g) => SpecCommand::Get(g.key@),
            Command::Del(d) => SpecCommand::Del(d.key@),
            Command::SetCmd(s) => SpecCommand::SetCmd(s.key@, s.value@),
            Command::Subscribe(s) => SpecCommand::Subscribe(strings_view(s.channels@)),
            Command::UnSubscribe(s) => SpecCommand::UnSubscribe(strings_view(s.channels@)),
            Command::Publish(p) => SpecCommand::Publish(p.key@, p.value@),
            Command::Unknown => SpecCommand::Unknown,
        }
    }
}

/// An array of simple strings.
pub open spec fn simple_list(names: Seq<Seq<char>>) -> SpecFrame {
    SpecFrame::Array(names.map_values(|n: Seq<char>| SpecFrame::Simple(n)))
}

/// The frame a command is sent in.
pub open spec fn command_frame(c: SpecCommand) -> SpecFrame {
    match c {
        SpecCommand::Get(k) => SpecFrame::Array(
            seq![SpecFrame::Simple(get_name()), SpecFrame::Simple(k)],
        ),
        SpecCommand::Del(k) => SpecFrame::Array(
            seq![SpecFrame::Simple(del_name()), SpecFrame::Simple(k)],
        ),
        SpecCommand::SetCmd(k, v) => SpecFrame::Array(
            seq![SpecFrame::Simple(set_name()), SpecFrame::Simple(k), SpecFrame::Bulk(v)],
        ),
        SpecCommand::Subscribe(cs) => SpecFrame::Array(
            seq![SpecFrame::Simple(subscribe_name()), simple_list(cs)],
        ),
        SpecCommand::UnSubscribe(cs) => SpecFrame::Array(
            seq![SpecFrame::Simple(subscribe_name()), simple_list(cs)],
        ),
        SpecCommand::Publish(k, v) => SpecFrame::Array(
            seq![SpecFrame::Simple(set_name()), SpecFrame::Simple(k), SpecFrame::Bulk(v)],
        ),
        SpecCommand::Unknown => SpecFrame::Null,
    }
}

/// A simple string frame holding a copy of `s`.
fn simple(s: &String) -> (f: Frame)
    ensures
        f@ == SpecFrame::Simple(s@),
{
    Frame::Simple(s.clone())
}

/// A simple string frame holding a literal name.
fn simple_str(s: &str) -> (f: Frame)
    ensures
        f@ == SpecFrame::Simple(s@),
{
    Frame::Simple(s.to_owned())
}

/// An array frame of simple strings.
fn simple_list_frame(names: &Vec<String>) -> (f: Frame)
    ensures
        f@ == simple_list(strings_view(names@)),
{
    let mut frames: Vec<Frame> = Vec::new();
    let mut i: usize = 0;
    while i < names.len()
        invariant
            0 <= i <= names.len(),
            frames_view(frames@) == simple_list(strings_view(names@))->Array_0.subrange(0, i as int),
        decreases names.len() - i,
    {
        let ghost before = frames@;
        frames.push(simple(&names[i]));
        assert(frames@.subrange(0, frames@.len() - 1) =~= before);
        assert(frames_view(frames@) =~= simple_list(strings_view(names@))->Array_0.subrange(0, i + 1));
        i += 1;
    }
    assert(frames_view(frames@) =~= simple_list(strings_view(names@))->Array_0);
    Frame::Array(frames)
}

/// An array frame of the given frames.
fn array2(a: Frame, b: Frame) -> (f: Frame)
    ensures
        f@ == SpecFrame::Array(seq![a@, b@]),
{
    let mut frames: Vec<Frame> = Vec::new();
    frames.push(a);
    frames.push(b);
    proof {
        lemma_frames_view(frames@);
    }
    assert(frames_view(frames@) =~= seq![a@, b@]);
    Frame::Array(frames)
}

/// An array frame of the given frames.
fn array3(a: Frame, b: Frame, c: Frame) -> (f: Frame)
    ensures
        f@ == SpecFrame::Array(seq![a@, b@, c@]),
{
    let mut frames: Vec<Frame> = Vec::new();
    frames.push(a);
    frames.push(b);
    frames.push(c);
    proof {
        lemma_frames_view(frames@);
    }
    assert(frames_view(frames@) =~= seq![a@, b@, c@]);
    Frame::Array(frames)
}

impl Command {
    /// The frame the command is sent in: an array of the command's name
    /// and its arguments. An unsubscription is sent under the name
    /// `SUBSCRIBE` and a publication under `SET`; an unknown command is
    /// sent as the null frame.
    pub fn parse_to_frame(&self) -> (f: Frame)
        ensures
            f@ == command_frame(self@),
    {
        proof {
            reveal_strlit("GET");
            reveal_strlit("SET");
            reveal_strlit("SUBSCRIBE");
            assert("GET"@ =~= get_name());
            assert("SET"@ =~= set_name());
            assert("SUBSCRIBE"@ =~= subscribe_name());
            reveal_strlit("DEL");
            assert("DEL"@ =~= del_name());
        }
        match self {
            Command::Get(get) => array2(simple_str("GET"), simple(&get.key)),
            Command::Del(del) => array2(simple_str("DEL"), simple(&del.key)),
            Command::SetCmd(set) => array3(
                simple_str("SET"),
                simple(&set.key),
                Frame::Bulk(vstd::slice::slice_to_vec(set.value.as_slice())),
            ),
            Command::Subscribe(subscribe) => array2(
                simple_str("SUBSCRIBE"),
                simple_list_frame(&subscribe.channels),
            ),
            Command::UnSubscribe(unsubscribe) => array2(
                simple_str("SUBSCRIBE"),
                simple_list_frame(&unsubscribe.channels),
            ),
            Command::Publish(publish) => array3(
                simple_str("SET"),
                simple(&publish.key),
                Frame::Bulk(vstd::slice::slice_to_vec(publish.value.as_slice())),
            ),
            Command::Unknown => Frame::Null,
        }
    }

    /// Does nothing.
    pub fn self_to_frame(&self) {
    }
}

/// The bytes a frame carries as a value, as `Frame::parse_to_bytes` gives
/// them; `None` for the null frame and arrays.
pub open spec fn payload(f: SpecFrame) -> Option<Seq<u8>> {
    match f {
        SpecFrame::Simple(s) => Some(encode_utf8(s)),
        SpecFrame::ErrorResult(s) => Some(encode_utf8(s)),
        SpecFrame::Integer(v) => Some(be_bytes_i64(v)),
        SpecFrame::Bulk(d) => Some(d),
        _ => None,
    }
}

/// An array whose elements are all simple strings.
pub open spec fn is_simple_list(f: SpecFrame) -> bool {
    f matches SpecFrame::Array(xs) && forall|i: int| 0 <= i < xs.len() ==> (#[trigger] xs[i]) is Simple
}

/// The texts of an array of simple strings.
pub open spec fn simple_texts(f: SpecFrame) -> Seq<Seq<char>> {
    f->Array_0.map_values(|x: SpecFrame| x->Simple_0)
}

/// What reading a command from a frame gives: a command, an error, or
/// `Abort` where the reading panics on a missing or ill-typed argument.
pub enum Decoded {
    Cmd(SpecCommand),
    Error(CommandError),
    Abort,
}

/// What `Command::from_frame` reads from a frame.
pub open spec fn decode_command(f: SpecFrame) -> Decoded {
    match f {
        SpecFrame::Array(fs) => if fs.len() == 0 {
            Decoded::Abort
        } else {
            match fs[0] {
                SpecFrame::Simple(name) => if name == get_name() {
                    if fs.len() < 2 || !(fs[1] is Simple) {
                        Decoded::Abort
                    } else {
                        Decoded::Cmd(SpecCommand::Get(fs[1]->Simple_0))
                    }
                } else if name == del_name() {
                    if fs.len() < 2 || !(fs[1] is Simple) {
                        Decoded::Abort
                    } else {
                        Decoded::Cmd(SpecCommand::Del(fs[1]->Simple_0))
                    }
                } else if name == set_name() || name == publish_name() {
                    if fs.len() < 3 || !(fs[1] is Simple) || payload(fs[2]) is None {
                        Decoded::Abort
                    } else if name == set_name() {
                        Decoded::Cmd(SpecCommand::SetCmd(fs[1]->Simple_0, payload(fs[2])->0))
                    } else {
                        Decoded::Cmd(SpecCommand::Publish(fs[1]->Simple_0, payload(fs[2])->0))
                    }
                } else if name == subscribe_name() || name == unsubscribe_name() {
                    if fs.len() < 2 || !is_simple_list(fs[1]) {
                        Decoded::Abort
                    } else if name == subscribe_name() {
                        Decoded::Cmd(SpecCommand::Subscribe(simple_texts(fs[1])))
                    } else {
                        Decoded::Cmd(SpecCommand::UnSubscribe(simple_texts(fs[1])))
                    }
                } else {
                    Decoded::Cmd(SpecCommand::Unknown)
                },
                _ => Decoded::Error(CommandError::NoCommandName),
            }
        },
        _ => Decoded::Error(CommandError::NotACommand),
    }
}

/// What a decoding step reports: `None` where decoding panics.
pub open spec fn decode_matches(f: SpecFrame, r: Option<Result<Command, CommandError>>) -> bool {
    match decode_command(f) {
        Decoded::Cmd(c) => r matches Some(Ok(cmd)) && cmd@ == c,
        Decoded::Error(e) => r == Some(Err::<Command, CommandError>(e)),
        Decoded::Abort => r is None,
    }
}

/// Reads a command from a frame, reporting `None` where
/// `Command::from_frame` panics.
pub(crate) fn decode(frame: &Frame) -> (r: Option<Result<Command, CommandError>>)
    ensures
        decode_matches(frame@, r),
{
    match frame {
        Frame::Array(value) => {
            proof {
                lemma_frames_view(value@);
            }
            let ghost fs = frames_view(value@);
            assert(frame@ == SpecFrame::Array(fs));
            if value.len() == 0 {
                return None;
            }
            assert(value@[0]@ == fs[0]);
            let command = match &value[0] {
                Frame::Simple(com) => com.clone(),
                _ => return Some(Err(CommandError::NoCommandName)),
            };
            proof {
                reveal_strlit("GET");
                reveal_strlit("SET");
                reveal_strlit("PUBLISH");
                reveal_strlit("SUBSCRIBE");
                reveal_strlit("UNSUBSCRIBE");
                assert("GET"@ =~= get_name());
                reveal_strlit("DEL");
                assert("DEL"@ =~= del_name());
                assert("SET"@ =~= set_name());
                assert("PUBLISH"@ =~= publish_name());
                assert("SUBSCRIBE"@ =~= subscribe_name());
                assert("UNSUBSCRIBE"@ =~= unsubscribe_name());
            }
            let get_s = "GET".to_owned();
            let del_s = "DEL".to_owned();
            let set_s = "SET".to_owned();
            let publish_s = "PUBLISH".to_owned();
            let subscribe_s = "SUBSCRIBE".to_owned();
            let unsubscribe_s = "UNSUBSCRIBE".to_owned();
            if command == get_s {
                if value.len() < 2 {
                    return None;
                }
                assert(value@[1]@ == fs[1]);
                match Frame::parse_to_string(&value[1]) {
                    Ok(key) => Some(Ok(Command::Get(Get { key }))),
                    Err(_) => None,
                }
            } else if command == del_s {
                if value.len() < 2 {
                    return None;
                }
                assert(value@[1]@ == fs[1]);
                match Frame::parse_to_string(&value[1]) {
                    Ok(key) => Some(Ok(Command::Del(Del { key }))),
                    Err(_) => None,
                }
            } else if command == set_s || command == publish_s {
                if value.len() < 3 {
                    return None;
                }
                assert(value@[1]@ == fs[1]);
                assert(value@[2]@ == fs[2]);
                let key = match Frame::parse_to_string(&value[1]) {
                    Ok(key) => key,
                    Err(_) => return None,
                };
                let data = match Frame::parse_to_bytes(&value[2]) {
                    Ok(Some(data)) => data,
                    _ => return None,
                };
                if command == set_s {
                    Some(Ok(Command::SetCmd(SetCmd { key, value: data })))
                } else {
                    Some(Ok(Command::Publish(Publish { key, value: data })))
                }
            } else if command == subscribe_s || command == unsubscribe_s {
                if value.len() < 2 {
                    return None;
                }
                assert(value@[1]@ == fs[1]);
                let channels = match Frame::parse_to_vec_string(&value[1]) {
                    Ok(channels) => channels,
                    Err(_) => return None,
                };
                assert(strings_view(channels@) =~= simple_texts(fs[1]));
                if command == subscribe_s {
                    Some(Ok(Command::Subscribe(Subscribe { channels })))
                } else {
                    Some(Ok(Command::UnSubscribe(UnSubscribe { channels })))
                }
            } else {
                Some(Ok(Command::Unknown))
            }
        },
        _ => Some(Err(CommandError::NotACommand)),
    }
}

impl Command {
    /// Reads a command from a frame: an array whose first element, a simple
    /// string, names the command and whose next elements are its arguments.
    /// Names other than `GET`, `SET`, `DEL`, `PUBLISH`, `SUBSCRIBE` and
    /// `UNSUBSCRIBE` give `Unknown`.
    ///
    /// Frames on which the reading panics (an empty array, a missing
    /// argument, a key that is not a simple string, a value without bytes,
    /// a channel list that is not an array of simple strings) are outside
    /// its contract.
    pub fn from_frame(frame: Frame) -> (r: Result<Command, CommandError>)
        requires
            !(decode_command(frame@) is Abort),
        ensures
            match decode_command(frame@) {
                Decoded::Cmd(c) => r matches Ok(cmd) && cmd@ == c,
                Decoded::Error(e) => r == Err::<Command, CommandError>(e),
                Decoded::Abort => false,
            },
    {
        match decode(&frame) {
            Some(r) => r,
            // excluded by the precondition
            None => Ok(Command::Unknown),
        }
    }
}

/// Sending a command and reading it back: a `GET`, a `SET`, a `DEL` and a
/// `SUBSCRIBE` come back as they were sent; an unsubscription comes back
/// as a subscription to the same channels and a publication as a `SET` of
/// the same key and value, since they travel under those names; an
/// unknown command travels as the null frame, which is no command.
pub proof fn lemma_command_frame_roundtrip(c: SpecCommand)
    ensures
        decode_command(command_frame(c)) == match c {
            SpecCommand::UnSubscribe(cs) => Decoded::Cmd(SpecCommand::Subscribe(cs)),
            SpecCommand::Publish(k, v) => Decoded::Cmd(SpecCommand::SetCmd(k, v)),
            SpecCommand::Unknown => Decoded::Error(CommandError::NotACommand),
            _ => Decoded::Cmd(c),
        },
{
    reveal_strlit("GET");
    match c {
        SpecCommand::Subscribe(cs) => {
            assert(simple_texts(simple_list(cs)) =~= cs);
        },
        SpecCommand::UnSubscribe(cs) => {
            assert(simple_texts(simple_list(cs)) =~= cs);
        },
        _ => {},
    }
}

/// A `SUBSCRIBE` or `UNSUBSCRIBE` whose argument is an array of simple
/// strings names exactly the texts of that array, all of them, in order.
pub proof fn lemma_decode_channel_list(names: Seq<Seq<char>>)
    ensures
        decode_command(
            SpecFrame::Array(
                seq![
                    SpecFrame::Simple(subscribe_name()),
                    SpecFrame::Array(names.map_values(|n: Seq<char>| SpecFrame::Simple(n))),
                ],
            ),
        ) == Decoded::Cmd(SpecCommand::Subscribe(names)),
        decode_command(
            SpecFrame::Array(
                seq![
                    SpecFrame::Simple(unsubscribe_name()),
                    SpecFrame::Array(names.map_values(|n: Seq<char>| SpecFrame::Simple(n))),
                ],
            ),
        ) == Decoded::Cmd(SpecCommand::UnSubscribe(names)),
{
    let list = SpecFrame::Array(names.map_values(|n: Seq<char>| SpecFrame::Simple(n)));
    assert(list == simple_list(names));
    assert(simple_texts(list) =~= names);
    assert(subscribe_name() != get_name());
    assert(subscribe_name() != del_name());
    assert(subscribe_name() != set_name());
    assert(subscribe_name() != publish_name());
    assert(unsubscribe_name() != get_name());
    assert(unsubscribe_name() != del_name());
    assert(unsubscribe_name() != set_name());
    assert(unsubscribe_name() != publish_name());
    assert(unsubscribe_name() != subscribe_name());
}

/// The value a `SET` or a `PUBLISH` carries is the bytes of its third
/// element, whatever its kind: the UTF-8 bytes of a simple or an error
/// string, the eight big-endian bytes of an integer, the data of a bulk
/// string. A null or an array there carries no bytes, and reading panics.
pub proof fn lemma_decode_value_argument(key: Seq<char>, x: SpecFrame)
    ensures
        ({
            let set = decode_command(
                SpecFrame::Array(seq![SpecFrame::Simple(set_name()), SpecFrame::Simple(key), x]),
            );
            let publish = decode_command(
                SpecFrame::Array(seq![SpecFrame::Simple(publish_name()), SpecFrame::Simple(key), x]),
            );
            &&& x matches SpecFrame::Simple(s) ==> set == Decoded::Cmd(SpecCommand::SetCmd(key, encode_utf8(s)))
                && publish == Decoded::Cmd(SpecCommand::Publish(key, encode_utf8(s)))
            &&& x matches SpecFrame::ErrorResult(s) ==> set == Decoded::Cmd(SpecCommand::SetCmd(key, encode_utf8(s)))
                && publish == Decoded::Cmd(SpecCommand::Publish(key, encode_utf8(s)))
            &&& x matches SpecFrame::Integer(v) ==> set == Decoded::Cmd(SpecCommand::SetCmd(key, be_bytes_i64(v)))
                && publish == Decoded::Cmd(SpecCommand::Publish(key, be_bytes_i64(v)))
            &&& x matches SpecFrame::Bulk(d) ==> set == Decoded::Cmd(SpecCommand::SetCmd(key, d))
                && publish == Decoded::Cmd(SpecCommand::Publish(key, d))
            &&& (x is Null || x is Array) ==> set is Abort && publish is Abort
        }),
{
    assert(set_name() != get_name());
    assert(set_name() != del_name());
    assert(publish_name() != get_name());
    assert(publish_name() != del_name());
    assert(publish_name() != set_name());
}

/// A `GET` or a `DEL` of a simple string names that string as its key.
pub proof fn lemma_decode_key_argument(key: Seq<char>)
    ensures
        decode_command(SpecFrame::Array(seq![SpecFrame::Simple(get_name()), SpecFrame::Simple(key)]))
            == Decoded::Cmd(SpecCommand::Get(key)),
        decode_command(SpecFrame::Array(seq![SpecFrame::Simple(del_name()), SpecFrame::Simple(key)]))
            == Decoded::Cmd(SpecCommand::Del(key)),
{
    assert(del_name() != get_name());
}

/// What is no command: a frame that is not an array is `NotACommand`, an
/// array whose first element is not a simple string is `NoCommandName`,
/// and a simple-string name other than the six commands' is `Unknown`,
/// whatever follows it.
pub proof fn lemma_decode_other_frames(f: SpecFrame, name: Seq<char>, args: Seq<SpecFrame>)
    ensures
        !(f is Array) ==> decode_command(f) == Decoded::Error(CommandError::NotACommand),
        f matches SpecFrame::Array(fs) && fs.len() > 0 && !(fs[0] is Simple) ==> decode_command(f)
            == Decoded::Error(CommandError::NoCommandName),
        name != get_name() && name != del_name() && name != set_name() && name != publish_name()
            && name != subscribe_name() && name != unsubscribe_name() ==> decode_command(
            SpecFrame::Array(seq![SpecFrame::Simple(name)] + args),
        ) == Decoded::Cmd(SpecCommand::Unknown),
{
    let fs = seq![SpecFrame::Simple(name)] + args;
    assert(fs[0] == SpecFrame::Simple(name));
}

} // verus!
