//! What a server does with a frame a client sent: the decision, apart from
//! the network.

use crate::cmd::{
    command_frame, decode, decode_command, lemma_command_frame_roundtrip, strings_view, Command,
    Decoded, SpecCommand,
};
use crate::channel::ChannelReceiver;
use crate::db::{published, subscribed, DataBase, KeyOp, StoreView};
use crate::cmd::publish_name;
use crate::frame::Frame;
use crate::wire::SpecFrame;
use vstd::prelude::*;

verus! {

/// The text of the reply to a `GET` of a key that holds nothing.
pub open spec fn null_reply_text() -> Seq<char> {
    seq!['R', 'e', 's', 'u', 'l', 't', ' ', 'N', 'U', 'L', 'L', '!']
}

/// The text of the reply to a `SET`.
pub open spec fn ok_text() -> Seq<char> {
    seq!['O', 'K']
}

/// The reply to a `GET` of `key` in a store holding `data`.
pub open spec fn get_reply(data: Map<Seq<char>, Seq<u8>>, key: Seq<char>) -> SpecFrame {
    if data.contains_key(key) {
        SpecFrame::Bulk(data[key])
    } else {
        SpecFrame::ErrorResult(null_reply_text())
    }
}

/// What the connection does after a frame.
pub enum Reply {
    /// Write this frame back to the client.
    Write(Frame),
    /// Relay to the client what each of these channels receives.
    Listen(Vec<(String, ChannelReceiver)>),
    /// Stop relaying these channels.
    Forget(Vec<String>),
    /// Nothing.
    Nothing,
    /// The connection's task panics here.
    Abort,
}

/// The names of the channels in a list of subscriptions.
pub open spec fn listened_names(v: Seq<(String, ChannelReceiver)>) -> Seq<Seq<char>> {
    v.map_values(|e: (String, ChannelReceiver)| e.0@)
}

/// Each receiver in a list of subscriptions belongs to the channel it is
/// listed under, in the store `s`, and is owed what follows the end of that
/// channel's log in `s`.
pub open spec fn listening(v: Seq<(String, ChannelReceiver)>, s: StoreView) -> bool {
    forall|j: int|
        0 <= j < v.len() ==> {
            let name = (#[trigger] v[j]).0@;
            &&& s.channels.contains_key(name)
            &&& v[j].1.id() == s.channels[name].0
            &&& v[j].1.start() == s.channels[name].1.len()
        }
}

/// `after` is `before` with each of the channels `cs` opened, with an empty
/// log, where it was not open; the channels that were open are unchanged.
pub open spec fn opened(before: StoreView, cs: Seq<Seq<char>>, after: StoreView) -> bool {
    &&& after.data == before.data
    &&& after.history == before.history
    &&& forall|n: Seq<char>| #[trigger] after.channels.contains_key(n) <==> before.channels.contains_key(n) || cs.contains(n)
    &&& forall|n: Seq<char>| #[trigger] before.channels.contains_key(n) ==> after.channels[n] == before.channels[n]
    &&& forall|n: Seq<char>| after.channels.contains_key(n) && !before.channels.contains_key(n) ==> #[trigger] after.channels[n].1.len() == 0
}

/// The reply and the store after a frame, as `handle_command` gives them.
pub open spec fn handled(before: StoreView, frame: SpecFrame, after: StoreView, r: Reply) -> bool {
    match decode_command(frame) {
        Decoded::Cmd(SpecCommand::Get(k)) => {
            &&& after == before
            &&& r matches Reply::Write(f) && f@ == get_reply(before.data, k)
        },
        Decoded::Cmd(SpecCommand::SetCmd(k, v)) => {
            &&& after.data == before.data.insert(k, v)
            &&& after.channels == before.channels
            &&& after.history == before.history.push(KeyOp::Store(k, v))
            &&& r matches Reply::Write(f) && f@ == SpecFrame::Simple(ok_text())
        },
        Decoded::Cmd(SpecCommand::Del(k)) => {
            &&& after.data == before.data.remove(k)
            &&& after.channels == before.channels
            &&& after.history == before.history.push(KeyOp::Delete(k))
            &&& r matches Reply::Write(f) && f@ == SpecFrame::Simple(ok_text())
        },
        Decoded::Cmd(SpecCommand::Subscribe(cs)) => {
            &&& opened(before, cs, after)
            &&& r matches Reply::Listen(list) && listened_names(list@) == cs && listening(list@, after)
        },
        Decoded::Cmd(SpecCommand::UnSubscribe(cs)) => {
            &&& after == before
            &&& r matches Reply::Forget(list) && strings_view(list@) == cs
        },
        Decoded::Cmd(SpecCommand::Publish(k, v)) => {
            &&& published(before, k, v, after)
            &&& before.channels.contains_key(k) ==> (r is Nothing || r is Abort)
            &&& !before.channels.contains_key(k) ==> r is Abort
        },
        Decoded::Cmd(SpecCommand::Unknown) => {
            &&& after == before
            &&& r is Nothing
        },
        _ => {
            &&& after == before
            &&& r is Abort
        },
    }
}

/// How the reply to a `PUBLISH` on an open channel follows the send: the
/// record of whether each message handed to the channel reached a receiver
/// grows by whether the reply is `Nothing`, so the reply is `Nothing`
/// exactly when the message reached a receiver and `Abort` when it did not.
pub open spec fn publish_answered(before: DataBase, frame: SpecFrame, after: DataBase, r: Reply) -> bool {
    match decode_command(frame) {
        Decoded::Cmd(SpecCommand::Publish(k, _)) => before@.channels.contains_key(k)
            ==> after.delivered() == before.delivered().insert(k, before.delivered()[k].push(r is Nothing)),
        _ => true,
    }
}

/// Carries out the command a client sent in `frame` on the store and says
/// what to send back: the value under a key or "Result NULL!" for `GET`,
/// "OK" for `SET` and for `DEL`, which removes the key (a simple string,
/// which the completeness check reads, where an integer count would make
/// it panic); receivers of the named channels for `SUBSCRIBE`, the
/// names to drop for `UNSUBSCRIBE`; nothing for `PUBLISH` and unknown
/// commands. Where the server panics (the frame is no command, or a
/// publication fails) the reply is `Abort`.
pub fn handle_command(db: &mut DataBase, frame: Frame) -> (r: Reply)
    ensures
        handled(old(db)@, frame@, final(db)@, r),
        publish_answered(*old(db), frame@, *final(db), r),
{
    let command = match decode(&frame) {
        Some(Ok(command)) => command,
        _ => return Reply::Abort,
    };
    match command {
        Command::Get(data) => match db.get(&data.key) {
            None => {
                proof {
                    reveal_strlit("Result NULL!");
                    assert("Result NULL!"@ =~= null_reply_text());
                }
                Reply::Write(Frame::ErrorResult("Result NULL!".to_owned()))
            },
            Some(value) => Reply::Write(Frame::Bulk(value)),
        },
        Command::SetCmd(set) => {
            db.set(set.key, set.value);
            proof {
                reveal_strlit("OK");
                assert("OK"@ =~= ok_text());
            }
            Reply::Write(Frame::Simple("OK".to_owned()))
        },
        Command::Subscribe(subscribe) => {
            let channels = subscribe.channels;
            let ghost cs = strings_view(channels@);
            let ghost start = db@;
            let mut listened: Vec<(String, ChannelReceiver)> = Vec::new();
            let mut i: usize = 0;
            while i < channels.len()
                invariant
                    0 <= i <= channels@.len(),
                    cs == strings_view(channels@),
                    opened(start, cs.subrange(0, i as int), db@),
                    listened_names(listened@) == cs.subrange(0, i as int),
                    listening(listened@, db@),
                decreases channels.len() - i,
            {
                let ghost prev = db@;
                let receiver = db.subscribe(&channels[i]);
                let ghost ch = channels@[i as int]@;
                let ghost id = receiver.id();
                let ghost st = receiver.start();
                listened.push((channels[i].clone(), receiver));
                proof {
                    let before = cs.subrange(0, i as int);
                    let after = cs.subrange(0, i + 1);
                    assert(after =~= before.push(ch));
                    assert(listened_names(listened@) =~= after);
                    assert(subscribed(prev, ch, db@, id, st));
                    assert forall|n: Seq<char>| #[trigger] db@.channels.contains_key(n) <==> start.channels.contains_key(n) || after.contains(n) by {
                        if before.contains(n) {
                            let j = choose|j: int| 0 <= j < before.len() && #[trigger] before[j] == n;
                            assert(after[j] == n);
                        }
                        if n == ch {
                            assert(after[i as int] == n);
                        }
                        if after.contains(n) {
                            let j = choose|j: int| 0 <= j < after.len() && #[trigger] after[j] == n;
                            if j < i {
                                assert(before[j] == n);
                            }
                        }
                        assert(prev.channels.contains_key(n) <==> start.channels.contains_key(n) || before.contains(n));
                    }
                    assert forall|n: Seq<char>| #[trigger] start.channels.contains_key(n) implies db@.channels[n] == start.channels[n] by {
                        assert(prev.channels.contains_key(n));
                    }
                    assert forall|n: Seq<char>| db@.channels.contains_key(n) && !start.channels.contains_key(n) implies #[trigger] db@.channels[n].1.len() == 0 by {
                        if prev.channels.contains_key(n) {
                            assert(db@.channels[n] == prev.channels[n]);
                        }
                    }
                    assert forall|j: int| 0 <= j < listened@.len() implies {
                        let name = (#[trigger] listened@[j]).0@;
                        &&& db@.channels.contains_key(name)
                        &&& listened@[j].1.id() == db@.channels[name].0
                        &&& listened@[j].1.start() == db@.channels[name].1.len()
                    } by {
                        if j < i {
                            let name = listened@[j].0@;
                            assert(prev.channels.contains_key(name));
                            assert(db@.channels[name] == prev.channels[name]);
                        }
                    }
                }
                i += 1;
            }
            assert(cs.subrange(0, cs.len() as int) =~= cs);
            Reply::Listen(listened)
        },
        Command::Del(del) => {
            db.delete(&del.key);
            proof {
                reveal_strlit("OK");
                assert("OK"@ =~= ok_text());
            }
            Reply::Write(Frame::Simple("OK".to_owned()))
        },
        Command::UnSubscribe(unsubscribe) => Reply::Forget(unsubscribe.channels),
        Command::Publish(publish) => {
            match db.publish(&publish.key, publish.value) {
                Ok(()) => Reply::Nothing,
                Err(_) => Reply::Abort,
            }
        },
        Command::Unknown => Reply::Nothing,
    }
}

/// A client's `GET` after its `SET` of the same key is answered with the
/// value it set; the `SET` is answered "OK" and the `GET` changes nothing.
pub proof fn lemma_get_after_set_command(
    s0: StoreView,
    s1: StoreView,
    s2: StoreView,
    key: Seq<char>,
    value: Seq<u8>,
    r1: Reply,
    r2: Reply,
)
    requires
        handled(s0, command_frame(SpecCommand::SetCmd(key, value)), s1, r1),
        handled(s1, command_frame(SpecCommand::Get(key)), s2, r2),
    ensures
        r1 matches Reply::Write(f) && f@ == SpecFrame::Simple(ok_text()),
        r2 matches Reply::Write(f) && f@ == SpecFrame::Bulk(value),
        s2 == s1,
{
    lemma_command_frame_roundtrip(SpecCommand::SetCmd(key, value));
    lemma_command_frame_roundtrip(SpecCommand::Get(key));
}

/// A `GET` of a key nobody set is answered "Result NULL!".
pub proof fn lemma_get_unset_command(s0: StoreView, s1: StoreView, key: Seq<char>, r: Reply)
    requires
        !s0.data.contains_key(key),
        handled(s0, command_frame(SpecCommand::Get(key)), s1, r),
    ensures
        r matches Reply::Write(f) && f@ == SpecFrame::ErrorResult(null_reply_text()),
        s1 == s0,
{
    lemma_command_frame_roundtrip(SpecCommand::Get(key));
}

/// The reply to a client's `PUBLISH` of a bulk value: on an open channel
/// the message joins the channel's log, and the reply is `Nothing` exactly
/// when the message reached a receiver, `Abort` (the connection's task
/// panics) when it reached none; on a channel nobody opened the reply is
/// `Abort`. The values are untouched.
pub proof fn lemma_publish_reply_follows_delivery(
    before: DataBase,
    after: DataBase,
    key: Seq<char>,
    value: Seq<u8>,
    r: Reply,
)
    requires
        handled(
            before@,
            SpecFrame::Array(seq![SpecFrame::Simple(publish_name()), SpecFrame::Simple(key), SpecFrame::Bulk(value)]),
            after@,
            r,
        ),
        publish_answered(
            before,
            SpecFrame::Array(seq![SpecFrame::Simple(publish_name()), SpecFrame::Simple(key), SpecFrame::Bulk(value)]),
            after,
            r,
        ),
    ensures
        after@.data == before@.data,
        before@.channels.contains_key(key) ==> after@.channels[key].1 == before@.channels[key].1.push(value),
        before@.channels.contains_key(key) ==> (r is Nothing <==> after.delivered()[key].last()),
        before@.channels.contains_key(key) ==> (r is Nothing || r is Abort),
        !before@.channels.contains_key(key) ==> r is Abort,
{
    crate::cmd::lemma_decode_value_argument(key, SpecFrame::Bulk(value));
}

} // verus!
