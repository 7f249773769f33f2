//! The store: values under keys, and the channels clients subscribe to.

use crate::channel::{broadcast_channel, sender_send, sender_subscribe, ChannelReceiver, ChannelSender};
use crate::error::PublishError;
use vstd::prelude::*;

verus! {

/// Room for messages in each channel.
pub const CHANNEL_CAPACITY: usize = 10;

/// A change to the store's values: what `DataBase::set` and
/// `DataBase::delete` do to them (`subscribe` and `publish` leave them as
/// they are).
pub enum KeyOp {
    Store(Seq<char>, Seq<u8>),
    Delete(Seq<char>),
}

/// The key a change is made to.
pub open spec fn op_key(op: KeyOp) -> Seq<char> {
    match op {
        KeyOp::Store(k, _) => k,
        KeyOp::Delete(k) => k,
    }
}

/// The values after a run of changes, one after the other.
pub open spec fn apply_key_ops(data: Map<Seq<char>, Seq<u8>>, ops: Seq<KeyOp>) -> Map<Seq<char>, Seq<u8>>
    decreases ops.len(),
{
    if ops.len() == 0 {
        data
    } else {
        let before = apply_key_ops(data, ops.subrange(0, ops.len() - 1));
        match ops[ops.len() - 1] {
            KeyOp::Store(k, v) => before.insert(k, v),
            KeyOp::Delete(k) => before.remove(k),
        }
    }
}

/// The contents of a store: the value under each key; for each channel
/// that has been opened, its id and the log of every message handed to its
/// sender; and every change made to the values, in order.
pub struct StoreView {
    pub data: Map<Seq<char>, Seq<u8>>,
    pub channels: Map<Seq<char>, (nat, Seq<Seq<u8>>)>,
    pub history: Seq<KeyOp>,
}

/// What each of a list of named items stands for, under its name, the
/// later item winning.
pub open spec fn keyed_map<V, W>(s: Seq<(String, V)>, f: spec_fn(V) -> W) -> Map<Seq<char>, W>
    decreases s.len(),
{
    if s.len() == 0 {
        Map::empty()
    } else {
        keyed_map(s.subrange(0, s.len() - 1), f).insert(s[s.len() - 1].0@, f(s[s.len() - 1].1))
    }
}

/// No name occurs twice in a list of named items.
pub open spec fn distinct_names<V>(s: Seq<(String, V)>) -> bool {
    forall|i: int, j: int| 0 <= i < s.len() && 0 <= j < s.len() && i != j ==> s[i].0@ != s[j].0@
}

/// A stored value stands for its bytes.
pub open spec fn bytes_view() -> spec_fn(Vec<u8>) -> Seq<u8> {
    |v: Vec<u8>| v@
}

/// A channel's sender stands for the channel's id and log.
pub open spec fn sender_view() -> spec_fn(ChannelSender) -> (nat, Seq<Seq<u8>>) {
    |c: ChannelSender| (c.id(), c.log())
}

/// For each message a channel's sender was handed, whether it reached a
/// receiver.
pub open spec fn sender_taken() -> spec_fn(ChannelSender) -> Seq<bool> {
    |c: ChannelSender| c.taken()
}

/// With distinct names, the map holds exactly the items' names, each with
/// what its item stands for.
pub proof fn lemma_keyed_map<V, W>(s: Seq<(String, V)>, f: spec_fn(V) -> W)
    requires
        distinct_names(s),
    ensures
        forall|k: Seq<char>|
            #[trigger] keyed_map(s, f).contains_key(k) <==> exists|i: int|
                0 <= i < s.len() && (#[trigger] s[i]).0@ == k,
        forall|i: int| 0 <= i < s.len() ==> #[trigger] keyed_map(s, f)[s[i].0@] == f(s[i].1),
    decreases s.len(),
{
    if s.len() > 0 {
        let n = s.len() - 1;
        let prefix = s.subrange(0, n);
        let last = s[n];
        assert forall|a: int, b: int| 0 <= a < prefix.len() && 0 <= b < prefix.len() && a != b implies prefix[a].0@ != prefix[b].0@ by {
            assert(prefix[a] == s[a]);
            assert(prefix[b] == s[b]);
        }
        lemma_keyed_map(prefix, f);
        assert(keyed_map(s, f) == keyed_map(prefix, f).insert(last.0@, f(last.1)));
        assert forall|k: Seq<char>| #[trigger] keyed_map(s, f).contains_key(k) <==> exists|i: int|
            0 <= i < s.len() && (#[trigger] s[i]).0@ == k by {
            if keyed_map(s, f).contains_key(k) {
                if k == last.0@ {
                    assert(s[n].0@ == k);
                } else {
                    assert(keyed_map(prefix, f).contains_key(k));
                    let i = choose|i: int| 0 <= i < prefix.len() && (#[trigger] prefix[i]).0@ == k;
                    assert(s[i] == prefix[i]);
                }
            }
            if exists|i: int| 0 <= i < s.len() && (#[trigger] s[i]).0@ == k {
                let i = choose|i: int| 0 <= i < s.len() && (#[trigger] s[i]).0@ == k;
                if i < n {
                    assert(prefix[i] == s[i]);
                    assert(keyed_map(prefix, f).contains_key(k));
                }
            }
        }
        assert forall|i: int| 0 <= i < s.len() implies #[trigger] keyed_map(s, f)[s[i].0@] == f(s[i].1) by {
            if i < n {
                assert(prefix[i] == s[i]);
                assert(s[i].0@ != last.0@);
                assert(keyed_map(prefix, f)[prefix[i].0@] == f(prefix[i].1));
            }
        }
    }
}

/// Replacing an item by one of the same name replaces what the name
/// stands for.
pub proof fn lemma_keyed_map_update<V, W>(s: Seq<(String, V)>, i: int, x: (String, V), f: spec_fn(V) -> W)
    requires
        distinct_names(s),
        0 <= i < s.len(),
        x.0@ == s[i].0@,
    ensures
        distinct_names(s.update(i, x)),
        keyed_map(s.update(i, x), f) == keyed_map(s, f).insert(x.0@, f(x.1)),
{
    let t = s.update(i, x);
    assert forall|a: int, b: int| 0 <= a < t.len() && 0 <= b < t.len() && a != b implies t[a].0@ != t[b].0@ by {
        assert(t[a].0@ == s[a].0@);
        assert(t[b].0@ == s[b].0@);
    }
    lemma_keyed_map(s, f);
    lemma_keyed_map(t, f);
    let k = x.0@;
    assert(keyed_map(t, f) =~= keyed_map(s, f).insert(k, f(x.1))) by {
        assert forall|n: Seq<char>| keyed_map(t, f).contains_key(n) <==> keyed_map(s, f).insert(k, f(x.1)).contains_key(n) by {
            if n != k {
                if keyed_map(s, f).contains_key(n) {
                    let j = choose|j: int| 0 <= j < s.len() && (#[trigger] s[j]).0@ == n;
                    assert(t[j] == s[j]);
                }
                if keyed_map(t, f).contains_key(n) {
                    let j = choose|j: int| 0 <= j < t.len() && (#[trigger] t[j]).0@ == n;
                    assert(t[j] == s[j]);
                }
            } else {
                assert(t[i].0@ == n);
            }
        }
        assert forall|n: Seq<char>| #[trigger] keyed_map(t, f).contains_key(n) implies keyed_map(t, f)[n] == keyed_map(s, f).insert(k, f(x.1))[n] by {
            let j = choose|j: int| 0 <= j < t.len() && (#[trigger] t[j]).0@ == n;
            if j != i {
                assert(t[j] == s[j]);
            }
        }
    }
}

/// Adding an item under a new name adds the name.
pub proof fn lemma_keyed_map_push<V, W>(s: Seq<(String, V)>, x: (String, V), f: spec_fn(V) -> W)
    requires
        distinct_names(s),
        !keyed_map(s, f).contains_key(x.0@),
    ensures
        distinct_names(s.push(x)),
        keyed_map(s.push(x), f) == keyed_map(s, f).insert(x.0@, f(x.1)),
{
    let t = s.push(x);
    lemma_keyed_map(s, f);
    assert(t.subrange(0, t.len() - 1) =~= s);
    assert forall|a: int, b: int| 0 <= a < t.len() && 0 <= b < t.len() && a != b implies t[a].0@ != t[b].0@ by {
        if a < s.len() {
            assert(t[a] == s[a]);
        }
        if b < s.len() {
            assert(t[b] == s[b]);
        }
    }
}

/// Removing an item removes its name.
pub proof fn lemma_keyed_map_remove<V, W>(s: Seq<(String, V)>, i: int, f: spec_fn(V) -> W)
    requires
        distinct_names(s),
        0 <= i < s.len(),
    ensures
        distinct_names(s.remove(i)),
        keyed_map(s.remove(i), f) == keyed_map(s, f).remove(s[i].0@),
{
    let t = s.remove(i);
    let k = s[i].0@;
    assert forall|a: int, b: int| 0 <= a < t.len() && 0 <= b < t.len() && a != b implies t[a].0@ != t[b].0@ by {
        let oa = if a < i { a } else { a + 1 };
        let ob = if b < i { b } else { b + 1 };
        assert(t[a] == s[oa]);
        assert(t[b] == s[ob]);
    }
    lemma_keyed_map(s, f);
    lemma_keyed_map(t, f);
    assert(keyed_map(t, f) =~= keyed_map(s, f).remove(k)) by {
        assert forall|n: Seq<char>| keyed_map(t, f).contains_key(n) <==> keyed_map(s, f).remove(k).contains_key(n) by {
            if keyed_map(s, f).contains_key(n) && n != k {
                let j = choose|j: int| 0 <= j < s.len() && (#[trigger] s[j]).0@ == n;
                assert(j != i);
                let nj = if j < i { j } else { j - 1 };
                assert(t[nj] == s[j]);
            }
            if keyed_map(t, f).contains_key(n) {
                let j = choose|j: int| 0 <= j < t.len() && (#[trigger] t[j]).0@ == n;
                let oj = if j < i { j } else { j + 1 };
                assert(t[j] == s[oj]);
            }
        }
        assert forall|n: Seq<char>| #[trigger] keyed_map(t, f).contains_key(n) implies keyed_map(t, f)[n] == keyed_map(s, f).remove(k)[n] by {
            let j = choose|j: int| 0 <= j < t.len() && (#[trigger] t[j]).0@ == n;
            let oj = if j < i { j } else { j + 1 };
            assert(t[j] == s[oj]);
        }
    }
}

/// Where the item named `name` is held, if it is.
fn find_name<V>(s: &Vec<(String, V)>, name: &String) -> (r: Option<usize>)
    ensures
        match r {
            Some(i) => i < s@.len() && s@[i as int].0@ == name@,
            None => forall|i: int| 0 <= i < s@.len() ==> (#[trigger] s@[i]).0@ != name@,
        },
{
    let mut i: usize = 0;
    while i < s.len()
        invariant
            0 <= i <= s@.len(),
            forall|j: int| 0 <= j < i ==> (#[trigger] s@[j]).0@ != name@,
        decreases s.len() - i,
    {
        if s[i].0 == *name {
            return Some(i);
        }
        i += 1;
    }
    None
}

/// A store of values under keys, with the channels clients subscribe to.
pub struct DataBase {
    data: Vec<(String, Vec<u8>)>,
    subscribers: Vec<(String, ChannelSender)>,
    history: Ghost<Seq<KeyOp>>,
}

impl View for DataBase {
    type V = StoreView;

    closed spec fn view(&self) -> StoreView {
        StoreView {
            data: apply_key_ops(Map::empty(), self.history@),
            channels: keyed_map(self.subscribers@, sender_view()),
            history: self.history@,
        }
    }
}

/// The values of a store are what its changes, one after the other, make
/// of an empty store.
pub proof fn lemma_data_replays_history(db: DataBase)
    ensures
        db@.data == apply_key_ops(Map::empty(), db@.history),
{
}

impl DataBase {
    /// For each open channel, and each message handed to its sender, in
    /// order, whether the send reached a receiver.
    pub closed spec fn delivered(&self) -> Map<Seq<char>, Seq<bool>> {
        keyed_map(self.subscribers@, sender_taken())
    }

    /// Each key and each channel is held once, and the values held are
    /// what the changes made so far give.
    #[verifier::type_invariant]
    spec fn inv(self) -> bool {
        &&& distinct_names(self.data@)
        &&& distinct_names(self.subscribers@)
        &&& keyed_map(self.data@, bytes_view()) == apply_key_ops(Map::empty(), self.history@)
    }

    /// An empty store.
    pub fn new() -> (db: DataBase)
        ensures
            db@.data == Map::<Seq<char>, Seq<u8>>::empty(),
            db@.channels == Map::<Seq<char>, (nat, Seq<Seq<u8>>)>::empty(),
            db.delivered() == Map::<Seq<char>, Seq<bool>>::empty(),
            db@.history == Seq::<KeyOp>::empty(),
    {
        let db = DataBase { data: Vec::new(), subscribers: Vec::new(), history: Ghost(Seq::empty()) };
        assert(db@.channels =~= Map::<Seq<char>, (nat, Seq<Seq<u8>>)>::empty());
        assert(db.delivered() =~= Map::<Seq<char>, Seq<bool>>::empty());
        db
    }

    /// A copy of the value under `key`, or `None` when the key holds none.
    pub fn get(&self, key: &String) -> (r: Option<Vec<u8>>)
        ensures
            match r {
                Some(v) => self@.data.contains_key(key@) && v@ == self@.data[key@],
                None => !self@.data.contains_key(key@),
            },
    {
        proof {
            use_type_invariant(self);
            lemma_keyed_map(self.data@, bytes_view());
        }
        match find_name(&self.data, key) {
            Some(i) => Some(vstd::slice::slice_to_vec(self.data[i].1.as_slice())),
            None => None,
        }
    }

    /// Stores `value` under `key`, replacing what was there.
    pub fn set(&mut self, key: String, value: Vec<u8>)
        ensures
            final(self)@.data == old(self)@.data.insert(key@, value@),
            final(self)@.channels == old(self)@.channels,
            final(self).delivered() == old(self).delivered(),
            final(self)@.history == old(self)@.history.push(KeyOp::Store(key@, value@)),
    {
        let mut this = DataBase::new();
        std::mem::swap(&mut this, self);
        proof {
            use_type_invariant(&this);
            lemma_keyed_map(this.data@, bytes_view());
        }
        let DataBase { mut data, subscribers, history } = this;
        let ghost old_data = data@;
        let ghost changes = history@.push(KeyOp::Store(key@, value@));
        let ghost k = key@;
        let ghost v = value@;
        match find_name(&data, &key) {
            Some(i) => {
                data.set(i, (key, value));
                proof {
                    lemma_keyed_map_update(old_data, i as int, data@[i as int], bytes_view());
                }
            },
            None => {
                data.push((key, value));
                proof {
                    lemma_keyed_map_push(old_data, data@.last(), bytes_view());
                }
            },
        }
        proof {
            assert(changes.subrange(0, changes.len() - 1) =~= history@);
            assert(apply_key_ops(Map::empty(), changes) == apply_key_ops(Map::empty(), history@).insert(k, v));
        }
        *self = DataBase { data, subscribers, history: Ghost(changes) };
    }

    /// Removes the value under `key`, if there is one.
    pub fn delete(&mut self, key: &String)
        ensures
            final(self)@.data == old(self)@.data.remove(key@),
            final(self)@.channels == old(self)@.channels,
            final(self).delivered() == old(self).delivered(),
            final(self)@.history == old(self)@.history.push(KeyOp::Delete(key@)),
    {
        let mut this = DataBase::new();
        std::mem::swap(&mut this, self);
        proof {
            use_type_invariant(&this);
            lemma_keyed_map(this.data@, bytes_view());
        }
        let DataBase { mut data, subscribers, history } = this;
        let ghost old_data = data@;
        let ghost changes = history@.push(KeyOp::Delete(key@));
        let ghost k = key@;
        match find_name(&data, key) {
            Some(i) => {
                let _ = data.remove(i);
                proof {
                    lemma_keyed_map_remove(old_data, i as int, bytes_view());
                }
            },
            None => {
                proof {
                    assert(keyed_map(old_data, bytes_view()).remove(k) =~= keyed_map(old_data, bytes_view()));
                }
            },
        }
        proof {
            assert(changes.subrange(0, changes.len() - 1) =~= history@);
            assert(apply_key_ops(Map::empty(), changes) == apply_key_ops(Map::empty(), history@).remove(k));
        }
        *self = DataBase { data, subscribers, history: Ghost(changes) };
    }
}

/// What `DataBase::subscribe` does to a store, with the id and the start
/// of the receiver it gives: the channel is opened, with an empty log, if
/// it was not open, and nothing else changes; the receiver belongs to the
/// channel and starts at the end of its log.
pub open spec fn subscribed(before: StoreView, channel: Seq<char>, after: StoreView, id: nat, start: nat) -> bool {
    &&& after.data == before.data
    &&& after.history == before.history
    &&& before.channels.contains_key(channel) ==> after.channels == before.channels
    &&& !before.channels.contains_key(channel) ==> after.channels == before.channels.insert(
        channel,
        (id, Seq::<Seq<u8>>::empty()),
    )
    &&& after.channels.contains_key(channel)
    &&& id == after.channels[channel].0
    &&& start == after.channels[channel].1.len()
}

/// What `DataBase::publish` does to a store: on an open channel the
/// message joins the channel's log; a channel that was not open is opened
/// with an empty log; nothing else changes.
pub open spec fn published(before: StoreView, channel: Seq<char>, message: Seq<u8>, after: StoreView) -> bool {
    &&& after.data == before.data
    &&& after.history == before.history
    &&& before.channels.contains_key(channel) ==> after.channels == before.channels.insert(
        channel,
        (before.channels[channel].0, before.channels[channel].1.push(message)),
    )
    &&& !before.channels.contains_key(channel) ==> after.channels == before.channels.insert(
        channel,
        after.channels[channel],
    ) && after.channels[channel].1.len() == 0
}

/// What `DataBase::publish` does and returns: the store changes as
/// `published` says. On an open channel, whether the message reached a
/// receiver joins the channel's record, and the result is `Ok` exactly
/// when it did and `NoReceiver` when it did not; a channel that was not
/// open starts with an empty record and the result is `NoSubscriber`.
pub open spec fn publish_returned(
    before: DataBase,
    channel: Seq<char>,
    message: Seq<u8>,
    after: DataBase,
    r: Result<(), PublishError>,
) -> bool {
    &&& published(before@, channel, message, after@)
    &&& before@.channels.contains_key(channel) ==> after.delivered() == before.delivered().insert(
        channel,
        before.delivered()[channel].push(r is Ok),
    )
    &&& before@.channels.contains_key(channel) ==> (r is Ok || r == Err::<(), PublishError>(
        PublishError::NoReceiver,
    ))
    &&& !before@.channels.contains_key(channel) ==> after.delivered() == before.delivered().insert(
        channel,
        Seq::<bool>::empty(),
    )
    &&& !before@.channels.contains_key(channel) ==> r == Err::<(), PublishError>(
        PublishError::NoSubscriber,
    )
}

impl DataBase {
    /// Opens the channel `name`, which was not open, keeping its sender.
    fn open_channel(&mut self, name: &String, sender: ChannelSender)
        requires
            !old(self)@.channels.contains_key(name@),
        ensures
            final(self)@.channels == old(self)@.channels.insert(name@, (sender.id(), sender.log())),
            final(self).delivered() == old(self).delivered().insert(name@, sender.taken()),
            final(self)@.data == old(self)@.data,
            final(self)@.history == old(self)@.history,
    {
        proof {
            use_type_invariant(&*self);
        }
        let ghost old_subs = self.subscribers@;
        let mut subs: Vec<(String, ChannelSender)> = Vec::new();
        std::mem::swap(&mut subs, &mut self.subscribers);
        subs.push((name.clone(), sender));
        proof {
            lemma_keyed_map(old_subs, sender_view());
            lemma_keyed_map(old_subs, sender_taken());
            lemma_keyed_map_push(old_subs, subs@.last(), sender_view());
            lemma_keyed_map_push(old_subs, subs@.last(), sender_taken());
        }
        self.subscribers = subs;
    }

    /// A receiver of the messages published to `channel` from now on,
    /// opening the channel when it was not open. The receiver belongs to
    /// the channel and is owed what is added to its log after this call.
    pub fn subscribe(&mut self, channel: &String) -> (r: ChannelReceiver)
        ensures
            subscribed(old(self)@, channel@, final(self)@, r.id(), r.start()),
            old(self)@.channels.contains_key(channel@) ==> final(self).delivered() == old(self).delivered(),
            !old(self)@.channels.contains_key(channel@) ==> final(self).delivered() == old(self).delivered().insert(channel@, Seq::<bool>::empty()),
    {
        proof {
            use_type_invariant(&*self);
            lemma_keyed_map(self.subscribers@, sender_view());
        }
        match find_name(&self.subscribers, channel) {
            Some(i) => sender_subscribe(&self.subscribers[i].1),
            None => {
                let (sender, receiver) = broadcast_channel(CHANNEL_CAPACITY);
                self.open_channel(channel, sender);
                receiver
            },
        }
    }

    /// Sends `message` to the subscribers of `channel`. On an open channel
    /// the message is handed to that channel's sender, whose log it joins;
    /// the result is `Ok` when some receiver took it and `NoReceiver` when
    /// none was left, which is up to the receivers' holders. A channel
    /// nobody opened is opened, with no subscriber and an empty log, nothing
    /// is sent, and the result is `NoSubscriber`.
    pub fn publish(&mut self, channel: &String, message: Vec<u8>) -> (r: Result<(), PublishError>)
        ensures
            publish_returned(*old(self), channel@, message@, *final(self), r),
    {
        proof {
            use_type_invariant(&*self);
            lemma_keyed_map(self.subscribers@, sender_view());
        }
        match find_name(&self.subscribers, channel) {
            Some(i) => {
                let ghost old_subs = self.subscribers@;
                let mut subs: Vec<(String, ChannelSender)> = Vec::new();
                std::mem::swap(&mut subs, &mut self.subscribers);
                let (name, mut sender) = subs.remove(i);
                let sent = sender_send(&mut sender, message);
                subs.insert(i, (name, sender));
                proof {
                    assert(subs@ =~= old_subs.update(i as int, subs@[i as int]));
                    lemma_keyed_map_update(old_subs, i as int, subs@[i as int], sender_view());
                    lemma_keyed_map(old_subs, sender_taken());
                    lemma_keyed_map_update(old_subs, i as int, subs@[i as int], sender_taken());
                }
                self.subscribers = subs;
                publish_result(sent)
            },
            None => {
                let (sender, _receiver) = broadcast_channel(CHANNEL_CAPACITY);
                self.open_channel(channel, sender);
                Err(PublishError::NoSubscriber)
            },
        }
    }
}

/// What publishing on an open channel gives, for what sending gave: success
/// when some receiver took the message, `NoReceiver` when none was left.
pub fn publish_result(sent: Result<usize, Vec<u8>>) -> (r: Result<(), PublishError>)
    ensures
        sent is Ok ==> r is Ok,
        sent is Err ==> r == Err::<(), PublishError>(PublishError::NoReceiver),
{
    match sent {
        Ok(_) => Ok(()),
        Err(_) => Err(PublishError::NoReceiver),
    }
}

impl Default for DataBase {
    fn default() -> (db: DataBase)
        ensures
            db@.data == Map::<Seq<char>, Seq<u8>>::empty(),
            db@.channels == Map::<Seq<char>, (nat, Seq<Seq<u8>>)>::empty(),
            db.delivered() == Map::<Seq<char>, Seq<bool>>::empty(),
            db@.history == Seq::<KeyOp>::empty(),
    {
        DataBase::new()
    }
}

/// Publishing on an open channel returns `Ok` exactly when the send
/// reached a receiver and `NoReceiver` exactly when it reached none: the
/// channel's record of sends grows by one entry, which is `true` just when
/// the result is `Ok`, while the message joins the channel's log. On a
/// channel nobody opened nothing is sent and the result is `NoSubscriber`.
pub proof fn lemma_publish_result_follows_delivery(
    before: DataBase,
    after: DataBase,
    channel: Seq<char>,
    message: Seq<u8>,
    r: Result<(), PublishError>,
)
    requires
        publish_returned(before, channel, message, after, r),
    ensures
        before@.channels.contains_key(channel) ==> after@.channels[channel].1 == before@.channels[channel].1.push(message),
        before@.channels.contains_key(channel) ==> after.delivered()[channel] == before.delivered()[channel].push(r is Ok),
        before@.channels.contains_key(channel) ==> (r is Ok <==> after.delivered()[channel].last()),
        before@.channels.contains_key(channel) ==> (r is Err <==> r == Err::<(), PublishError>(PublishError::NoReceiver)),
        !before@.channels.contains_key(channel) ==> r == Err::<(), PublishError>(PublishError::NoSubscriber),
        after@.data == before@.data,
{
}

/// A read after a write gives what was written, and the write leaves every
/// other key as it was.
pub proof fn lemma_get_after_set(data: Map<Seq<char>, Seq<u8>>, key: Seq<char>, value: Seq<u8>, other: Seq<char>)
    ensures
        data.insert(key, value).contains_key(key),
        data.insert(key, value)[key] == value,
        other != key ==> data.insert(key, value).contains_key(other) == data.contains_key(other),
        other != key && data.contains_key(other) ==> data.insert(key, value)[other] == data[other],
{
}

/// After a delete the key holds nothing, and every other key is as it was.
pub proof fn lemma_get_after_delete(data: Map<Seq<char>, Seq<u8>>, key: Seq<char>, other: Seq<char>)
    ensures
        !data.remove(key).contains_key(key),
        other != key ==> data.remove(key).contains_key(other) == data.contains_key(other),
        other != key && data.contains_key(other) ==> data.remove(key)[other] == data[other],
{
}

/// Of two writes to one key, the last one wins.
pub proof fn lemma_last_set_wins(data: Map<Seq<char>, Seq<u8>>, key: Seq<char>, first: Seq<u8>, second: Seq<u8>)
    ensures
        data.insert(key, first).insert(key, second) == data.insert(key, second),
{
    assert(data.insert(key, first).insert(key, second) =~= data.insert(key, second));
}

/// Making the changes `a` and then the changes `b` is making `a + b`.
pub proof fn lemma_apply_key_ops_concat(data: Map<Seq<char>, Seq<u8>>, a: Seq<KeyOp>, b: Seq<KeyOp>)
    ensures
        apply_key_ops(data, a + b) == apply_key_ops(apply_key_ops(data, a), b),
    decreases b.len(),
{
    if b.len() == 0 {
        assert(a + b =~= a);
    } else {
        let shorter = b.subrange(0, b.len() - 1);
        lemma_apply_key_ops_concat(data, a, shorter);
        assert((a + b).subrange(0, (a + b).len() - 1) =~= a + shorter);
        assert((a + b)[(a + b).len() - 1] == b[b.len() - 1]);
    }
}

/// A key that no change in a run touches keeps what it held.
pub proof fn lemma_key_untouched(data: Map<Seq<char>, Seq<u8>>, key: Seq<char>, ops: Seq<KeyOp>)
    requires
        forall|i: int| 0 <= i < ops.len() ==> op_key(#[trigger] ops[i]) != key,
    ensures
        apply_key_ops(data, ops).contains_key(key) == data.contains_key(key),
        data.contains_key(key) ==> apply_key_ops(data, ops)[key] == data[key],
    decreases ops.len(),
{
    if ops.len() > 0 {
        let shorter = ops.subrange(0, ops.len() - 1);
        assert forall|i: int| 0 <= i < shorter.len() implies op_key(#[trigger] shorter[i]) != key by {
            assert(shorter[i] == ops[i]);
        }
        lemma_key_untouched(data, key, shorter);
        assert(op_key(ops[ops.len() - 1]) != key);
    }
}

/// What a read of a key gives follows the last change made to the key:
/// after a `set` that no later `set` or `delete` of the same key follows,
/// the key holds the value set; after such a `delete` it holds nothing.
pub proof fn lemma_read_follows_last_change(db: DataBase, i: int)
    requires
        0 <= i < db@.history.len(),
        forall|j: int|
            i < j < db@.history.len() ==> op_key(#[trigger] db@.history[j]) != op_key(db@.history[i]),
    ensures
        db@.history[i] matches KeyOp::Store(k, v) ==> db@.data.contains_key(k) && db@.data[k] == v,
        db@.history[i] matches KeyOp::Delete(k) ==> !db@.data.contains_key(k),
{
    let h = db@.history;
    let key = op_key(h[i]);
    let upto = h.subrange(0, i + 1);
    let rest = h.subrange(i + 1, h.len() as int);
    assert(h =~= upto + rest);
    lemma_apply_key_ops_concat(Map::empty(), upto, rest);
    assert(upto.subrange(0, i) =~= h.subrange(0, i));
    assert forall|j: int| 0 <= j < rest.len() implies op_key(#[trigger] rest[j]) != key by {
        assert(rest[j] == h[i + 1 + j]);
    }
    lemma_key_untouched(apply_key_ops(Map::empty(), upto), key, rest);
}

/// One call on a store, as far as its channels go.
pub enum ChannelStep {
    /// `publish` of a message on a channel.
    Publish(Seq<char>, Seq<u8>),
    /// `subscribe` to a channel, giving a receiver with this id and start.
    Subscribe(Seq<char>, nat, nat),
    /// A call that leaves the channels as they are (`get`, `set`, `delete`).
    Keep,
}

/// `after` is what the call `step` makes of the store `before`.
pub open spec fn channel_step(before: StoreView, step: ChannelStep, after: StoreView) -> bool {
    match step {
        ChannelStep::Publish(c, m) => published(before, c, m, after),
        ChannelStep::Subscribe(c, id, start) => subscribed(before, c, after, id, start),
        ChannelStep::Keep => after.channels == before.channels,
    }
}

/// The messages a run of calls publishes on `channel`, in order.
pub open spec fn messages_on(steps: Seq<ChannelStep>, channel: Seq<char>) -> Seq<Seq<u8>>
    decreases steps.len(),
{
    if steps.len() == 0 {
        Seq::empty()
    } else {
        let before = messages_on(steps.subrange(0, steps.len() - 1), channel);
        match steps[steps.len() - 1] {
            ChannelStep::Publish(c, m) => if c == channel {
                before.push(m)
            } else {
                before
            },
            _ => before,
        }
    }
}

/// A subscriber is owed exactly what is published on its channel after it
/// subscribed: through any run of calls after `subscribe` (`states[0]` is
/// the store just after it), the channel keeps the receiver's id, and the
/// part of its log from the receiver's start on is the run's messages on
/// that channel, in order. Messages published on other channels are not
/// in it.
pub proof fn lemma_subscriber_owed_later_messages(
    before: StoreView,
    states: Seq<StoreView>,
    steps: Seq<ChannelStep>,
    channel: Seq<char>,
    id: nat,
    start: nat,
)
    requires
        states.len() == steps.len() + 1,
        subscribed(before, channel, states[0], id, start),
        forall|i: int| 0 <= i < steps.len() ==> channel_step(states[i], #[trigger] steps[i], states[i + 1]),
    ensures
        states.last().channels.contains_key(channel),
        states.last().channels[channel].0 == id,
        states.last().channels[channel].1 == states[0].channels[channel].1 + messages_on(steps, channel),
        states.last().channels[channel].1.subrange(start as int, states.last().channels[channel].1.len() as int)
            == messages_on(steps, channel),
    decreases steps.len(),
{
    let first = states[0].channels[channel].1;
    if steps.len() == 0 {
        assert(first + messages_on(steps, channel) =~= first);
    } else {
        let n = steps.len() - 1;
        let shorter_states = states.subrange(0, n + 1);
        let shorter_steps = steps.subrange(0, n);
        assert forall|i: int| 0 <= i < shorter_steps.len() implies channel_step(
            shorter_states[i],
            #[trigger] shorter_steps[i],
            shorter_states[i + 1],
        ) by {
            assert(shorter_steps[i] == steps[i]);
            assert(shorter_states[i] == states[i]);
            assert(shorter_states[i + 1] == states[i + 1]);
        }
        lemma_subscriber_owed_later_messages(before, shorter_states, shorter_steps, channel, id, start);
        let prev = states[n];
        let last = states[n + 1];
        assert(shorter_states.last() == prev);
        assert(channel_step(prev, steps[n], last));
        let owed = messages_on(shorter_steps, channel);
        assert(prev.channels[channel].1 == first + owed);
        match steps[n] {
            ChannelStep::Publish(c, m) => {
                if c == channel {
                    assert(last.channels[channel].1 == (first + owed).push(m));
                    assert((first + owed).push(m) =~= first + owed.push(m));
                } else {
                    assert(last.channels[channel] == prev.channels[channel]);
                }
            },
            ChannelStep::Subscribe(c, _, _) => {
                assert(last.channels[channel] == prev.channels[channel]);
            },
            ChannelStep::Keep => {},
        }
    }
    let last_log = states.last().channels[channel].1;
    assert(last_log.subrange(start as int, last_log.len() as int) =~= messages_on(steps, channel));
}

/// Publishing on one channel leaves every other open channel, its id and
/// its log, as it was: no subscriber of another channel is owed the
/// message.
pub proof fn lemma_publish_leaves_other_channels(
    s1: StoreView,
    s2: StoreView,
    channel: Seq<char>,
    other: Seq<char>,
    message: Seq<u8>,
)
    requires
        published(s1, channel, message, s2),
        s1.channels.contains_key(other),
        other != channel,
    ensures
        s2.channels.contains_key(other),
        s2.channels[other] == s1.channels[other],
{
}

/// Subscribing twice to one channel opens it once: the second subscription
/// changes nothing, and both receivers belong to the same channel and
/// start at the same place when nothing was published in between.
pub proof fn lemma_subscribe_twice(
    s0: StoreView,
    s1: StoreView,
    s2: StoreView,
    channel: Seq<char>,
    id1: nat,
    start1: nat,
    id2: nat,
    start2: nat,
)
    requires
        subscribed(s0, channel, s1, id1, start1),
        subscribed(s1, channel, s2, id2, start2),
    ensures
        s2 == s1,
        id2 == id1,
        start2 == start1,
{
}

/// A stored value.
#[derive(Debug)]
pub struct Entry {
    bytes: Vec<u8>,
}

impl View for Entry {
    type V = Seq<u8>;

    closed spec fn view(&self) -> Seq<u8> {
        self.bytes@
    }
}

impl Default for Entry {
    fn default() -> (e: Entry)
        ensures
            e@ == Seq::<u8>::empty(),
    {
        Entry { bytes: Vec::new() }
    }
}

} // verus!
