//! The subscription engine: the single owner of the topic-to-subscriber
//! state. It consumes one command frame at a time and answers with the
//! ordered list of deliveries — which reply goes to which client's mailbox.
//!
//! The order of the returned deliveries is the engine's ordering contract:
//! the acknowledgement to the issuing client always comes first, and for a
//! publish the UPDATE fan-out to the topic's subscribers follows, in
//! subscription order. The caller must hand the whole list to the mailboxes
//! before processing the next command (the fan-out barrier).

use crate::protocol::{
    content_view, publish_label, publish_label_bytes, subscribe_label, subscribe_label_bytes,
    ClientId, Frame, FrameView, MessageType,
};
use vstd::prelude::*;
use vstd::slice::slice_to_vec;
use vstd::std_specs::vec::vec_index_mut;

verus! {

/// The engine state as mathematics: topics in creation order, each paired
/// with its subscribers in subscription order.
pub type TopicsView = Seq<(Seq<u8>, Seq<ClientId>)>;

/// The mathematical value of the engine's backing storage.
pub open spec fn entries_view(entries: Seq<(Vec<u8>, Vec<ClientId>)>) -> TopicsView {
    entries.map_values(|e: (Vec<u8>, Vec<ClientId>)| (e.0@, e.1@))
}

/// The mathematical value of a delivery list: each recipient paired with
/// the value of the reply frame bound for it.
pub open spec fn deliveries_view(out: Seq<(ClientId, Frame)>) -> Seq<(ClientId, FrameView)> {
    out.map_values(|d: (ClientId, Frame)| (d.0, d.1@))
}

/// The index of the first entry whose topic is `t`, if there is one.
pub open spec fn find_topic(ts: TopicsView, t: Seq<u8>) -> Option<int>
    decreases ts.len(),
{
    if ts.len() == 0 {
        None
    } else if ts[0].0 == t {
        Some(0)
    } else {
        match find_topic(ts.drop_first(), t) {
            None => None,
            Some(i) => Some(i + 1),
        }
    }
}

/// What [`find_topic`] returns: the first index holding `t`, or nothing
/// when no entry holds it.
pub proof fn lemma_find_topic(ts: TopicsView, t: Seq<u8>)
    ensures
        match find_topic(ts, t) {
            Some(i) => 0 <= i < ts.len() && ts[i].0 == t && (forall|j: int|
                0 <= j < i ==> ts[j].0 != t),
            None => forall|j: int| 0 <= j < ts.len() ==> ts[j].0 != t,
        },
    decreases ts.len(),
{
    if ts.len() > 0 {
        lemma_find_topic(ts.drop_first(), t);
        if ts[0].0 != t {
            match find_topic(ts.drop_first(), t) {
                None => {
                    assert forall|j: int| 0 <= j < ts.len() implies ts[j].0 != t by {
                        if j > 0 {
                            assert(ts.drop_first()[j - 1] == ts[j]);
                        }
                    }
                },
                Some(i) => {
                    assert(ts.drop_first()[i] == ts[i + 1]);
                    assert forall|j: int| 0 <= j < i + 1 implies ts[j].0 != t by {
                        if j > 0 {
                            assert(ts.drop_first()[j - 1] == ts[j]);
                        }
                    }
                },
            }
        }
    }
}

/// The subscribers of topic `t`: the entry's list, or empty when the topic
/// has no entry yet.
pub open spec fn subscribers_of(ts: TopicsView, t: Seq<u8>) -> Seq<ClientId> {
    match find_topic(ts, t) {
        Some(i) => ts[i].1,
        None => Seq::empty(),
    }
}

/// The state after client `c` subscribes to topic `t`: the entry is created
/// on first use, and membership is idempotent.
pub open spec fn spec_subscribe(ts: TopicsView, t: Seq<u8>, c: ClientId) -> TopicsView {
    match find_topic(ts, t) {
        None => ts.push((t, seq![c])),
        Some(i) => if ts[i].1.contains(c) {
            ts
        } else {
            ts.update(i, (ts[i].0, ts[i].1.push(c)))
        },
    }
}

/// A subscriber list with every occurrence of `c` removed, order kept.
pub open spec fn remove_client(subs: Seq<ClientId>, c: ClientId) -> Seq<ClientId> {
    subs.filter(|x: ClientId| x != c)
}

/// The state after client `c` quits: it is removed from every topic's
/// subscriber list; the topic entries themselves stay, even when empty.
pub open spec fn spec_quit(ts: TopicsView, c: ClientId) -> TopicsView {
    Seq::new(ts.len(), |i: int| (ts[i].0, remove_client(ts[i].1, c)))
}

/// The acknowledgement sent back to the issuer of a command.
pub open spec fn ok_reply(topic: Seq<u8>, label: Seq<u8>, sender: ClientId) -> FrameView {
    FrameView { typ: MessageType::OK, topic, content: Some(label), sender }
}

/// The fan-out reply carrying a publish's content to one subscriber.
pub open spec fn update_reply(topic: Seq<u8>, content: Option<Seq<u8>>, sender: ClientId) -> FrameView {
    FrameView { typ: MessageType::UPDATE, topic, content, sender }
}

/// The final reply sent to a quitting client's own mailbox.
pub open spec fn quit_reply(sender: ClientId) -> FrameView {
    FrameView { typ: MessageType::QUIT, topic: Seq::empty(), content: None, sender }
}

/// The fan-out of one publish: an UPDATE delivery to each subscriber, in
/// subscription order.
pub open spec fn fanout_deliveries(subs: Seq<ClientId>, f: FrameView) -> Seq<(ClientId, FrameView)> {
    subs.map_values(|c: ClientId| (c, update_reply(f.topic, f.content, f.sender)))
}

/// The deliveries a command frame produces, in order. A publish is
/// acknowledged to the publisher first and then fanned out to every
/// subscriber of its topic, in subscription order; a subscribe or quit is
/// answered only to its issuer; reply frames produce nothing.
pub open spec fn spec_replies(ts: TopicsView, f: FrameView) -> Seq<(ClientId, FrameView)> {
    match f.typ {
        MessageType::PUB => seq![(f.sender, ok_reply(f.topic, publish_label(), f.sender))]
            + fanout_deliveries(subscribers_of(ts, f.topic), f),
        MessageType::SUB => seq![(f.sender, ok_reply(f.topic, subscribe_label(), f.sender))],
        MessageType::QUIT => seq![(f.sender, quit_reply(f.sender))],
        _ => Seq::empty(),
    }
}

/// The state a command frame leaves behind: a publish changes nothing, a
/// subscribe adds its sender to the topic, a quit removes its sender from
/// every topic, and reply frames change nothing.
pub open spec fn spec_next(ts: TopicsView, f: FrameView) -> TopicsView {
    match f.typ {
        MessageType::SUB => spec_subscribe(ts, f.topic, f.sender),
        MessageType::QUIT => spec_quit(ts, f.sender),
        _ => ts,
    }
}

/// Well-formedness of the engine state: topics are unique, and no client
/// appears twice in one topic's subscriber list.
pub open spec fn wf_topics(ts: TopicsView) -> bool {
    &&& forall|i: int, j: int|
        0 <= i < ts.len() && 0 <= j < ts.len() && i != j ==> ts[i].0 != ts[j].0
    &&& forall|i: int| 0 <= i < ts.len() ==> (#[trigger] ts[i].1).no_duplicates()
}

/// Removing a client commutes with extending the list at the back.
proof fn lemma_remove_client_push(s: Seq<ClientId>, x: ClientId, c: ClientId)
    ensures
        remove_client(s.push(x), c) == remove_client(s, c) + (if x != c {
            seq![x]
        } else {
            Seq::<ClientId>::empty()
        }),
{
    reveal(Seq::filter);
    assert(s.push(x).drop_last() == s) by {
        assert(s.push(x).drop_last() =~= s);
    }
    if x != c {
        assert(remove_client(s, c).push(x) =~= remove_client(s, c) + seq![x]);
    } else {
        assert(remove_client(s, c) =~= remove_client(s, c) + Seq::<ClientId>::empty());
    }
}

/// What removal guarantees: the client is gone, nobody else is added, and a
/// duplicate-free list stays duplicate-free.
pub proof fn lemma_remove_client_props(s: Seq<ClientId>, c: ClientId)
    ensures
        !remove_client(s, c).contains(c),
        forall|x: ClientId| #[trigger] remove_client(s, c).contains(x) ==> s.contains(x),
        s.no_duplicates() ==> remove_client(s, c).no_duplicates(),
        forall|x: ClientId|
            x != c && s.contains(x) ==> #[trigger] remove_client(s, c).contains(x),
    decreases s.len(),
{
    reveal(Seq::filter);
    if s.len() == 0 {
        assert(remove_client(s, c).len() == 0);
    } else {
        let rest = s.drop_last();
        let last = s.last();
        lemma_remove_client_props(rest, c);
        assert(rest.push(last) =~= s);
        lemma_remove_client_push(rest, last, c);
        let r = remove_client(s, c);
        let rr = remove_client(rest, c);
        if last != c {
            assert(r == rr + seq![last]);
            assert(r.drop_last() == rr) by {
                assert(r.drop_last() =~= rr);
            }
            assert(!r.contains(c)) by {
                assert(forall|i: int|
                    0 <= i < r.len() ==> r[i] == (if i < rr.len() {
                        rr[i]
                    } else {
                        last
                    }));
            }
            assert forall|x: ClientId| #[trigger] r.contains(x) implies s.contains(x) by {
                let i = choose|i: int| 0 <= i < r.len() && r[i] == x;
                if i < rr.len() {
                    assert(rr.contains(x));
                } else {
                    assert(s.last() == x);
                    assert(s[s.len() - 1] == x);
                }
            }
            if s.no_duplicates() {
                assert(rest.no_duplicates()) by {
                    assert(forall|i: int| 0 <= i < rest.len() ==> rest[i] == s[i]);
                }
                assert(!rest.contains(last)) by {
                    assert(forall|i: int| 0 <= i < rest.len() ==> #[trigger] s[i] != s[s.len()
                        - 1]);
                }
                assert(r.no_duplicates()) by {
                    assert(!rr.contains(last));
                    assert(forall|i: int| 0 <= i < rr.len() ==> rr.contains(#[trigger] rr[i]));
                }
            }
            assert forall|x: ClientId| x != c && s.contains(x) implies #[trigger] r.contains(
                x,
            ) by {
                let i = choose|i: int| 0 <= i < s.len() && s[i] == x;
                if i < s.len() - 1 {
                    assert(rest[i] == x);
                    assert(rest.contains(x));
                    assert(rr.contains(x));
                    let j = choose|j: int| 0 <= j < rr.len() && rr[j] == x;
                    assert(r[j] == x);
                } else {
                    assert(r[r.len() - 1] == x);
                }
            }
        } else {
            assert(r == rr) by {
                assert(r =~= rr + Seq::<ClientId>::empty());
            }
            assert forall|x: ClientId| x != c && s.contains(x) implies #[trigger] r.contains(
                x,
            ) by {
                let i = choose|i: int| 0 <= i < s.len() && s[i] == x;
                assert(i < s.len() - 1);
                assert(rest[i] == x);
                assert(rest.contains(x));
            }
            if s.no_duplicates() {
                assert(rest.no_duplicates()) by {
                    assert(forall|i: int| 0 <= i < rest.len() ==> rest[i] == s[i]);
                }
            }
        }
    }
}

/// Subscribing preserves well-formedness.
pub proof fn lemma_subscribe_wf(ts: TopicsView, t: Seq<u8>, c: ClientId)
    requires
        wf_topics(ts),
    ensures
        wf_topics(spec_subscribe(ts, t, c)),
{
    lemma_find_topic(ts, t);
    match find_topic(ts, t) {
        None => {
            let ts2 = ts.push((t, seq![c]));
            assert forall|i: int| 0 <= i < ts2.len() implies (#[trigger] ts2[i].1).no_duplicates() by {
                if i < ts.len() {
                    assert(ts2[i] == ts[i]);
                } else {
                    assert(ts2[i].1 =~= seq![c]);
                }
            }
        },
        Some(i) => {
            if !ts[i].1.contains(c) {
                let ts2 = ts.update(i, (ts[i].0, ts[i].1.push(c)));
                assert forall|k: int|
                    0 <= k < ts2.len() implies (#[trigger] ts2[k].1).no_duplicates() by {
                    if k != i {
                        assert(ts2[k] == ts[k]);
                    } else {
                        let l = ts[i].1.push(c);
                        assert(forall|a: int| 0 <= a < ts[i].1.len() ==> l[a] == ts[i].1[a]);
                        assert forall|a: int, b: int|
                            0 <= a < l.len() && 0 <= b < l.len() && a != b implies l[a] != l[b] by {
                            if a == l.len() - 1 {
                                assert(ts[i].1[b] != c) by {
                                    if ts[i].1[b] == c {
                                        assert(ts[i].1.contains(c));
                                    }
                                }
                            } else if b == l.len() - 1 {
                                assert(ts[i].1[a] != c) by {
                                    if ts[i].1[a] == c {
                                        assert(ts[i].1.contains(c));
                                    }
                                }
                            }
                        }
                    }
                }
            }
        },
    }
}

/// Quitting preserves well-formedness.
pub proof fn lemma_quit_wf(ts: TopicsView, c: ClientId)
    requires
        wf_topics(ts),
    ensures
        wf_topics(spec_quit(ts, c)),
{
    assert forall|i: int|
        0 <= i < spec_quit(ts, c).len() implies (#[trigger] spec_quit(ts, c)[i].1).no_duplicates() by {
        lemma_remove_client_props(ts[i].1, c);
    }
}

/// The engine: the sole owner of the topic-to-subscriber mapping. One task
/// applies commands to it serially; nothing else ever touches its state.
pub struct PubSubTopics {
    topics_state: Vec<(Vec<u8>, Vec<ClientId>)>,
}

impl View for PubSubTopics {
    type V = TopicsView;

    closed spec fn view(&self) -> TopicsView {
        entries_view(self.topics_state@)
    }
}

impl PubSubTopics {
    /// Well-formedness of the engine state.
    pub open spec fn wf(&self) -> bool {
        wf_topics(self@)
    }

    /// A fresh engine with no topics.
    pub fn new() -> (r: PubSubTopics)
        ensures
            r@ == Seq::<(Seq<u8>, Seq<ClientId>)>::empty(),
            r.wf(),
    {
        let r = PubSubTopics { topics_state: Vec::new() };
        proof {
            assert(r@ =~= Seq::<(Seq<u8>, Seq<ClientId>)>::empty());
        }
        r
    }

    /// The index of the entry for topic `t`, if the topic exists.
    fn find_topic_index(&self, t: &[u8]) -> (r: Option<usize>)
        ensures
            match r {
                Some(i) => i < self.topics_state@.len() && find_topic(self@, t@) == Some(i as int),
                None => find_topic(self@, t@) == None::<int>,
            },
    {
        proof {
            lemma_find_topic(self@, t@);
        }
        let n = self.topics_state.len();
        let mut j: usize = 0;
        while j < n
            invariant
                j <= n,
                n == self.topics_state@.len(),
                forall|k: int| 0 <= k < j ==> self@[k].0 != t@,
            decreases n - j,
        {
            if bytes_eq(self.topics_state[j].0.as_slice(), t) {
                proof {
                    lemma_find_topic(self@, t@);
                    assert(self@[j as int].0 == t@);
                }
                return Some(j);
            }
            j += 1;
        }
        proof {
            lemma_find_topic(self@, t@);
        }
        None
    }

    /// Applies one command frame and returns its deliveries, in order: the
    /// acknowledgement to the issuer first, then — for a publish — one
    /// UPDATE per subscriber of the topic, in subscription order. The state
    /// changes exactly as [`spec_next`] says.
    pub fn process_frame(&mut self, frame: &Frame) -> (out: Vec<(ClientId, Frame)>)
        requires
            old(self).wf(),
        ensures
            final(self).wf(),
            final(self)@ == spec_next(old(self)@, frame@),
            deliveries_view(out@) == spec_replies(old(self)@, frame@),
    {
        let mut out: Vec<(ClientId, Frame)> = Vec::new();
        match frame.0 {
            MessageType::PUB => {
                out.push(
                    (
                        frame.3,
                        Frame(
                            MessageType::OK,
                            clone_bytes(&frame.1),
                            Some(publish_label_bytes()),
                            frame.3,
                        ),
                    ),
                );
                match self.find_topic_index(frame.1.as_slice()) {
                    None => {
                        proof {
                            assert(deliveries_view(out@) =~= spec_replies(self@, frame@));
                        }
                    },
                    Some(i) => {
                        let ghost subs = self@[i as int].1;
                        let n_subs = self.topics_state[i].1.len();
                        let mut k: usize = 0;
                        while k < n_subs
                            invariant
                                k <= n_subs,
                                old(self).wf(),
                                self.topics_state == old(self).topics_state,
                                i < self.topics_state@.len(),
                                subs == self@[i as int].1,
                                n_subs == subs.len(),
                                frame.0 == MessageType::PUB,
                                find_topic(self@, frame@.topic) == Some(i as int),
                                subscribers_of(self@, frame@.topic) == subs,
                                out@.len() == k + 1,
                                deliveries_view(out@) =~= spec_replies(self@, frame@).subrange(
                                    0,
                                    k + 1,
                                ),
                                spec_replies(self@, frame@).len() == n_subs + 1,
                            decreases n_subs - k,
                        {
                            let c = self.topics_state[i].1[k];
                            let ghost prev_out = out@;
                            out.push(
                                (
                                    c,
                                    Frame(
                                        MessageType::UPDATE,
                                        clone_bytes(&frame.1),
                                        clone_content(&frame.2),
                                        frame.3,
                                    ),
                                ),
                            );
                            proof {
                                let ds = spec_replies(self@, frame@);
                                assert(ds[k + 1] == (
                                    subs[k as int],
                                    update_reply(frame@.topic, frame@.content, frame@.sender),
                                ));
                                assert(deliveries_view(out@)[k + 1] == ds[k + 1]);
                                assert forall|j: int| 0 <= j < k + 1 implies deliveries_view(
                                    out@,
                                )[j] == deliveries_view(prev_out)[j] by {
                                    assert(out@[j] == prev_out[j]);
                                }
                                assert(deliveries_view(out@) =~= ds.subrange(0, k + 2));
                            }
                            k += 1;
                        }
                        proof {
                            let ds = spec_replies(self@, frame@);
                            assert(ds.subrange(0, ds.len() as int) =~= ds);
                        }
                    },
                }
            },
            MessageType::SUB => {
                out.push(
                    (
                        frame.3,
                        Frame(
                            MessageType::OK,
                            clone_bytes(&frame.1),
                            Some(subscribe_label_bytes()),
                            frame.3,
                        ),
                    ),
                );
                proof {
                    lemma_subscribe_wf(self@, frame@.topic, frame@.sender);
                }
                match self.find_topic_index(frame.1.as_slice()) {
                    None => {
                        let mut single: Vec<ClientId> = Vec::new();
                        single.push(frame.3);
                        let entry = (clone_bytes(&frame.1), single);
                        self.topics_state.push(entry);
                        proof {
                            assert(self@ =~= spec_subscribe(old(self)@, frame@.topic, frame@.sender));
                        }
                    },
                    Some(i) => {
                        if !contains_client(&self.topics_state[i].1, frame.3) {
                            let t = clone_bytes(&self.topics_state[i].0);
                            let mut subs = clone_clients(&self.topics_state[i].1);
                            subs.push(frame.3);
                            let e = vec_index_mut(&mut self.topics_state, i);
                            *e = (t, subs);
                            proof {
                                assert(self@ =~= spec_subscribe(
                                    old(self)@,
                                    frame@.topic,
                                    frame@.sender,
                                ));
                            }
                        }
                    },
                }
                proof {
                    assert(deliveries_view(out@) =~= spec_replies(old(self)@, frame@));
                }
            },
            MessageType::QUIT => {
                out.push((frame.3, Frame(MessageType::QUIT, Vec::new(), None, frame.3)));
                let n = self.topics_state.len();
                let mut new_state: Vec<(Vec<u8>, Vec<ClientId>)> = Vec::new();
                let mut i: usize = 0;
                while i < n
                    invariant
                        i <= n,
                        self.topics_state == old(self).topics_state,
                        n == self.topics_state@.len(),
                        new_state@.len() == i,
                        entries_view(new_state@) =~= spec_quit(self@, frame.3).subrange(
                            0,
                            i as int,
                        ),
                        frame.0 == MessageType::QUIT,
                    decreases n - i,
                {
                    let t = clone_bytes(&self.topics_state[i].0);
                    let subs = remove_from(&self.topics_state[i].1, frame.3);
                    let ghost prev = new_state@;
                    new_state.push((t, subs));
                    proof {
                        let q = spec_quit(self@, frame.3);
                        assert(self@[i as int] == (
                            self.topics_state@[i as int].0@,
                            self.topics_state@[i as int].1@,
                        ));
                        assert(entries_view(new_state@)[i as int] == (
                            self@[i as int].0,
                            remove_client(self@[i as int].1, frame.3),
                        ));
                        assert forall|j: int| 0 <= j < i implies entries_view(new_state@)[j]
                            == q[j] by {
                            assert(entries_view(prev)[j] == q.subrange(0, i as int)[j]);
                            assert(new_state@[j] == prev[j]);
                        }
                        assert(entries_view(new_state@) =~= q.subrange(0, i + 1));
                    }
                    i += 1;
                }
                self.topics_state = new_state;
                proof {
                    assert(self@ =~= spec_quit(old(self)@, frame@.sender));
                    lemma_quit_wf(old(self)@, frame@.sender);
                    assert(deliveries_view(out@) =~= spec_replies(old(self)@, frame@));
                }
            },
            _ => {
                proof {
                    assert(deliveries_view(out@) =~= spec_replies(self@, frame@));
                }
            },
        }
        out
    }
}

/// Whether two byte strings are equal.
fn bytes_eq(a: &[u8], b: &[u8]) -> (r: bool)
    ensures
        r == (a@ == b@),
{
    if a.len() != b.len() {
        return false;
    }
    let mut i: usize = 0;
    while i < a.len()
        invariant
            i <= a@.len(),
            a@.len() == b@.len(),
            forall|j: int| 0 <= j < i ==> a@[j] == b@[j],
        decreases a@.len() - i,
    {
        if *vstd::slice::slice_index_get(a, i) != *vstd::slice::slice_index_get(b, i) {
            return false;
        }
        i += 1;
    }
    proof {
        assert(a@ =~= b@);
    }
    true
}

/// Whether a subscriber list holds the given client.
fn contains_client(subs: &Vec<ClientId>, c: ClientId) -> (r: bool)
    ensures
        r == subs@.contains(c),
{
    let mut i: usize = 0;
    while i < subs.len()
        invariant
            i <= subs@.len(),
            forall|j: int| 0 <= j < i ==> subs@[j] != c,
        decreases subs@.len() - i,
    {
        if subs[i] == c {
            return true;
        }
        i += 1;
    }
    false
}

/// A copy of a subscriber list with every occurrence of the client removed.
fn remove_from(subs: &Vec<ClientId>, c: ClientId) -> (r: Vec<ClientId>)
    ensures
        r@ == remove_client(subs@, c),
{
    let mut out: Vec<ClientId> = Vec::new();
    proof {
        reveal(Seq::filter);
        assert(subs@.subrange(0, 0) =~= Seq::<ClientId>::empty());
    }
    let mut i: usize = 0;
    while i < subs.len()
        invariant
            i <= subs@.len(),
            out@ == remove_client(subs@.subrange(0, i as int), c),
        decreases subs@.len() - i,
    {
        let x = subs[i];
        if x != c {
            out.push(x);
        }
        proof {
            lemma_remove_client_push(subs@.subrange(0, i as int), subs@[i as int], c);
            assert(subs@.subrange(0, i + 1) =~= subs@.subrange(0, i as int).push(subs@[i as int]));
            if x != c {
                assert(out@ =~= remove_client(subs@.subrange(0, i as int), c) + seq![x]);
            } else {
                assert(out@ =~= remove_client(subs@.subrange(0, i as int), c)
                    + Seq::<ClientId>::empty());
            }
        }
        i += 1;
    }
    proof {
        assert(subs@.subrange(0, subs@.len() as int) =~= subs@);
    }
    out
}

/// A copy of a byte string.
fn clone_bytes(v: &Vec<u8>) -> (r: Vec<u8>)
    ensures
        r@ == v@,
{
    slice_to_vec(v.as_slice())
}

/// A copy of a subscriber list.
fn clone_clients(v: &Vec<ClientId>) -> (r: Vec<ClientId>)
    ensures
        r@ == v@,
{
    slice_to_vec(v.as_slice())
}

/// A copy of optional content.
fn clone_content(c: &Option<Vec<u8>>) -> (r: Option<Vec<u8>>)
    ensures
        content_view(r) == content_view(*c),
{
    match c {
        Some(v) => Some(clone_bytes(v)),
        None => None,
    }
}

} // verus!
