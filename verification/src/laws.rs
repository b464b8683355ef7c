//! The engine's delivery guarantees, stated and proved as laws over its
//! mathematical model: who receives what when a command is processed, that
//! double subscription causes no double delivery, and that a quit client
//! receives nothing further.

use crate::protocol::{ClientId, FrameView, MessageType};
use crate::pub_sub_topics::{
    fanout_deliveries, find_topic, lemma_find_topic, lemma_remove_client_props, lemma_subscribe_wf,
    remove_client, spec_next, spec_quit, spec_replies, spec_subscribe, subscribers_of, wf_topics,
    TopicsView,
};
use vstd::prelude::*;

verus! {

/// How many deliveries in `ds` are addressed to client `c` and carry a
/// frame of type `t`.
pub open spec fn count_to(ds: Seq<(ClientId, FrameView)>, c: ClientId, t: MessageType) -> nat
    decreases ds.len(),
{
    if ds.len() == 0 {
        0
    } else {
        (if ds[0].0 == c && ds[0].1.typ == t {
            1nat
        } else {
            0nat
        }) + count_to(ds.drop_first(), c, t)
    }
}

/// How many times client `c` occurs in a subscriber list.
pub open spec fn occurrences(s: Seq<ClientId>, c: ClientId) -> nat
    decreases s.len(),
{
    if s.len() == 0 {
        0
    } else {
        (if s[0] == c {
            1nat
        } else {
            0nat
        }) + occurrences(s.drop_first(), c)
    }
}

/// A client occurs zero times in a list that does not hold it, and exactly
/// once in a duplicate-free list that does.
proof fn lemma_occurrences(s: Seq<ClientId>, c: ClientId)
    ensures
        !s.contains(c) ==> occurrences(s, c) == 0,
        s.contains(c) && s.no_duplicates() ==> occurrences(s, c) == 1,
    decreases s.len(),
{
    if s.len() > 0 {
        let rest = s.drop_first();
        lemma_occurrences(rest, c);
        assert(forall|j: int| 0 <= j < rest.len() ==> #[trigger] rest[j] == s[j + 1]);
        if !s.contains(c) {
            assert(!rest.contains(c)) by {
                if rest.contains(c) {
                    let j = choose|j: int| 0 <= j < rest.len() && rest[j] == c;
                    assert(s[j + 1] == c);
                }
            }
        }
        if s.contains(c) && s.no_duplicates() {
            assert(rest.no_duplicates());
            let i = choose|i: int| 0 <= i < s.len() && s[i] == c;
            if s[0] == c {
                assert(!rest.contains(c)) by {
                    if rest.contains(c) {
                        let j = choose|j: int| 0 <= j < rest.len() && rest[j] == c;
                        assert(s[j + 1] == s[0]);
                    }
                }
            } else {
                assert(rest[i - 1] == c);
                assert(rest.contains(c));
            }
        }
    }
}

/// Counting deliveries over a fan-out: each UPDATE goes to one subscriber,
/// so the UPDATE count to a client is its occurrence count in the list, and
/// a fan-out holds no OK at all.
proof fn lemma_fanout_counts(subs: Seq<ClientId>, f: FrameView, c: ClientId)
    ensures
        count_to(fanout_deliveries(subs, f), c, MessageType::UPDATE) == occurrences(subs, c),
        count_to(fanout_deliveries(subs, f), c, MessageType::OK) == 0,
    decreases subs.len(),
{
    if subs.len() > 0 {
        lemma_fanout_counts(subs.drop_first(), f, c);
        assert(fanout_deliveries(subs, f).drop_first() =~= fanout_deliveries(
            subs.drop_first(),
            f,
        ));
    }
}

/// For a publish to a topic with subscriber set `S`, exactly one UPDATE is
/// delivered to each member of `S` and none to a non-member, and exactly
/// one OK is delivered to the publisher and none to anyone else.
pub proof fn lemma_publish_fanout(ts: TopicsView, f: FrameView, c: ClientId)
    requires
        wf_topics(ts),
        f.typ == MessageType::PUB,
    ensures
        count_to(spec_replies(ts, f), c, MessageType::UPDATE) == if subscribers_of(
            ts,
            f.topic,
        ).contains(c) {
            1nat
        } else {
            0nat
        },
        count_to(spec_replies(ts, f), c, MessageType::OK) == if c == f.sender {
            1nat
        } else {
            0nat
        },
{
    let subs = subscribers_of(ts, f.topic);
    let ds = spec_replies(ts, f);
    assert(ds.drop_first() =~= fanout_deliveries(subs, f));
    lemma_fanout_counts(subs, f, c);
    lemma_find_topic(ts, f.topic);
    match find_topic(ts, f.topic) {
        Some(i) => {
            assert(subs.no_duplicates());
        },
        None => {
            assert(subs =~= Seq::<ClientId>::empty());
        },
    }
    lemma_occurrences(subs, c);
}

/// Subscribing a client to a topic twice leaves exactly the state of
/// subscribing once, and a subsequent publish to that topic delivers
/// exactly one UPDATE to the client: no duplicate delivery.
pub proof fn lemma_subscribe_idempotent(ts: TopicsView, t: Seq<u8>, c: ClientId, f: FrameView)
    requires
        wf_topics(ts),
        f.typ == MessageType::PUB,
        f.topic == t,
    ensures
        spec_subscribe(spec_subscribe(ts, t, c), t, c) == spec_subscribe(ts, t, c),
        count_to(spec_replies(spec_subscribe(ts, t, c), f), c, MessageType::UPDATE) == 1,
{
    let ts1 = spec_subscribe(ts, t, c);
    lemma_subscribe_wf(ts, t, c);
    lemma_find_topic(ts, t);
    lemma_find_topic(ts1, t);
    match find_topic(ts, t) {
        None => {
            let last = ts.len() as int;
            assert(ts1 == ts.push((t, seq![c])));
            assert(ts1[last].0 == t);
            match find_topic(ts1, t) {
                None => {
                    assert(false);
                },
                Some(i1) => {
                    assert(i1 == last) by {
                        if i1 < last {
                            assert(ts1[i1] == ts[i1]);
                        }
                    }
                    assert(ts1[i1].1 == seq![c]);
                    assert(ts1[i1].1.contains(c)) by {
                        assert(ts1[i1].1[0] == c);
                    }
                },
            }
        },
        Some(i) => {
            if ts[i].1.contains(c) {
                assert(ts1 == ts);
            } else {
                assert(ts1 == ts.update(i, (ts[i].0, ts[i].1.push(c))));
                assert(ts1[i].0 == t);
                assert(ts1[i].1.contains(c)) by {
                    assert(ts1[i].1[ts[i].1.len() as int] == c);
                }
            }
            match find_topic(ts1, t) {
                None => {
                    assert(false);
                },
                Some(i1) => {
                    assert(i1 == i) by {
                        if i1 < i {
                            assert(ts1[i1] == ts[i1]);
                        }
                        if i < i1 {
                            assert(ts1[i].0 == t);
                        }
                    }
                },
            }
        },
    }
    let i1 = find_topic(ts1, t)->Some_0;
    assert(ts1[i1].1.contains(c));
    assert(spec_subscribe(ts1, t, c) == ts1);
    assert(subscribers_of(ts1, t).contains(c));
    lemma_publish_fanout(ts1, f, c);
}

/// After a client quits, no delivery of the next command — issued by any
/// other client — is addressed to it: it is out of every subscriber set.
pub proof fn lemma_quit_silences(ts: TopicsView, c: ClientId, f: FrameView)
    requires
        wf_topics(ts),
        f.sender != c,
    ensures
        forall|k: int|
            0 <= k < spec_replies(spec_quit(ts, c), f).len() ==> (#[trigger] spec_replies(
                spec_quit(ts, c),
                f,
            )[k]).0 != c,
{
    let tsq = spec_quit(ts, c);
    let ds = spec_replies(tsq, f);
    match f.typ {
        MessageType::PUB => {
            let subs = subscribers_of(tsq, f.topic);
            lemma_find_topic(tsq, f.topic);
            assert(!subs.contains(c)) by {
                match find_topic(tsq, f.topic) {
                    Some(i) => {
                        assert(tsq[i].1 == remove_client(ts[i].1, c));
                        lemma_remove_client_props(ts[i].1, c);
                    },
                    None => {},
                }
            }
            assert forall|k: int| 0 <= k < ds.len() implies (#[trigger] ds[k]).0 != c by {
                if k > 0 {
                    assert(ds[k].0 == subs[k - 1]);
                    if subs[k - 1] == c {
                        assert(subs.contains(c));
                    }
                }
            }
        },
        _ => {},
    }
}

/// A client absent from every subscriber set stays absent across any
/// command issued by another client: once quit, a client reappears only by
/// subscribing again itself.
pub proof fn lemma_absent_preserved(ts: TopicsView, f: FrameView, c: ClientId)
    requires
        f.sender != c,
        forall|i: int| 0 <= i < ts.len() ==> !(#[trigger] ts[i].1).contains(c),
    ensures
        forall|i: int|
            0 <= i < spec_next(ts, f).len() ==> !(#[trigger] spec_next(ts, f)[i].1).contains(c),
{
    let ts2 = spec_next(ts, f);
    match f.typ {
        MessageType::SUB => {
            lemma_find_topic(ts, f.topic);
            assert forall|i: int| 0 <= i < ts2.len() implies !(#[trigger] ts2[i].1).contains(
                c,
            ) by {
                match find_topic(ts, f.topic) {
                    None => {
                        if i < ts.len() {
                            assert(ts2[i] == ts[i]);
                        } else {
                            assert(ts2[i].1 == seq![f.sender]);
                            if ts2[i].1.contains(c) {
                                let j = choose|j: int|
                                    0 <= j < ts2[i].1.len() && ts2[i].1[j] == c;
                                assert(ts2[i].1[j] == f.sender);
                            }
                        }
                    },
                    Some(t_i) => {
                        if ts[t_i].1.contains(f.sender) {
                            assert(ts2[i] == ts[i]);
                        } else if i != t_i {
                            assert(ts2[i] == ts[i]);
                        } else {
                            let l = ts[t_i].1.push(f.sender);
                            assert(ts2[i].1 == l);
                            if l.contains(c) {
                                let j = choose|j: int| 0 <= j < l.len() && l[j] == c;
                                if j < ts[t_i].1.len() {
                                    assert(ts[t_i].1[j] == c);
                                    assert(ts[t_i].1.contains(c));
                                } else {
                                    assert(l[j] == f.sender);
                                }
                            }
                        }
                    },
                }
            }
        },
        MessageType::QUIT => {
            assert forall|i: int| 0 <= i < ts2.len() implies !(#[trigger] ts2[i].1).contains(
                c,
            ) by {
                assert(ts2[i].1 == remove_client(ts[i].1, f.sender));
                lemma_remove_client_props(ts[i].1, f.sender);
                if ts2[i].1.contains(c) {
                    assert(ts[i].1.contains(c));
                }
            }
        },
        _ => {},
    }
}

} // verus!

