use vstd::prelude::*;
use std::collections::HashMap;
use std::sync::Arc;
use tokio::sync::mpsc;
use tokio::sync::RwLock;
use crate::text::{signed_decimal, push_signed};
use vstd::std_specs::iter::IteratorSpec;
use vstd::std_specs::hash::spec_hash_map_iter;

verus! {

broadcast use vstd::std_specs::hash::group_hash_axioms;

// ---------------------------------------------------------------------------
// Channels, locks and messages of the outside crates.
// ---------------------------------------------------------------------------

#[verifier::external_type_specification]
#[verifier::external_body]
#[verifier::reject_recursive_types(T)]
pub struct ExUnboundedSender<T>(mpsc::UnboundedSender<T>);

#[verifier::external_type_specification]
#[verifier::external_body]
#[verifier::reject_recursive_types(T)]
pub struct ExUnboundedReceiver<T>(mpsc::UnboundedReceiver<T>);

#[verifier::external_type_specification]
#[verifier::external_body]
#[verifier::reject_recursive_types(T)]
pub struct ExRwLock<T: ?Sized>(RwLock<T>);

#[verifier::external_type_specification]
#[verifier::external_body]
pub struct ExMessage(warp::ws::Message);

#[verifier::external_type_specification]
#[verifier::external_body]
pub struct ExWarpError(warp::Error);

/// `tokio::sync::mpsc::unbounded_channel`: a fresh channel, as its sending
/// and its receiving half. The halves have no model here; nothing is
/// claimed of them.
#[verifier::external_body]
fn unbounded_channel<T>() -> (mpsc::UnboundedSender<T>, mpsc::UnboundedReceiver<T>) {
    mpsc::unbounded_channel()
}

/// `Clone::clone` of `tokio::sync::mpsc::UnboundedSender`: another handle
/// on the same channel. The clone shares the channel (the same `Arc`) and
/// holds no state of its own, so it is taken as the same sender.
pub assume_specification<T>[ <mpsc::UnboundedSender<T> as Clone>::clone ](
    tx: &mpsc::UnboundedSender<T>,
) -> (other: mpsc::UnboundedSender<T>)
    ensures
        other == *tx,
;

/// `tokio::sync::RwLock::new`: a lock around `value`. Locks have no model
/// here; nothing is claimed of the result.
#[verifier::external_body]
fn rw_lock<T>(value: T) -> RwLock<T> {
    RwLock::new(value)
}

// ---------------------------------------------------------------------------
// The hub.
// ---------------------------------------------------------------------------

pub type UpdateReceiver = mpsc::UnboundedReceiver<Result<warp::ws::Message, warp::Error>>;

pub type UpdateSender = mpsc::UnboundedSender<Result<warp::ws::Message, warp::Error>>;

pub type ConnectionMap = HashMap<i64, UpdateSender>;

pub type ArcHub = Arc<RwLock<Hub>>;

/// The text of a connection with id `id`.
pub open spec fn conn_text(id: int) -> Seq<char> {
    seq!['H', 'u', 'b', 'C', 'o', 'n', 'n', '[', 'i', 'd', '='] + signed_decimal(id) + seq![
        ',',
        ' ',
        '.',
        '.',
        '.',
        ']',
    ]
}

/// A connection is represented here
#[derive(Clone)]
pub struct HubConn {
    pub id: i64,
    pub tx: UpdateSender,
}

impl HubConn {
    /// The connection as text, with its id.
    pub fn to_string(&self) -> (s: String)
        ensures
            s@ == conn_text(self.id as int),
    {
        let mut s = String::new();
        proof {
            reveal_strlit("HubConn[id=");
            reveal_strlit(", ...]");
        }
        s.append("HubConn[id=");
        push_signed(&mut s, self.id as i128);
        s.append(", ...]");
        assert(s@ =~= conn_text(self.id as int));
        s
    }
}

/// A Hub is represented here. Hubs receive communication from the player, and send game updates
/// from the game zones.
pub struct Hub {
    curr: i64,
    // Outbound connections to clients (publish game state)
    conns: ConnectionMap,
    // User input inbound receiver (listen to for client updates)
    pub rx: UpdateReceiver,
    // User input inbound transmitter (give to connections)
    pub tx: UpdateSender,
}

impl Hub {
    /// The identifier that the hub hands out next.
    pub closed spec fn next_id(self) -> int {
        self.curr as int
    }

    /// The identifiers of the open connections.
    pub closed spec fn connections(self) -> Set<i64> {
        self.conns@.dom()
    }

    /// The hub's own inbound channel: its sending and its receiving half.
    pub closed spec fn inbound(self) -> (UpdateSender, UpdateReceiver) {
        (self.tx, self.rx)
    }

    /// The sender of each open connection, by identifier.
    pub closed spec fn senders(self) -> Map<i64, UpdateSender> {
        self.conns@
    }

    /// Identifiers start at 1, and every open connection holds one that
    /// the hub has handed out.
    pub closed spec fn well_formed(self) -> bool {
        &&& 1 <= self.curr
        &&& forall|id: i64| #[trigger] self.conns@.contains_key(id) ==> 1 <= id < self.curr
    }

    /// Every open connection holds an identifier that the hub has handed
    /// out, so the next one is fresh.
    pub proof fn lemma_ids_handed_out(self)
        requires
            self.well_formed(),
        ensures
            1 <= self.next_id(),
            forall|id: i64| #[trigger] self.connections().contains(id) ==> 1 <= id < self.next_id(),
            !self.connections().contains(self.next_id() as i64),
    {
    }

    /// Returns a new communication "Hub".
    pub fn new() -> (h: Hub)
        ensures
            h.well_formed(),
            h.next_id() == 1,
            h.connections() == Set::<i64>::empty(),
            h.senders() == Map::<i64, UpdateSender>::empty(),
    {
        let (tx, rx): (UpdateSender, UpdateReceiver) = unbounded_channel();
        let h = Hub { curr: 1, conns: ConnectionMap::new(), rx: rx, tx: tx };
        assert(h.connections() =~= Set::<i64>::empty());
        assert(h.senders() =~= Map::<i64, UpdateSender>::empty());
        h
    }

    /// Returns a unique identifier: 1 on a new hub, then 2, 3, and so on.
    pub fn uuid(&mut self) -> (id: i64)
        requires
            old(self).well_formed(),
            old(self).next_id() < i64::MAX,
        ensures
            final(self).well_formed(),
            id == old(self).next_id(),
            final(self).next_id() == id + 1,
            final(self).connections() == old(self).connections(),
            final(self).senders() == old(self).senders(),
            final(self).inbound() == old(self).inbound(),
    {
        let id = self.curr;
        self.curr += 1;
        id
    }

    /// Removes a connection via uuid.
    pub fn remove(&mut self, id: i64)
        requires
            old(self).well_formed(),
        ensures
            final(self).well_formed(),
            final(self).next_id() == old(self).next_id(),
            final(self).connections() == old(self).connections().remove(id),
            final(self).senders() == old(self).senders().remove(id),
            final(self).inbound() == old(self).inbound(),
    {
        self.conns.remove(&id);
    }

    /// Returns a two-way connection to this Hub: the hub keeps `tx` under a
    /// fresh identifier, and the connection gets that identifier and a
    /// sender on the hub's own inbound channel.
    pub fn new_conn(&mut self, tx: UpdateSender) -> (conn: HubConn)
        requires
            old(self).well_formed(),
            old(self).next_id() < i64::MAX,
        ensures
            final(self).well_formed(),
            conn.id == old(self).next_id(),
            !old(self).connections().contains(conn.id),
            final(self).connections() == old(self).connections().insert(conn.id),
            final(self).next_id() == conn.id + 1,
            final(self).senders() == old(self).senders().insert(conn.id, tx),
            conn.tx == final(self).inbound().0,
            final(self).inbound() == old(self).inbound(),
    {
        let id = self.uuid();
        self.conns.insert(id, tx);
        HubConn { id: id, tx: self.tx.clone() }
    }

    /// The messages for every connected user: one pair of an open
    /// connection's identifier and `message`, for each open connection.
    pub fn outbox(&self, message: &String) -> (out: Vec<(i64, String)>)
        ensures
            forall|i: int|
                0 <= i < out.len() ==> self.connections().contains(#[trigger] out@[i].0)
                    && out@[i].1@ == message@,
            forall|i: int, j: int|
                0 <= i < j < out.len() ==> #[trigger] out@[i].0 != #[trigger] out@[j].0,
            forall|id: i64|
                #[trigger] self.connections().contains(id) ==> exists|i: int|
                    0 <= i < out.len() && #[trigger] out@[i].0 == id,
    {
        let mut out: Vec<(i64, String)> = Vec::new();
        for (id, tx) in it: self.conns.iter()
            invariant
                it.seq() == spec_hash_map_iter(&self.conns).remaining(),
                it.seq().no_duplicates(),
                out.len() == it.index(),
                forall|i: int|
                    0 <= i < it.index() ==> #[trigger] out@[i].0 == *it.seq()[i].0,
                forall|i: int| 0 <= i < out.len() ==> #[trigger] out@[i].1@ == message@,
        {
            let ghost at = it.index();
            assert(*id == *it.seq()[at].0);
            let text = message.clone();
            out.push((*id, text));
            assert(out@[at].0 == *it.seq()[at].0 && out@[at].1@ == message@);
        }
        proof {
            let pairs = spec_hash_map_iter(&self.conns).remaining();
            assert forall|i: int| 0 <= i < out.len() implies self.connections().contains(
                #[trigger] out@[i].0,
            ) by {
                assert(self.conns@.contains_key(*pairs[i].0));
            }
            assert forall|i: int, j: int| 0 <= i < j < out.len() implies #[trigger] out@[i].0
                != #[trigger] out@[j].0 by {
                assert(self.conns@.contains_key(*pairs[i].0));
                assert(self.conns@.contains_key(*pairs[j].0));
                if *pairs[i].0 == *pairs[j].0 {
                    assert(pairs[i] == pairs[j]);
                }
            }
            assert forall|id: i64| #[trigger] self.connections().contains(id) implies exists|i: int|
                0 <= i < out.len() && #[trigger] out@[i].0 == id by {
                assert(pairs.contains((&id, &self.conns@[id])));
                let i = choose|i: int| 0 <= i < pairs.len() && pairs[i] == (&id, &self.conns@[id]);
                assert(out@[i].0 == id);
            }
        }
        out
    }

    /// The sender of connection `id`, when it is open.
    pub fn sender(&self, id: i64) -> (tx: Option<&UpdateSender>)
        ensures
            tx is Some <==> self.connections().contains(id),
            tx matches Some(s) ==> *s == self.senders()[id],
    {
        self.conns.get(&id)
    }
}

/// A hub's next identifier never falls along a run of calls that each
/// raise it by one when they hand out an identifier and keep it otherwise.
proof fn lemma_next_id_grows(hubs: Seq<Hub>, handed: Seq<bool>, k: int, l: int)
    requires
        hubs.len() == handed.len() + 1,
        forall|m: int|
            0 <= m < handed.len() ==> #[trigger] hubs[m + 1].next_id() == hubs[m].next_id() + (
            if handed[m] {
                1int
            } else {
                0int
            }),
        0 <= k <= l < hubs.len(),
    ensures
        hubs[k].next_id() <= hubs[l].next_id(),
    decreases l - k,
{
    if k < l {
        lemma_next_id_grows(hubs, handed, k, l - 1);
        assert(hubs[(l - 1) + 1].next_id() >= hubs[l - 1].next_id());
    }
}

/// Identifiers are unique: along a run of hub calls, where `uuid` and
/// `new_conn` hand out the hub's next identifier and raise it by one and
/// `remove` keeps it (`handed` marks the calls that hand one out), every
/// identifier handed out is larger than all handed out before it, and one
/// larger than the last when no call in between handed one out.
pub proof fn lemma_ids_increase(hubs: Seq<Hub>, handed: Seq<bool>)
    requires
        hubs.len() == handed.len() + 1,
        forall|m: int|
            0 <= m < handed.len() ==> #[trigger] hubs[m + 1].next_id() == hubs[m].next_id() + (
            if handed[m] {
                1int
            } else {
                0int
            }),
    ensures
        forall|k: int, l: int|
            0 <= k < l < handed.len() && handed[k] && handed[l] ==> #[trigger] hubs[k].next_id()
                < #[trigger] hubs[l].next_id(),
        forall|k: int|
            0 <= k && k + 1 < handed.len() && handed[k] && handed[k + 1] ==> hubs[k + 1].next_id()
                == #[trigger] hubs[k].next_id() + 1,
{
    assert forall|k: int, l: int|
        0 <= k < l < handed.len() && handed[k] && handed[l] implies #[trigger] hubs[k].next_id()
        < #[trigger] hubs[l].next_id() by {
        lemma_next_id_grows(hubs, handed, k + 1, l);
        assert(hubs[k + 1].next_id() == hubs[k].next_id() + 1);
    }
}

/// The failures among the outcomes of sends, in order.
pub open spec fn failures_of<E>(outcomes: Seq<(i64, Result<(), E>)>) -> Seq<(i64, E)>
    decreases outcomes.len(),
{
    if outcomes.len() == 0 {
        Seq::empty()
    } else {
        let rest = failures_of(outcomes.drop_first());
        match outcomes[0].1 {
            Ok(_) => rest,
            Err(e) => seq![(outcomes[0].0, e)] + rest,
        }
    }
}

/// The sends that failed, each with its connection and its error, in the
/// order they were made.
pub fn failed_sends<E>(outcomes: Vec<(i64, Result<(), E>)>) -> (failed: Vec<(i64, E)>)
    ensures
        failed@ == failures_of(outcomes@),
{
    let ghost all = outcomes@;
    let mut rest = outcomes;
    let mut failed: Vec<(i64, E)> = Vec::new();
    while rest.len() > 0
        invariant
            failed@ + failures_of(rest@) == failures_of(all),
        decreases rest.len(),
    {
        let ghost before = rest@;
        let (id, outcome) = rest.remove(0);
        assert(rest@ =~= before.drop_first());
        match outcome {
            Ok(()) => {},
            Err(e) => {
                failed.push((id, e));
            },
        }
        assert(failed@ + failures_of(rest@) =~= failures_of(all));
    }
    assert(failures_of(rest@) =~= Seq::<(i64, E)>::empty());
    assert(failed@ =~= failures_of(all));
    failed
}

pub type WhatReceiver = mpsc::UnboundedReceiver<String>;

pub type WhatSender = mpsc::UnboundedSender<String>;

pub type WhatConns = HashMap<i64, WhatSender>;

#[derive(Clone)]
pub struct WhatHub {
    curr: i64,
    pub conns: Arc<RwLock<WhatConns>>,
    pub rx: Arc<RwLock<mpsc::UnboundedReceiver<String>>>,
}

impl WhatHub {
    /// The identifier that the hub hands out next.
    pub closed spec fn next_id(self) -> int {
        self.curr as int
    }

    /// A hub with no connections, listening on a channel of its own.
    pub fn new() -> (h: WhatHub)
        ensures
            h.next_id() == 1,
    {
        let (_tx, rx): (WhatSender, WhatReceiver) = unbounded_channel();
        WhatHub { curr: 1, conns: Arc::new(rw_lock(WhatConns::new())), rx: Arc::new(rw_lock(rx)) }
    }

    /// Updates from the game are not taken yet.
    pub fn receive_updates(&self, tx: mpsc::UnboundedSender<String>) {
    }
}

pub type ArcWhatHub = Arc<RwLock<WhatHub>>;

/// A channel towards the players and a shared hub that listens on it, with
/// the placeholder id -1.
#[allow(non_snake_case)]
pub fn Conns() -> (r: (mpsc::UnboundedSender<String>, i64, ArcWhatHub))
    ensures
        r.1 == -1,
{
    // Update outbound to the users
    let (playerbound_tx, playerbound_rx): (WhatSender, WhatReceiver) = unbounded_channel();
    let hub = Arc::new(
        rw_lock(
            WhatHub {
                curr: 1,
                conns: Arc::new(rw_lock(WhatConns::new())),
                rx: Arc::new(rw_lock(playerbound_rx)),
            },
        ),
    );
    return (playerbound_tx, -1, hub);
}

} // verus!
