//! The mathematical model of one party's message router: what the
//! application can observe through the facade, the state of the links, and
//! the payloads that wait to be received, with the transitions between
//! such states.

use crate::common::NetStat;
use crate::error::NetError;
use vstd::prelude::*;

verus! {

/// One send that a link accepted: to whom it went, under which message id,
/// and the payload.
pub struct Dispatch {
    pub peer: u32,
    pub msgid: Seq<char>,
    pub payload: Seq<u8>,
}

/// What a party can observe of its own network io: who it is, how many
/// parties there are, whether it was stopped, what it has sent so far and
/// the configured timeouts (`None` blocks indefinitely). For reasoning it
/// also records each accepted send, oldest first.
pub struct Facade {
    pub partyid: u32,
    pub parties: u32,
    pub stopped: bool,
    pub stat: NetStat,
    pub send_timeout: Option<usize>,
    pub recv_timeout: Option<usize>,
    pub sent: Ghost<Seq<Dispatch>>,
}

/// The mathematical value of an envelope, the unit that travels over a link.
pub struct EnvelopeView {
    pub sender_partyid: u32,
    pub msgid: Seq<char>,
    pub payload: Seq<u8>,
}

/// How the link answered a write.
#[derive(Debug, Clone, Copy, PartialEq, Eq, Structural)]
pub enum LinkWrite {
    /// The link took the envelope; `overhead` is what the envelope added
    /// to the payload on the wire, in bytes.
    Accepted { overhead: usize },
    /// The link did not take the envelope within the send timeout.
    TimedOut,
    /// The link is broken.
    Broken,
}

/// The mathematical value of one step of a receive.
pub enum RecvStepView {
    /// The oldest waiting payload, now handed out.
    Ready(Seq<u8>),
    /// Nothing waits; the caller may wait for the given time (`None`:
    /// without limit) and ask again.
    Wait(Option<usize>),
    /// The receive failed.
    Failed(NetError),
}

impl Facade {
    /// The own id names a party, and no more payload bytes were counted
    /// than bytes on the wire.
    pub open spec fn valid(self) -> bool {
        &&& self.partyid < self.parties
        &&& self.stat@.consistent()
    }

    /// `peer` names another party of the directory.
    pub open spec fn is_peer(self, peer: u32) -> bool {
        peer != self.partyid && peer < self.parties
    }

    /// The other parties in the order of their ids: the peer at position
    /// `at`, for `at` below the number of parties less one.
    pub open spec fn nth_peer(self, at: int) -> u32 {
        if at < self.partyid {
            at as u32
        } else {
            (at + 1) as u32
        }
    }

    /// The failure that is decided before any io: after a stop every
    /// operation is refused as closed; otherwise an operation on this
    /// party itself or on an id outside the directory is refused as
    /// invalid.
    pub open spec fn refusal(self, peer: u32) -> Option<NetError> {
        if self.stopped {
            Some(NetError::ClosedError)
        } else if !self.is_peer(peer) {
            Some(NetError::InvalidPeer)
        } else {
            None
        }
    }

    /// Counting one more send of `len` payload bytes with `overhead` more
    /// bytes on the wire would not overflow the statistics.
    pub open spec fn can_count(self, len: nat, overhead: nat) -> bool {
        &&& self.stat.sent_count + 1 <= usize::MAX
        &&& self.stat.sent_bytes + len <= usize::MAX
        &&& self.stat.sent_bytes_all + len + overhead <= usize::MAX
    }

    /// The facade after the link of `peer` accepted `payload` under
    /// `msgid`, with `overhead` more bytes on the wire: one more send is
    /// counted, with the payload bytes and the bytes on the wire, and the
    /// send is recorded.
    pub open spec fn dispatched(
        self,
        peer: u32,
        msgid: Seq<char>,
        payload: Seq<u8>,
        overhead: nat,
    ) -> Facade
        recommends
            self.can_count(payload.len(), overhead),
    {
        Facade {
            stat: NetStat {
                sent_count: (self.stat.sent_count + 1) as usize,
                sent_bytes: (self.stat.sent_bytes + payload.len()) as usize,
                sent_bytes_all: (self.stat.sent_bytes_all + payload.len() + overhead) as usize,
            },
            sent: Ghost(self.sent@.push(Dispatch { peer, msgid, payload })),
            ..self
        }
    }

    /// `next` differs from `self` by `sends` more counted sends of `len`
    /// payload bytes each, whatever their overhead was; who sent, to how
    /// many, the stop and the timeouts are the same. Nothing is said of
    /// the record of sends.
    pub open spec fn counted_sends(self, next: Facade, sends: nat, len: nat) -> bool {
        &&& next.partyid == self.partyid
        &&& next.parties == self.parties
        &&& next.stopped == self.stopped
        &&& next.send_timeout == self.send_timeout
        &&& next.recv_timeout == self.recv_timeout
        &&& next.stat.sent_count == self.stat.sent_count + sends
        &&& next.stat.sent_bytes == self.stat.sent_bytes + sends * len
        &&& next.stat.sent_bytes_all - self.stat.sent_bytes_all >= sends * len
    }

    /// `next` differs from `self` by exactly one accepted send of
    /// `payload` to `peer` under `msgid`.
    pub open spec fn sent_one(
        self,
        next: Facade,
        peer: u32,
        msgid: Seq<char>,
        payload: Seq<u8>,
    ) -> bool {
        &&& self.counted_sends(next, 1, payload.len())
        &&& next.sent@ == self.sent@.push(Dispatch { peer, msgid, payload })
    }

    /// The record of the first `completed` sends of a broadcast of
    /// `payload` under `msgid`: one send to each of the first `completed`
    /// peers, in the order of their ids.
    pub open spec fn broadcast_record(
        self,
        completed: nat,
        msgid: Seq<char>,
        payload: Seq<u8>,
    ) -> Seq<Dispatch> {
        Seq::new(completed, |at: int| Dispatch { peer: self.nth_peer(at), msgid, payload })
    }

    /// `next` differs from `self` by exactly the first `completed` sends
    /// of a broadcast of `payload` under `msgid`, each of them accepted.
    pub open spec fn sent_to_peers(
        self,
        next: Facade,
        completed: nat,
        msgid: Seq<char>,
        payload: Seq<u8>,
    ) -> bool {
        &&& self.counted_sends(next, completed, payload.len())
        &&& next.sent@ == self.sent@ + self.broadcast_record(completed, msgid, payload)
    }

    /// The facade after a stop.
    pub open spec fn halted(self) -> Facade {
        Facade { stopped: true, ..self }
    }

    /// What a send of `payload` to `peer` under `msgid` may do: a refusal
    /// leaves everything as it was; a success returns the length of the
    /// payload and is counted and recorded as one send; any other
    /// failure is a timeout, a broken link or a stop, and counts
    /// nothing.
    pub open spec fn send_allows(
        self,
        next: Facade,
        peer: u32,
        msgid: Seq<char>,
        payload: Seq<u8>,
        result: Result<usize, NetError>,
    ) -> bool {
        match self.refusal(peer) {
            Some(refused) => result == Err::<usize, NetError>(refused) && next == self,
            None => match result {
                Ok(sent) => sent == payload.len() && self.sent_one(next, peer, msgid, payload),
                Err(failure) => {
                    &&& next == self
                    &&& (failure == NetError::Timeout || failure == NetError::LinkError || failure
                        == NetError::ClosedError)
                },
            },
        }
    }

    /// What a receive from `peer` may do, told by its failure (`None`
    /// for a payload): a refusal is reported as such; any other failure
    /// is a timeout, a broken link or a stop. The facade never changes.
    pub open spec fn recv_allows(self, next: Facade, peer: u32, failure: Option<NetError>) -> bool {
        &&& next == self
        &&& match self.refusal(peer) {
            Some(refused) => failure == Some(refused),
            None => match failure {
                Some(other) => other == NetError::Timeout || other == NetError::LinkError || other
                    == NetError::ClosedError,
                None => true,
            },
        }
    }

    /// What a broadcast of `payload` under `msgid` may do. It sends to
    /// every other party in turn, in the order of their ids. Where all
    /// sends succeed, the result is the sum of what they returned. The
    /// first failure ends the broadcast and becomes its result; the
    /// sends that were completed before it stay counted and recorded.
    pub open spec fn broadcast_allows(
        self,
        next: Facade,
        msgid: Seq<char>,
        payload: Seq<u8>,
        result: Result<usize, NetError>,
    ) -> bool {
        match result {
            Ok(total) => {
                &&& total == (self.parties - 1) * payload.len()
                &&& self.sent_to_peers(next, (self.parties - 1) as nat, msgid, payload)
                &&& self.stopped ==> self.parties == 1
            },
            Err(failure) => {
                &&& failure == NetError::Timeout || failure == NetError::LinkError || failure
                    == NetError::ClosedError
                &&& exists|completed: nat|
                    completed < self.parties - 1 && #[trigger] self.sent_to_peers(
                        next,
                        completed,
                        msgid,
                        payload,
                    )
                &&& self.stopped ==> failure == NetError::ClosedError && next == self
            },
        }
    }
}

/// Whatever a send, a receive, a broadcast or a stop is allowed to do, it
/// leaves a valid facade valid.
pub proof fn lemma_facade_stays_valid(
    before: Facade,
    after: Facade,
    peer: u32,
    msgid: Seq<char>,
    payload: Seq<u8>,
    sent: Result<usize, NetError>,
    failure: Option<NetError>,
)
    requires
        before.valid(),
    ensures
        before.send_allows(after, peer, msgid, payload, sent) ==> after.valid(),
        before.recv_allows(after, peer, failure) ==> after.valid(),
        before.broadcast_allows(after, msgid, payload, sent) ==> after.valid(),
        before.halted().valid(),
{
}

/// The state of one party's router: the facade, one flag per party that
/// says whether the link to it is alive, and for each peer and message id
/// the payloads that arrived and were not received yet, oldest first.
pub struct RouterState {
    pub facade: Facade,
    pub link_up: Seq<bool>,
    pub pending: Map<(u32, Seq<char>), Seq<Seq<u8>>>,
}

impl RouterState {
    /// The state invariant: a valid facade; one link flag per party and no
    /// link to the party itself; only peers have waiting payloads, and a
    /// key without waiting payloads is not kept; a stopped router holds no
    /// link and no payload.
    pub open spec fn valid(self) -> bool {
        &&& self.facade.valid()
        &&& self.link_up.len() == self.facade.parties
        &&& !self.link_up[self.facade.partyid as int]
        &&& forall|key: (u32, Seq<char>)| #[trigger]
            self.pending.dom().contains(key) ==> self.facade.is_peer(key.0)
                && self.pending[key].len() > 0
        &&& self.facade.stopped ==> {
            &&& self.pending == Map::<(u32, Seq<char>), Seq<Seq<u8>>>::empty()
            &&& forall|peer: int| 0 <= peer < self.link_up.len() ==> !self.link_up[peer]
        }
    }

    /// The state right after construction: every link but the own one is
    /// alive, nothing waits, nothing was sent.
    pub open spec fn initial(
        partyid: u32,
        parties: u32,
        send_timeout: Option<usize>,
        recv_timeout: Option<usize>,
    ) -> RouterState {
        RouterState {
            facade: Facade {
                partyid,
                parties,
                stopped: false,
                stat: NetStat { sent_count: 0, sent_bytes: 0, sent_bytes_all: 0 },
                send_timeout,
                recv_timeout,
                sent: Ghost(Seq::empty()),
            },
            link_up: Seq::new(parties as nat, |peer: int| peer != partyid),
            pending: Map::empty(),
        }
    }

    /// The payloads from `peer` under `msgid` that wait to be received,
    /// oldest first.
    pub open spec fn queue(self, peer: u32, msgid: Seq<char>) -> Seq<Seq<u8>> {
        if self.pending.dom().contains((peer, msgid)) {
            self.pending[(peer, msgid)]
        } else {
            Seq::empty()
        }
    }

    /// The state in which `waiting` is what waits from `peer` under
    /// `msgid`, and every other queue is as in `self`.
    pub open spec fn with_queue(
        self,
        peer: u32,
        msgid: Seq<char>,
        waiting: Seq<Seq<u8>>,
    ) -> RouterState {
        RouterState {
            pending: if waiting.len() == 0 {
                self.pending.remove((peer, msgid))
            } else {
                self.pending.insert((peer, msgid), waiting)
            },
            ..self
        }
    }

    /// The state after an envelope from `sender` arrived: unless it is
    /// refused, its payload waits behind all that came before it under
    /// the same sender and message id.
    pub open spec fn deliver(self, sender: u32, msgid: Seq<char>, payload: Seq<u8>) -> RouterState {
        if self.facade.refusal(sender) is Some {
            self
        } else {
            self.with_queue(sender, msgid, self.queue(sender, msgid).push(payload))
        }
    }

    /// One step of a receive from `peer` under `msgid`, by a caller that
    /// has waited `waited` so far: a refusal first; then the oldest
    /// waiting payload, if there is one; then a broken link; then the
    /// timeout, once the caller has waited as long as it allows.
    pub open spec fn recv_step(self, peer: u32, msgid: Seq<char>, waited: usize) -> RecvStepView {
        if let Some(refused) = self.facade.refusal(peer) {
            RecvStepView::Failed(refused)
        } else if self.queue(peer, msgid).len() > 0 {
            RecvStepView::Ready(self.queue(peer, msgid)[0])
        } else if !self.link_up[peer as int] {
            RecvStepView::Failed(NetError::LinkError)
        } else {
            match self.facade.recv_timeout {
                Some(limit) => if waited >= limit {
                    RecvStepView::Failed(NetError::Timeout)
                } else {
                    RecvStepView::Wait(Some((limit - waited) as usize))
                },
                None => RecvStepView::Wait(None),
            }
        }
    }

    /// The state after that step: a payload that was handed out waits no
    /// longer; nothing else changes.
    pub open spec fn after_recv(self, peer: u32, msgid: Seq<char>) -> RouterState {
        if self.facade.refusal(peer) is None && self.queue(peer, msgid).len() > 0 {
            self.with_queue(peer, msgid, self.queue(peer, msgid).drop_first())
        } else {
            self
        }
    }

    /// Why a send to `peer` cannot even be tried: a refusal, or a link
    /// that is known to be broken.
    pub open spec fn send_refusal(self, peer: u32) -> Option<NetError> {
        if let Some(refused) = self.facade.refusal(peer) {
            Some(refused)
        } else if !self.link_up[peer as int] {
            Some(NetError::LinkError)
        } else {
            None
        }
    }

    /// The envelope that carries `payload` under `msgid` from this party.
    pub open spec fn envelope(self, msgid: Seq<char>, payload: Seq<u8>) -> EnvelopeView {
        EnvelopeView { sender_partyid: self.facade.partyid, msgid, payload }
    }

    /// What a send of `len` payload bytes to `peer` returns once the link
    /// has answered with `outcome`.
    pub open spec fn send_result(self, peer: u32, len: usize, outcome: LinkWrite) -> Result<
        usize,
        NetError,
    > {
        match self.send_refusal(peer) {
            Some(refused) => Err(refused),
            None => match outcome {
                LinkWrite::Accepted { overhead } => Ok(len),
                LinkWrite::TimedOut => Err(NetError::Timeout),
                LinkWrite::Broken => Err(NetError::LinkError),
            },
        }
    }

    /// The state after the link of `peer` answered `outcome` to the write
    /// of `payload` under `msgid`: an accepted write is counted and
    /// recorded, a broken link is remembered as broken, and nothing else
    /// changes.
    pub open spec fn after_send(
        self,
        peer: u32,
        msgid: Seq<char>,
        payload: Seq<u8>,
        outcome: LinkWrite,
    ) -> RouterState {
        match self.send_refusal(peer) {
            Some(refused) => self,
            None => match outcome {
                LinkWrite::Accepted { overhead } => RouterState {
                    facade: self.facade.dispatched(peer, msgid, payload, overhead as nat),
                    ..self
                },
                LinkWrite::TimedOut => self,
                LinkWrite::Broken => self.link_lost(peer),
            },
        }
    }

    /// The state after the link to `peer` broke. What arrived before
    /// still waits to be received.
    pub open spec fn link_lost(self, peer: u32) -> RouterState {
        if peer < self.link_up.len() {
            RouterState { link_up: self.link_up.update(peer as int, false), ..self }
        } else {
            self
        }
    }

    /// The state after a stop: all links are released and nothing waits
    /// any more.
    pub open spec fn halted(self) -> RouterState {
        RouterState {
            facade: self.facade.halted(),
            link_up: Seq::new(self.link_up.len(), |peer: int| false),
            pending: Map::empty(),
        }
    }
}

/// Every transition leads from a valid state to a valid state.
pub proof fn lemma_transitions_keep_valid(
    state: RouterState,
    peer: u32,
    msgid: Seq<char>,
    payload: Seq<u8>,
    outcome: LinkWrite,
)
    requires
        state.valid(),
    ensures
        state.deliver(peer, msgid, payload).valid(),
        state.after_recv(peer, msgid).valid(),
        state.link_lost(peer).valid(),
        state.halted().valid(),
        state.send_refusal(peer) is None && (outcome matches LinkWrite::Accepted { overhead }
            ==> state.facade.can_count(payload.len(), overhead as nat)) ==> state.after_send(
            peer,
            msgid,
            payload,
            outcome,
        ).valid(),
{
}

/// The statistics never decrease: after any transition every counter is
/// at least what it was.
pub proof fn lemma_stat_never_decreases(
    state: RouterState,
    peer: u32,
    msgid: Seq<char>,
    payload: Seq<u8>,
    outcome: LinkWrite,
)
    requires
        state.valid(),
        state.send_refusal(peer) is None ==> (outcome matches LinkWrite::Accepted { overhead }
            ==> state.facade.can_count(payload.len(), overhead as nat)),
    ensures
        state.after_send(peer, msgid, payload, outcome).facade.stat@.covers(state.facade.stat@),
        state.deliver(peer, msgid, payload).facade.stat == state.facade.stat,
        state.after_recv(peer, msgid).facade.stat == state.facade.stat,
        state.link_lost(peer).facade.stat == state.facade.stat,
        state.halted().facade.stat == state.facade.stat,
{
}

/// What arrives is queued at the back, and a receive takes from the
/// front: under one peer and message id, payloads are received in the
/// order in which they arrived, each of them once.
pub proof fn lemma_first_in_first_out(
    state: RouterState,
    peer: u32,
    msgid: Seq<char>,
    payload: Seq<u8>,
    waited: usize,
)
    requires
        state.valid(),
        state.facade.refusal(peer) is None,
    ensures
        state.deliver(peer, msgid, payload).queue(peer, msgid) == state.queue(peer, msgid).push(
            payload,
        ),
        state.queue(peer, msgid).len() > 0 ==> {
            &&& state.recv_step(peer, msgid, waited) == RecvStepView::Ready(
                state.queue(peer, msgid)[0],
            )
            &&& state.after_recv(peer, msgid).queue(peer, msgid) == state.queue(
                peer,
                msgid,
            ).drop_first()
        },
        state.queue(peer, msgid).len() == 0 ==> {
            &&& !(state.recv_step(peer, msgid, waited) is Ready)
            &&& state.after_recv(peer, msgid) == state
        },
{
    if state.queue(peer, msgid).len() > 0 {
        let later = state.queue(peer, msgid).drop_first();
        assert(state.after_recv(peer, msgid).queue(peer, msgid) =~= later);
    }
}

/// What one party sends to another under a message id, the other
/// receives under that id: the exact bytes, and once. With nothing else
/// waiting under that id, the receive hands out the payload, leaves the
/// receiver as it was before the envelope arrived, and a second receive
/// finds nothing.
pub proof fn lemma_sent_is_received_once(
    sender: RouterState,
    receiver: RouterState,
    msgid: Seq<char>,
    data: Seq<u8>,
    waited: usize,
)
    requires
        sender.valid(),
        receiver.valid(),
        sender.send_refusal(receiver.facade.partyid) is None,
        receiver.facade.refusal(sender.facade.partyid) is None,
        receiver.queue(sender.facade.partyid, msgid).len() == 0,
    ensures
        ({
            let from = sender.facade.partyid;
            let envelope = sender.envelope(msgid, data);
            let arrived = receiver.deliver(envelope.sender_partyid, envelope.msgid, envelope.payload);
            let taken = arrived.after_recv(from, msgid);
            &&& arrived.recv_step(from, msgid, waited) == RecvStepView::Ready(data)
            &&& taken == receiver
            &&& !(taken.recv_step(from, msgid, waited) is Ready)
        }),
{
    let from = sender.facade.partyid;
    let arrived = receiver.deliver(from, msgid, data);
    let taken = arrived.after_recv(from, msgid);
    assert(arrived.queue(from, msgid) =~= seq![data]);
    assert(arrived.queue(from, msgid).drop_first().len() == 0);
    assert(taken.pending =~= receiver.pending);
}

/// Exchanges under different keys do not interfere: what arrives or is
/// received under one peer and message id changes neither what waits
/// under another nor what a receive there returns.
pub proof fn lemma_keys_are_independent(
    state: RouterState,
    peer: u32,
    msgid: Seq<char>,
    other_peer: u32,
    other_msgid: Seq<char>,
    payload: Seq<u8>,
    waited: usize,
)
    requires
        state.valid(),
        (peer, msgid) != (other_peer, other_msgid),
    ensures
        state.deliver(other_peer, other_msgid, payload).queue(peer, msgid) == state.queue(
            peer,
            msgid,
        ),
        state.deliver(other_peer, other_msgid, payload).recv_step(peer, msgid, waited)
            == state.recv_step(peer, msgid, waited),
        state.after_recv(other_peer, other_msgid).queue(peer, msgid) == state.queue(peer, msgid),
        state.after_recv(other_peer, other_msgid).recv_step(peer, msgid, waited)
            == state.recv_step(peer, msgid, waited),
{
}

/// A receive that finds nothing within the receive timeout fails with a
/// timeout and changes nothing; a payload that arrives later is handed
/// out by the next receive under the same key.
pub proof fn lemma_timeout_then_late_arrival(
    state: RouterState,
    peer: u32,
    msgid: Seq<char>,
    limit: usize,
    waited: usize,
    payload: Seq<u8>,
    waited_again: usize,
)
    requires
        state.valid(),
        state.facade.refusal(peer) is None,
        state.link_up[peer as int],
        state.queue(peer, msgid).len() == 0,
        state.facade.recv_timeout == Some(limit),
    ensures
        waited >= limit ==> state.recv_step(peer, msgid, waited) == RecvStepView::Failed(
            NetError::Timeout,
        ),
        waited < limit ==> state.recv_step(peer, msgid, waited) == RecvStepView::Wait(
            Some((limit - waited) as usize),
        ),
        state.after_recv(peer, msgid) == state,
        state.after_recv(peer, msgid).deliver(peer, msgid, payload).recv_step(
            peer,
            msgid,
            waited_again,
        ) == RecvStepView::Ready(payload),
{
    let arrived = state.deliver(peer, msgid, payload);
    assert(arrived.queue(peer, msgid) =~= seq![payload]);
}

/// A send to the party itself or to an id outside the directory fails as
/// invalid, whatever the link would have answered, and leaves the state,
/// the statistics with it, as it was.
pub proof fn lemma_invalid_peer_is_refused(
    state: RouterState,
    peer: u32,
    msgid: Seq<char>,
    payload: Seq<u8>,
    len: usize,
    outcome: LinkWrite,
)
    requires
        state.valid(),
        !state.facade.stopped,
        peer == state.facade.partyid || peer >= state.facade.parties,
    ensures
        state.send_refusal(peer) == Some(NetError::InvalidPeer),
        state.send_result(peer, len, outcome) == Err::<usize, NetError>(NetError::InvalidPeer),
        state.after_send(peer, msgid, payload, outcome) == state,
        state.after_send(peer, msgid, payload, outcome).facade.stat == state.facade.stat,
{
}

/// After a stop every send and every receive fails as closed, whatever
/// its arguments, and what arrives is refused; a second stop changes
/// nothing.
pub proof fn lemma_stop_closes(
    state: RouterState,
    peer: u32,
    msgid: Seq<char>,
    payload: Seq<u8>,
    len: usize,
    outcome: LinkWrite,
    waited: usize,
)
    ensures
        ({
            let halted = state.halted();
            &&& halted.send_refusal(peer) == Some(NetError::ClosedError)
            &&& halted.send_result(peer, len, outcome) == Err::<usize, NetError>(
                NetError::ClosedError,
            )
            &&& halted.after_send(peer, msgid, payload, outcome) == halted
            &&& halted.recv_step(peer, msgid, waited) == RecvStepView::Failed(
                NetError::ClosedError,
            )
            &&& halted.after_recv(peer, msgid) == halted
            &&& halted.deliver(peer, msgid, payload) == halted
            &&& halted.halted() == halted
        }),
{
    let halted = state.halted();
    assert(halted.halted().link_up =~= halted.link_up);
}

/// A send that is made of the router's two halves does what the facade
/// allows a send to do.
pub proof fn lemma_send_meets_facade(
    state: RouterState,
    peer: u32,
    msgid: Seq<char>,
    payload: Seq<u8>,
    outcome: LinkWrite,
)
    requires
        state.valid(),
        payload.len() <= usize::MAX,
        state.send_refusal(peer) is None ==> (outcome matches LinkWrite::Accepted { overhead }
            ==> state.facade.can_count(payload.len(), overhead as nat)),
    ensures
        state.facade.send_allows(
            state.after_send(peer, msgid, payload, outcome).facade,
            peer,
            msgid,
            payload,
            state.send_result(peer, payload.len() as usize, outcome),
        ),
{
}

/// A broadcast that succeeds has sent the payload to every other party,
/// and returns the length of the payload once for each of them. Each of
/// them, with nothing else waiting from the sender under the message id
/// of the broadcast, then receives the exact payload under that id.
pub proof fn lemma_broadcast_reaches_every_peer(
    before: Facade,
    after: Facade,
    receiver: RouterState,
    msgid: Seq<char>,
    payload: Seq<u8>,
    total: usize,
    waited: usize,
)
    requires
        before.valid(),
        before.broadcast_allows(after, msgid, payload, Ok(total)),
        receiver.valid(),
        !receiver.facade.stopped,
        receiver.facade.parties == before.parties,
        receiver.facade.partyid != before.partyid,
        receiver.queue(before.partyid, msgid).len() == 0,
    ensures
        total == (before.parties - 1) * payload.len(),
        exists|at: int|
            before.sent@.len() <= at < after.sent@.len() && #[trigger] after.sent@[at] == (Dispatch {
                peer: receiver.facade.partyid,
                msgid,
                payload,
            }),
        receiver.deliver(before.partyid, msgid, payload).recv_step(before.partyid, msgid, waited)
            == RecvStepView::Ready(payload),
{
    let to = receiver.facade.partyid;
    let position: int = if to < before.partyid {
        to as int
    } else {
        to - 1
    };
    assert(before.nth_peer(position) == to);
    let at = before.sent@.len() + position;
    assert(after.sent@[at] == (Dispatch { peer: to, msgid, payload }));
    let arrived = receiver.deliver(before.partyid, msgid, payload);
    assert(arrived.queue(before.partyid, msgid) =~= seq![payload]);
}

/// A receive that is made of the router's steps does what the facade
/// allows a receive to do, whether its last step hands out a payload or
/// fails.
pub proof fn lemma_recv_meets_facade(state: RouterState, peer: u32, msgid: Seq<char>, waited: usize)
    requires
        state.valid(),
    ensures
        match state.recv_step(peer, msgid, waited) {
            RecvStepView::Ready(_) => state.facade.recv_allows(
                state.after_recv(peer, msgid).facade,
                peer,
                None,
            ),
            RecvStepView::Failed(failure) => state.facade.recv_allows(
                state.after_recv(peer, msgid).facade,
                peer,
                Some(failure),
            ),
            RecvStepView::Wait(_) => state.after_recv(peer, msgid) == state,
        },
{
}

} // verus!
