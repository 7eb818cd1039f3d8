//! The message router of one party: it keeps what arrived from each peer
//! under each message id until a matching receive claims it, decides what
//! a send or a receive returns, and counts what was sent.
//!
//! The router does no io of its own. Whoever owns the links hands it the
//! envelopes that arrive and the answers of the links, and performs what
//! the router decides.

use crate::common::is_directory;
use crate::common::NetStat;
use crate::common::Participant;
use crate::error::NetError;
use crate::state::Dispatch;
use crate::state::EnvelopeView;
use crate::state::Facade;
use crate::state::LinkWrite;
use crate::state::RecvStepView;
use crate::state::RouterState;
use std::collections::VecDeque;
use vstd::prelude::*;

verus! {

/// The unit that travels over a link: who sent it, the message id that
/// the application chose, and the payload.
#[derive(Debug)]
pub struct Envelope {
    pub sender_partyid: u32,
    pub msgid: String,
    pub payload: Vec<u8>,
}

impl View for Envelope {
    type V = EnvelopeView;

    open spec fn view(&self) -> EnvelopeView {
        EnvelopeView {
            sender_partyid: self.sender_partyid,
            msgid: self.msgid@,
            payload: self.payload@,
        }
    }
}

impl Clone for Envelope {
    fn clone(&self) -> (copy: Envelope)
        ensures
            copy@ == self@,
    {
        Envelope {
            sender_partyid: self.sender_partyid,
            msgid: self.msgid.clone(),
            payload: self.payload.clone(),
        }
    }
}

/// The timeouts that a router starts with. `None` blocks indefinitely.
#[derive(Debug, Clone, Copy)]
pub struct NetConfig {
    pub send_timeout: Option<usize>,
    pub recv_timeout: Option<usize>,
}

impl Default for NetConfig {
    fn default() -> (config: NetConfig)
        ensures
            config.send_timeout is None,
            config.recv_timeout is None,
    {
        NetConfig { send_timeout: None, recv_timeout: None }
    }
}

/// One step of a receive.
#[derive(Debug)]
pub enum RecvStep {
    /// The oldest waiting payload, now handed out.
    Ready(Vec<u8>),
    /// Nothing waits; the caller may wait for the given time (`None`:
    /// without limit) and ask again.
    Wait(Option<usize>),
    /// The receive failed.
    Failed(NetError),
}

impl View for RecvStep {
    type V = RecvStepView;

    open spec fn view(&self) -> RecvStepView {
        match self {
            RecvStep::Ready(payload) => RecvStepView::Ready(payload@),
            RecvStep::Wait(budget) => RecvStepView::Wait(*budget),
            RecvStep::Failed(failure) => RecvStepView::Failed(*failure),
        }
    }
}

/// The payloads that wait under one peer and message id, oldest first.
struct PendingBuffer {
    peer: u32,
    msgid: String,
    queue: VecDeque<Vec<u8>>,
}

impl PendingBuffer {
    spec fn key(self) -> (u32, Seq<char>) {
        (self.peer, self.msgid@)
    }

    spec fn payloads(self) -> Seq<Seq<u8>> {
        self.queue@.map_values(|bytes: Vec<u8>| bytes@)
    }
}

/// Some buffer of `table` is kept under `key`.
spec fn holds(table: Seq<PendingBuffer>, key: (u32, Seq<char>)) -> bool {
    exists|i: int| 0 <= i < table.len() && (#[trigger] table[i]).key() == key
}

/// The position of a buffer of `table` that is kept under `key`.
spec fn slot(table: Seq<PendingBuffer>, key: (u32, Seq<char>)) -> int {
    choose|i: int| 0 <= i < table.len() && (#[trigger] table[i]).key() == key
}

/// No buffer of `table` is empty, and no two are kept under one key.
spec fn table_wf(table: Seq<PendingBuffer>) -> bool {
    &&& forall|i: int| 0 <= i < table.len() ==> (#[trigger] table[i]).queue@.len() > 0
    &&& forall|i: int, j: int|
        0 <= i < j < table.len() ==> (#[trigger] table[i]).key() != (#[trigger] table[j]).key()
}

/// The table as a map from keys to waiting payloads.
spec fn table_view(table: Seq<PendingBuffer>) -> Map<(u32, Seq<char>), Seq<Seq<u8>>> {
    Map::new(
        |key: (u32, Seq<char>)| holds(table, key),
        |key: (u32, Seq<char>)| table[slot(table, key)].payloads(),
    )
}

/// In a well-formed table each buffer is the one found under its key.
proof fn lemma_slot(table: Seq<PendingBuffer>, i: int)
    requires
        table_wf(table),
        0 <= i < table.len(),
    ensures
        holds(table, table[i].key()),
        slot(table, table[i].key()) == i,
        table_view(table).dom().contains(table[i].key()),
        table_view(table)[table[i].key()] == table[i].payloads(),
{
    let key = table[i].key();
    let j = slot(table, key);
    assert(0 <= j < table.len() && table[j].key() == key);
    if j < i {
        assert(table[j].key() != table[i].key());
    } else if i < j {
        assert(table[i].key() != table[j].key());
    }
}

/// Changing what waits in one buffer changes the map at its key alone.
proof fn lemma_buffer_changed(before: Seq<PendingBuffer>, after: Seq<PendingBuffer>, at: int)
    requires
        table_wf(before),
        0 <= at < before.len(),
        after.len() == before.len(),
        forall|i: int| 0 <= i < before.len() && i != at ==> after[i] == before[i],
        after[at].key() == before[at].key(),
        after[at].queue@.len() > 0,
    ensures
        table_wf(after),
        table_view(after) == table_view(before).insert(before[at].key(), after[at].payloads()),
{
    assert(forall|i: int| 0 <= i < after.len() ==> (#[trigger] after[i]).key() == before[i].key());
    assert forall|key: (u32, Seq<char>)| holds(after, key) == holds(before, key) by {
        if holds(after, key) {
            assert(before[slot(after, key)].key() == key);
        }
        if holds(before, key) {
            assert(after[slot(before, key)].key() == key);
        }
    }
    let goal = table_view(before).insert(before[at].key(), after[at].payloads());
    assert forall|key: (u32, Seq<char>)| #[trigger] goal.dom().contains(key) implies table_view(
        after,
    )[key] == goal[key] by {
        let i = slot(after, key);
        lemma_slot(after, i);
        lemma_slot(before, i);
    }
    assert(table_view(after) =~= goal);
}

/// A new buffer under a key that was not held adds that key alone.
proof fn lemma_buffer_added(before: Seq<PendingBuffer>, entry: PendingBuffer)
    requires
        table_wf(before),
        !holds(before, entry.key()),
        entry.queue@.len() > 0,
    ensures
        table_wf(before.push(entry)),
        table_view(before.push(entry)) == table_view(before).insert(entry.key(), entry.payloads()),
{
    let after = before.push(entry);
    let at = before.len() as int;
    assert(forall|i: int| 0 <= i < before.len() ==> after[i] == before[i]);
    assert forall|i: int, j: int| 0 <= i < j < after.len() implies (#[trigger] after[i]).key() != (
    #[trigger] after[j]).key() by {
        if j == at {
            assert(before[i].key() != entry.key());
        }
    }
    assert forall|key: (u32, Seq<char>)| holds(after, key) == (holds(before, key) || key
        == entry.key()) by {
        if holds(after, key) {
            let i = slot(after, key);
            if i < at {
                assert(before[i].key() == key);
            }
        }
        if holds(before, key) {
            assert(after[slot(before, key)].key() == key);
        }
        if key == entry.key() {
            assert(after[at].key() == key);
        }
    }
    let goal = table_view(before).insert(entry.key(), entry.payloads());
    assert forall|key: (u32, Seq<char>)| #[trigger] goal.dom().contains(key) implies table_view(
        after,
    )[key] == goal[key] by {
        let i = slot(after, key);
        lemma_slot(after, i);
        if i < at {
            lemma_slot(before, i);
        }
    }
    assert(table_view(after) =~= goal);
}

/// Taking a buffer out, with the last one moved into its place, removes
/// its key alone.
proof fn lemma_buffer_removed(before: Seq<PendingBuffer>, at: int)
    requires
        table_wf(before),
        0 <= at < before.len(),
    ensures
        table_wf(before.update(at, before.last()).drop_last()),
        table_view(before.update(at, before.last()).drop_last()) == table_view(before).remove(
            before[at].key(),
        ),
{
    let after = before.update(at, before.last()).drop_last();
    let last = before.len() - 1;
    let gone = before[at].key();
    assert forall|i: int| 0 <= i < after.len() implies #[trigger] after[i] == (if i == at {
        before[last]
    } else {
        before[i]
    }) by {}
    assert forall|key: (u32, Seq<char>)| holds(after, key) == (holds(before, key) && key
        != gone) by {
        if holds(after, key) {
            let i = slot(after, key);
            if i == at {
                assert(before[last].key() == key);
            } else {
                assert(before[i].key() == key);
            }
        }
        if holds(before, key) && key != gone {
            let i = slot(before, key);
            if i == last {
                assert(after[at].key() == key);
            } else {
                assert(after[i].key() == key);
            }
        }
    }
    let goal = table_view(before).remove(gone);
    assert forall|key: (u32, Seq<char>)| #[trigger] goal.dom().contains(key) implies table_view(
        after,
    )[key] == goal[key] by {
        let i = slot(after, key);
        lemma_slot(after, i);
        if i == at {
            lemma_slot(before, last);
        } else {
            lemma_slot(before, i);
        }
    }
    assert(table_view(after) =~= goal);
}

/// Why a router cannot be made: the directory is no directory or the own
/// id names no party of it; or, failing that, the link to some other party
/// was not established. `connected` holds one flag per party, in the order
/// of the party ids; the own flag is not looked at.
pub open spec fn launch_failure(
    directory: Seq<Participant>,
    partyid: u32,
    connected: Seq<bool>,
) -> Option<NetError> {
    if !is_directory(directory) || partyid >= directory.len() {
        Some(NetError::ConfigError)
    } else if connected.len() != directory.len() || exists|peer: int|
        0 <= peer < connected.len() && peer != partyid && !connected[peer] {
        Some(NetError::ConnectionError)
    } else {
        None
    }
}

/// The message router of one party.
pub struct MessageRouter {
    partyid: u32,
    directory: Vec<Participant>,
    closed: bool,
    link_up: Vec<bool>,
    pending: Vec<PendingBuffer>,
    stat: NetStat,
    send_timeout: Option<usize>,
    recv_timeout: Option<usize>,
    sent: Ghost<Seq<Dispatch>>,
}

impl View for MessageRouter {
    type V = RouterState;

    closed spec fn view(&self) -> RouterState {
        RouterState {
            facade: Facade {
                partyid: self.partyid,
                parties: self.directory.len() as u32,
                stopped: self.closed,
                stat: self.stat,
                send_timeout: self.send_timeout,
                recv_timeout: self.recv_timeout,
                sent: self.sent,
            },
            link_up: self.link_up@,
            pending: table_view(self.pending@),
        }
    }
}

impl MessageRouter {
    /// The representation invariant. Every constructor establishes it and
    /// every method keeps it; it implies that the state is valid.
    pub closed spec fn wf(&self) -> bool {
        &&& is_directory(self.directory@)
        &&& table_wf(self.pending@)
        &&& self@.valid()
    }

    /// The directory that the router was made with.
    pub closed spec fn spec_directory(&self) -> Seq<Participant> {
        self.directory@
    }

    /// A well-formed router is in a valid state, over a directory.
    pub proof fn lemma_wf_valid(&self)
        requires
            self.wf(),
        ensures
            self@.valid(),
            is_directory(self.spec_directory()),
            self@.facade.parties == self.spec_directory().len(),
    {
    }

    /// Makes the router of party `partyid` over `directory`, once the
    /// links were tried: `connected` says for each party, by its id,
    /// whether the link to it stands. Either every link to another party
    /// stands and the router starts with all of them, or no router is
    /// made at all.
    pub fn new(
        directory: Vec<Participant>,
        partyid: u32,
        config: NetConfig,
        connected: &Vec<bool>,
    ) -> (made: Result<MessageRouter, NetError>)
        ensures
            match made {
                Ok(router) => {
                    &&& launch_failure(directory@, partyid, connected@) is None
                    &&& router.wf()
                    &&& router.spec_directory() == directory@
                    &&& router@ == RouterState::initial(
                        partyid,
                        directory.len() as u32,
                        config.send_timeout,
                        config.recv_timeout,
                    )
                },
                Err(failure) => launch_failure(directory@, partyid, connected@) == Some(failure),
            },
    {
        if !Participant::check_directory(&directory) {
            return Err(NetError::ConfigError);
        }
        let n = directory.len();
        if partyid as usize >= n {
            return Err(NetError::ConfigError);
        }
        if connected.len() != n {
            return Err(NetError::ConnectionError);
        }
        let mut link_up: Vec<bool> = Vec::new();
        let mut peer: usize = 0;
        while peer < n
            invariant
                peer <= n,
                n == connected.len(),
                n == directory.len(),
                partyid < n,
                is_directory(directory@),
                link_up.len() == peer,
                forall|p: int| 0 <= p < peer ==> link_up[p] == (p != partyid),
                forall|p: int| 0 <= p < peer && p != partyid ==> connected[p],
            decreases n - peer,
        {
            if peer != partyid as usize && !connected[peer] {
                assert(peer != partyid && !connected[peer as int]);
                return Err(NetError::ConnectionError);
            }
            link_up.push(peer != partyid as usize);
            peer = peer + 1;
        }
        let router = MessageRouter {
            partyid,
            directory,
            closed: false,
            link_up,
            pending: Vec::new(),
            stat: NetStat { sent_count: 0, sent_bytes: 0, sent_bytes_all: 0 },
            send_timeout: config.send_timeout,
            recv_timeout: config.recv_timeout,
            sent: Ghost(Seq::empty()),
        };
        proof {
            let goal = RouterState::initial(
                partyid,
                n as u32,
                config.send_timeout,
                config.recv_timeout,
            );
            assert(router@.link_up =~= goal.link_up);
            assert(router@.pending =~= goal.pending);
        }
        Ok(router)
    }

    /// What the application can observe of this router.
    pub fn facade(&self) -> (facade: Facade)
        requires
            self.wf(),
        ensures
            facade == self@.facade,
    {
        Facade {
            partyid: self.partyid,
            parties: self.directory.len() as u32,
            stopped: self.closed,
            stat: self.stat.clone(),
            send_timeout: self.send_timeout,
            recv_timeout: self.recv_timeout,
            sent: self.sent,
        }
    }

    /// Return self partyid.
    pub fn partyid(&self) -> (id: u32)
        ensures
            id == self@.facade.partyid,
    {
        self.partyid
    }

    /// The number of parties.
    pub fn parties(&self) -> (n: u32)
        requires
            self.wf(),
        ensures
            n == self@.facade.parties,
    {
        self.directory.len() as u32
    }

    /// The directory that the router was made with.
    pub fn directory(&self) -> (list: &Vec<Participant>)
        ensures
            list@ == self.spec_directory(),
    {
        &self.directory
    }

    /// Get the communication statistics: what was sent so far.
    pub fn stat(&self) -> (stat: NetStat)
        ensures
            stat == self@.facade.stat,
    {
        self.stat.clone()
    }

    /// Whether the router was stopped.
    pub fn is_stopped(&self) -> (stopped: bool)
        ensures
            stopped == self@.facade.stopped,
    {
        self.closed
    }

    /// How long a send may wait for its link; `None`: without limit.
    pub fn send_timeout(&self) -> (limit: Option<usize>)
        ensures
            limit == self@.facade.send_timeout,
    {
        self.send_timeout
    }

    /// How long a receive may wait for a payload; `None`: without limit.
    pub fn recv_timeout(&self) -> (limit: Option<usize>)
        ensures
            limit == self@.facade.recv_timeout,
    {
        self.recv_timeout
    }

    /// Sets how long a send may wait from now on.
    pub fn set_send_timeout(&mut self, to: usize)
        requires
            old(self).wf(),
        ensures
            final(self).wf(),
            final(self).spec_directory() == old(self).spec_directory(),
            final(self)@ == (RouterState {
                facade: Facade { send_timeout: Some(to), ..old(self)@.facade },
                ..old(self)@
            }),
    {
        self.send_timeout = Some(to);
    }

    /// Sets how long a receive may wait from now on.
    pub fn set_recv_timeout(&mut self, to: usize)
        requires
            old(self).wf(),
        ensures
            final(self).wf(),
            final(self).spec_directory() == old(self).spec_directory(),
            final(self)@ == (RouterState {
                facade: Facade { recv_timeout: Some(to), ..old(self)@.facade },
                ..old(self)@
            }),
    {
        self.recv_timeout = Some(to);
    }

    /// Whether the link to `peer` is alive.
    pub fn link_alive(&self, peer: u32) -> (alive: bool)
        ensures
            alive == (peer < self@.link_up.len() && self@.link_up[peer as int]),
    {
        (peer as usize) < self.link_up.len() && self.link_up[peer as usize]
    }

    /// How many payloads from `peer` under `msgid` wait to be received.
    pub fn waiting(&self, peer: u32, msgid: &String) -> (count: usize)
        requires
            self.wf(),
        ensures
            count == self@.queue(peer, msgid@).len(),
    {
        match self.find_slot(peer, msgid) {
            Some(at) => {
                proof {
                    lemma_slot(self.pending@, at as int);
                }
                self.pending[at].queue.len()
            },
            None => 0,
        }
    }

    /// The position of the buffer kept under `peer` and `msgid`.
    fn find_slot(&self, peer: u32, msgid: &String) -> (found: Option<usize>)
        ensures
            match found {
                Some(at) => at < self.pending.len() && self.pending[at as int].key() == (
                    peer,
                    msgid@,
                ),
                None => !holds(self.pending@, (peer, msgid@)),
            },
    {
        let mut i: usize = 0;
        while i < self.pending.len()
            invariant
                i <= self.pending.len(),
                forall|k: int| 0 <= k < i ==> (#[trigger] self.pending[k]).key() != (peer, msgid@),
            decreases self.pending.len() - i,
        {
            if self.pending[i].peer == peer && self.pending[i].msgid == *msgid {
                return Some(i);
            }
            i = i + 1;
        }
        None
    }

    /// Takes in an envelope that arrived over a link. Unless it is
    /// refused, its payload waits from now on behind all that arrived
    /// before it from the same sender under the same message id.
    pub fn deliver(&mut self, envelope: Envelope) -> (result: Result<(), NetError>)
        requires
            old(self).wf(),
        ensures
            final(self).wf(),
            final(self).spec_directory() == old(self).spec_directory(),
            final(self)@ == old(self)@.deliver(
                envelope.sender_partyid,
                envelope.msgid@,
                envelope.payload@,
            ),
            result == match old(self)@.facade.refusal(envelope.sender_partyid) {
                Some(refused) => Err::<(), NetError>(refused),
                None => Ok::<(), NetError>(()),
            },
    {
        if self.closed {
            return Err(NetError::ClosedError);
        }
        let sender = envelope.sender_partyid;
        if sender == self.partyid || sender as usize >= self.directory.len() {
            return Err(NetError::InvalidPeer);
        }
        let ghost before = self.pending@;
        match self.find_slot(sender, &envelope.msgid) {
            Some(at) => {
                self.pending[at].queue.push_back(envelope.payload);
                proof {
                    lemma_slot(before, at as int);
                    lemma_buffer_changed(before, self.pending@, at as int);
                    assert(self.pending[at as int].payloads() =~= before[at as int].payloads().push(
                        envelope.payload@,
                    ));
                }
            },
            None => {
                let mut queue: VecDeque<Vec<u8>> = VecDeque::new();
                queue.push_back(envelope.payload);
                let buffer = PendingBuffer { peer: sender, msgid: envelope.msgid, queue };
                proof {
                    lemma_buffer_added(before, buffer);
                    assert(buffer.payloads() =~= Seq::<Seq<u8>>::empty().push(envelope.payload@));
                }
                self.pending.push(buffer);
            },
        }
        Ok(())
    }

    /// One step of a receive from `peer` under `msgid`, by a caller that
    /// has waited `waited` so far. The oldest waiting payload is handed
    /// out, to this caller alone; where nothing waits, the step says how
    /// long the caller may still wait, or that the receive has failed.
    pub fn poll_recv(&mut self, peer: u32, msgid: &String, waited: usize) -> (step: RecvStep)
        requires
            old(self).wf(),
        ensures
            final(self).wf(),
            final(self).spec_directory() == old(self).spec_directory(),
            step@ == old(self)@.recv_step(peer, msgid@, waited),
            final(self)@ == old(self)@.after_recv(peer, msgid@),
    {
        if self.closed {
            return RecvStep::Failed(NetError::ClosedError);
        }
        if peer == self.partyid || peer as usize >= self.directory.len() {
            return RecvStep::Failed(NetError::InvalidPeer);
        }
        let ghost before = self.pending@;
        match self.find_slot(peer, msgid) {
            Some(at) => {
                proof {
                    lemma_slot(before, at as int);
                }
                let taken = if self.pending[at].queue.len() == 1 {
                    let mut buffer = self.pending.swap_remove(at);
                    proof {
                        lemma_buffer_removed(before, at as int);
                        assert(before[at as int].payloads().drop_first().len() == 0);
                    }
                    buffer.queue.pop_front()
                } else {
                    let taken = self.pending[at].queue.pop_front();
                    proof {
                        lemma_buffer_changed(before, self.pending@, at as int);
                        assert(self.pending[at as int].payloads()
                            =~= before[at as int].payloads().drop_first());
                    }
                    taken
                };
                match taken {
                    Some(payload) => RecvStep::Ready(payload),
                    None => vstd::pervasive::unreached(),
                }
            },
            None => {
                if !self.link_up[peer as usize] {
                    RecvStep::Failed(NetError::LinkError)
                } else {
                    match self.recv_timeout {
                        Some(limit) => {
                            if waited >= limit {
                                RecvStep::Failed(NetError::Timeout)
                            } else {
                                RecvStep::Wait(Some(limit - waited))
                            }
                        },
                        None => RecvStep::Wait(None),
                    }
                }
            },
        }
    }

    /// The first half of a send of `data` to `peer` under `msgid`: unless
    /// the send is refused or the link is known to be broken, the envelope
    /// to write to the link of `peer`. Nothing is counted yet.
    pub fn begin_send(&self, peer: u32, msgid: &String, data: &Vec<u8>) -> (result: Result<
        Envelope,
        NetError,
    >)
        requires
            self.wf(),
        ensures
            match result {
                Ok(envelope) => self@.send_refusal(peer) is None && envelope@ == self@.envelope(
                    msgid@,
                    data@,
                ),
                Err(failure) => self@.send_refusal(peer) == Some(failure),
            },
    {
        if self.closed {
            return Err(NetError::ClosedError);
        }
        if peer == self.partyid || peer as usize >= self.directory.len() {
            return Err(NetError::InvalidPeer);
        }
        if !self.link_up[peer as usize] {
            return Err(NetError::LinkError);
        }
        Ok(Envelope { sender_partyid: self.partyid, msgid: msgid.clone(), payload: data.clone() })
    }

    /// The second half of a send: what follows once the link of `peer`
    /// has answered the write of `envelope`. An accepted write is counted
    /// and the length of the payload is returned; a write that timed out
    /// changes nothing; a broken link is remembered as broken.
    pub fn finish_send(&mut self, peer: u32, envelope: &Envelope, outcome: LinkWrite) -> (result:
        Result<usize, NetError>)
        requires
            old(self).wf(),
            old(self)@.send_refusal(peer) is None ==> match outcome {
                LinkWrite::Accepted { overhead } => old(self)@.facade.can_count(
                    envelope.payload@.len(),
                    overhead as nat,
                ),
                _ => true,
            },
        ensures
            final(self).wf(),
            final(self).spec_directory() == old(self).spec_directory(),
            result == old(self)@.send_result(peer, envelope.payload.len(), outcome),
            final(self)@ == old(self)@.after_send(peer, envelope.msgid@, envelope.payload@, outcome),
    {
        if self.closed {
            return Err(NetError::ClosedError);
        }
        if peer == self.partyid || peer as usize >= self.directory.len() {
            return Err(NetError::InvalidPeer);
        }
        if !self.link_up[peer as usize] {
            return Err(NetError::LinkError);
        }
        match outcome {
            LinkWrite::Accepted { overhead } => {
                let sent = envelope.payload.len();
                self.stat = NetStat {
                    sent_count: self.stat.sent_count + 1,
                    sent_bytes: self.stat.sent_bytes + sent,
                    sent_bytes_all: self.stat.sent_bytes_all + sent + overhead,
                };
                self.sent = Ghost(
                    self.sent@.push(
                        Dispatch { peer, msgid: envelope.msgid@, payload: envelope.payload@ },
                    ),
                );
                Ok(sent)
            },
            LinkWrite::TimedOut => Err(NetError::Timeout),
            LinkWrite::Broken => {
                self.link_up.set(peer as usize, false);
                Err(NetError::LinkError)
            },
        }
    }

    /// Takes note that the link to `peer` broke. What arrived before
    /// still waits to be received.
    pub fn link_down(&mut self, peer: u32)
        requires
            old(self).wf(),
        ensures
            final(self).wf(),
            final(self).spec_directory() == old(self).spec_directory(),
            final(self)@ == old(self)@.link_lost(peer),
    {
        if (peer as usize) < self.link_up.len() {
            self.link_up.set(peer as usize, false);
        }
    }

    /// Stops the router: all links are released, and what still waited is
    /// dropped. Stopping a stopped router changes nothing.
    pub fn stop(&mut self)
        requires
            old(self).wf(),
        ensures
            final(self).wf(),
            final(self).spec_directory() == old(self).spec_directory(),
            final(self)@ == old(self)@.halted(),
    {
        let n = self.link_up.len();
        let mut peer: usize = 0;
        while peer < n
            invariant
                peer <= n,
                n == self.link_up.len(),
                forall|p: int| 0 <= p < peer ==> !self.link_up[p],
                self.partyid == old(self).partyid,
                self.directory == old(self).directory,
                self.stat == old(self).stat,
                self.send_timeout == old(self).send_timeout,
                self.recv_timeout == old(self).recv_timeout,
                self.sent == old(self).sent,
                self.link_up.len() == old(self).link_up.len(),
            decreases n - peer,
        {
            self.link_up.set(peer, false);
            peer = peer + 1;
        }
        self.pending = Vec::new();
        self.closed = true;
        proof {
            let goal = old(self)@.halted();
            assert(self@.link_up =~= goal.link_up);
            assert(self@.pending =~= goal.pending);
        }
    }
}

} // verus!
