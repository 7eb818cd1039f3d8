//! A lightweight network io library for multi-party protocols.
//!
//! Parties are numbered `0..N`. Each party exchanges byte messages with
//! every other party, and each message carries a string id chosen by the
//! application, so that many exchanges can share one link.
//!
//! [`NetIO`] is what an application sees of its party's network io.
//! [`router::MessageRouter`] is the engine behind it: it keeps what
//! arrived until a matching receive claims it and decides what each
//! operation returns, while the links themselves are driven from outside.

pub mod common;
pub mod decimal;
pub mod error;
pub mod router;
pub mod state;

use crate::common::NetStat;
use crate::error::NetError;
use crate::state::Dispatch;
use crate::state::Facade;
use vstd::prelude::*;

verus! {

/// The network io of one party.
pub trait NetIO {
    /// What the application can observe of this network io.
    spec fn facade(&self) -> Facade;

    /// Releases all links. From then on every send and receive fails as
    /// closed. Stopping twice is the same as stopping once.
    fn stop(&mut self)
        ensures
            final(self).facade() == old(self).facade().halted(),
    ;

    /// Return self partyid.
    fn partyid(&self) -> (id: u32)
        ensures
            id == self.facade().partyid,
    ;

    /// The number of parties.
    fn parties(&self) -> (n: u32)
        ensures
            n == self.facade().parties,
    ;

    /// Get the communication statistics.
    fn stat(&self) -> (stat: NetStat)
        ensures
            stat == self.facade().stat,
    ;

    /// Sets how long a send issued from now on may wait for its link.
    fn set_send_timeout(&mut self, to: usize)
        ensures
            final(self).facade() == (Facade { send_timeout: Some(to), ..old(self).facade() }),
    ;

    /// Sets how long a receive issued from now on may wait for a payload.
    fn set_recv_timeout(&mut self, to: usize)
        ensures
            final(self).facade() == (Facade { recv_timeout: Some(to), ..old(self).facade() }),
    ;

    /// Recv a message from `partyid` with `msgid`.
    fn recv(&mut self, partyid: u32, msgid: &String) -> (result: Result<Vec<u8>, NetError>)
        ensures
            old(self).facade().recv_allows(
                final(self).facade(),
                partyid,
                match result {
                    Ok(_) => None,
                    Err(failure) => Some(failure),
                },
            ),
    ;

    /// Send a message `data` to `partyid` with `msgid`.
    fn send(&mut self, partyid: u32, msgid: &String, data: &Vec<u8>) -> (result: Result<
        usize,
        NetError,
    >)
        ensures
            old(self).facade().send_allows(final(self).facade(), partyid, msgid@, data@, result),
    ;

    /// Broadcast a message `data` to other parties(peers) with `msgid`:
    /// one send to each of them, in the order of their ids. The first
    /// failure ends the broadcast; what was sent before it stays sent.
    fn broadcast(&mut self, msgid: &String, data: &Vec<u8>) -> (result: Result<usize, NetError>)
        requires
            old(self).facade().valid(),
            (old(self).facade().parties - 1) * data@.len() <= usize::MAX,
        ensures
            old(self).facade().broadcast_allows(final(self).facade(), msgid@, data@, result),
    {
        let n = self.parties();
        let me = self.partyid();
        let ghost start = self.facade();
        let ghost len = data@.len();
        let mut total: usize = 0;
        let mut peer: u32 = 0;
        let mut completed: Ghost<nat> = Ghost(0);
        while peer < n
            invariant
                peer <= n,
                me < n,
                start == old(self).facade(),
                start.valid(),
                start.partyid == me,
                start.parties == n,
                len == data@.len(),
                (n - 1) * len <= usize::MAX,
                completed@ == if peer <= me {
                    peer as nat
                } else {
                    (peer - 1) as nat
                },
                start.sent_to_peers(self.facade(), completed@, msgid@, data@),
                total == completed@ * len,
                start.stopped ==> self.facade() == start && completed@ == 0,
            decreases n - peer,
        {
            if peer != me {
                let sent = self.send(peer, msgid, data);
                proof {
                    assert((completed@ + 1) * len == completed@ * len + len) by (nonlinear_arith);
                    assert((completed@ + 1) * len <= (n - 1) * len) by (nonlinear_arith)
                        requires
                            completed@ + 1 <= n - 1,
                            len >= 0,
                    ;
                    assert(start.nth_peer(completed@ as int) == peer);
                    assert((start.sent@ + start.broadcast_record(completed@, msgid@, data@)).push(
                        Dispatch { peer, msgid: msgid@, payload: data@ },
                    ) =~= start.sent@ + start.broadcast_record(completed@ + 1, msgid@, data@));
                }
                match sent {
                    Ok(bytes) => {
                        total = total + bytes;
                        proof {
                            completed@ = completed@ + 1;
                        }
                    },
                    Err(failure) => {
                        return Err(failure);
                    },
                }
            }
            peer = peer + 1;
        }
        Ok(total)
    }
}

} // verus!
