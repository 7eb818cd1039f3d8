//! Value types shared by the whole library: message payloads, the
//! communication statistics and the party directory.

use crate::decimal::decimal;
use crate::decimal::push_decimal;
use vstd::prelude::*;
use vstd::std_specs::cmp::PartialEqSpecImpl;
use vstd::std_specs::ops::AddSpecImpl;
use vstd::std_specs::ops::DivSpecImpl;
use vstd::std_specs::ops::SubSpecImpl;

verus! {

/// The port of party 0 in a default directory.
pub const DEFAULT_BASE_PORT: u32 = 13500;

/// One message payload.
#[derive(Debug)]
pub struct OneData {
    pub data: Vec<u8>,
}

impl View for OneData {
    type V = Seq<u8>;

    open spec fn view(&self) -> Seq<u8> {
        self.data@
    }
}

impl Clone for OneData {
    fn clone(&self) -> (copy: OneData)
        ensures
            copy@ == self@,
    {
        OneData { data: self.data.clone() }
    }
}

/// What the command line selects: the party id of this process.
#[derive(Debug)]
pub struct CommandLineOpt {
    pub party_id: u32,
}

/// The mathematical value of a [`NetStat`]: three unbounded counters.
pub struct Tally {
    pub count: nat,
    pub bytes: nat,
    pub bytes_all: nat,
}

impl Tally {
    /// The tally of a party that has sent nothing.
    pub open spec fn zero() -> Tally {
        Tally { count: 0, bytes: 0, bytes_all: 0 }
    }

    /// Pointwise sum.
    pub open spec fn plus(self, other: Tally) -> Tally {
        Tally {
            count: self.count + other.count,
            bytes: self.bytes + other.bytes,
            bytes_all: self.bytes_all + other.bytes_all,
        }
    }

    /// Every counter of `self` is at least the matching counter of `other`.
    pub open spec fn covers(self, other: Tally) -> bool {
        &&& self.count >= other.count
        &&& self.bytes >= other.bytes
        &&& self.bytes_all >= other.bytes_all
    }

    /// Pointwise difference; meaningful where `self.covers(other)`.
    pub open spec fn minus(self, other: Tally) -> Tally
        recommends
            self.covers(other),
    {
        Tally {
            count: (self.count - other.count) as nat,
            bytes: (self.bytes - other.bytes) as nat,
            bytes_all: (self.bytes_all - other.bytes_all) as nat,
        }
    }

    /// Pointwise floor division; meaningful where `parts > 0`.
    pub open spec fn share(self, parts: nat) -> Tally
        recommends
            parts > 0,
    {
        Tally {
            count: self.count / parts,
            bytes: self.bytes / parts,
            bytes_all: self.bytes_all / parts,
        }
    }

    /// The payload bytes never exceed the bytes that went over the wire.
    pub open spec fn consistent(self) -> bool {
        self.bytes <= self.bytes_all
    }

    /// Every counter fits in a machine word.
    pub open spec fn fits(self) -> bool {
        &&& self.count <= usize::MAX
        &&& self.bytes <= usize::MAX
        &&& self.bytes_all <= usize::MAX
    }
}

/// The communication statistics
#[derive(Debug)]
pub struct NetStat {
    /// Number of calls to `io.send`.
    pub sent_count: usize,
    /// The real data size.
    pub sent_bytes: usize,
    /// Total size: the real data together with what the envelope adds on the wire.
    pub sent_bytes_all: usize,
}

impl View for NetStat {
    type V = Tally;

    open spec fn view(&self) -> Tally {
        Tally {
            count: self.sent_count as nat,
            bytes: self.sent_bytes as nat,
            bytes_all: self.sent_bytes_all as nat,
        }
    }
}

impl NetStat {
    /// The sum of the two fits in machine words.
    pub open spec fn can_add(self, rhs: NetStat) -> bool {
        self@.plus(rhs@).fits()
    }

    /// Pointwise sum; meaningful where `self.can_add(rhs)`.
    pub open spec fn sum(self, rhs: NetStat) -> NetStat
        recommends
            self.can_add(rhs),
    {
        NetStat {
            sent_count: (self.sent_count + rhs.sent_count) as usize,
            sent_bytes: (self.sent_bytes + rhs.sent_bytes) as usize,
            sent_bytes_all: (self.sent_bytes_all + rhs.sent_bytes_all) as usize,
        }
    }

    /// No counter of `rhs` exceeds the matching counter of `self`.
    pub open spec fn can_sub(self, rhs: NetStat) -> bool {
        self@.covers(rhs@)
    }

    /// Pointwise difference; meaningful where `self.can_sub(rhs)`.
    pub open spec fn difference(self, rhs: NetStat) -> NetStat
        recommends
            self.can_sub(rhs),
    {
        NetStat {
            sent_count: (self.sent_count - rhs.sent_count) as usize,
            sent_bytes: (self.sent_bytes - rhs.sent_bytes) as usize,
            sent_bytes_all: (self.sent_bytes_all - rhs.sent_bytes_all) as usize,
        }
    }

    /// Pointwise floor division; meaningful where `parts > 0`.
    pub open spec fn average(self, parts: usize) -> NetStat
        recommends
            parts > 0,
    {
        NetStat {
            sent_count: self.sent_count / parts,
            sent_bytes: self.sent_bytes / parts,
            sent_bytes_all: self.sent_bytes_all / parts,
        }
    }
}

impl Clone for NetStat {
    fn clone(&self) -> (copy: NetStat)
        ensures
            copy == *self,
    {
        NetStat {
            sent_count: self.sent_count,
            sent_bytes: self.sent_bytes,
            sent_bytes_all: self.sent_bytes_all,
        }
    }
}

impl Default for NetStat {
    fn default() -> (stat: NetStat)
        ensures
            stat@ == Tally::zero(),
    {
        NetStat { sent_count: 0, sent_bytes: 0, sent_bytes_all: 0 }
    }
}

impl AddSpecImpl for NetStat {
    open spec fn obeys_add_spec() -> bool {
        true
    }

    open spec fn add_req(self, rhs: NetStat) -> bool {
        self.can_add(rhs)
    }

    open spec fn add_spec(self, rhs: NetStat) -> NetStat {
        self.sum(rhs)
    }
}

impl core::ops::Add for NetStat {
    type Output = NetStat;

    fn add(self, rhs: NetStat) -> (sum: NetStat)
        ensures
            sum@ == self@.plus(rhs@),
            self@.consistent() && rhs@.consistent() ==> sum@.consistent(),
    {
        NetStat {
            sent_count: self.sent_count + rhs.sent_count,
            sent_bytes: self.sent_bytes + rhs.sent_bytes,
            sent_bytes_all: self.sent_bytes_all + rhs.sent_bytes_all,
        }
    }
}

impl SubSpecImpl for NetStat {
    open spec fn obeys_sub_spec() -> bool {
        true
    }

    open spec fn sub_req(self, rhs: NetStat) -> bool {
        self.can_sub(rhs)
    }

    open spec fn sub_spec(self, rhs: NetStat) -> NetStat {
        self.difference(rhs)
    }
}

impl core::ops::Sub for NetStat {
    type Output = NetStat;

    fn sub(self, rhs: NetStat) -> (diff: NetStat)
        ensures
            diff@ == self@.minus(rhs@),
    {
        NetStat {
            sent_count: self.sent_count - rhs.sent_count,
            sent_bytes: self.sent_bytes - rhs.sent_bytes,
            sent_bytes_all: self.sent_bytes_all - rhs.sent_bytes_all,
        }
    }
}

impl DivSpecImpl<usize> for NetStat {
    open spec fn obeys_div_spec() -> bool {
        true
    }

    open spec fn div_req(self, rhs: usize) -> bool {
        rhs > 0
    }

    open spec fn div_spec(self, rhs: usize) -> NetStat {
        self.average(rhs)
    }
}

impl core::ops::Div<usize> for NetStat {
    type Output = NetStat;

    fn div(self, rhs: usize) -> (avg: NetStat)
        ensures
            avg@ == self@.share(rhs as nat),
            self@.consistent() ==> avg@.consistent(),
    {
        proof {
            if self@.consistent() {
                vstd::arithmetic::div_mod::lemma_div_is_ordered(
                    self.sent_bytes as int,
                    self.sent_bytes_all as int,
                    rhs as int,
                );
            }
        }
        NetStat {
            sent_count: self.sent_count / rhs,
            sent_bytes: self.sent_bytes / rhs,
            sent_bytes_all: self.sent_bytes_all / rhs,
        }
    }
}

/// Addition of statistics does not depend on the order of its operands.
pub proof fn lemma_add_commutative(a: NetStat, b: NetStat)
    ensures
        a@.plus(b@) == b@.plus(a@),
        a.can_add(b) == b.can_add(a),
        a.sum(b) == b.sum(a),
{
}

/// Addition of statistics does not depend on how a sum of three is grouped.
pub proof fn lemma_add_associative(a: NetStat, b: NetStat, c: NetStat)
    ensures
        a@.plus(b@).plus(c@) == a@.plus(b@.plus(c@)),
        a.can_add(b) && a.sum(b).can_add(c) ==> {
            &&& b.can_add(c)
            &&& a.can_add(b.sum(c))
            &&& a.sum(b).sum(c) == a.sum(b.sum(c))
        },
{
}

/// The all-zero statistics are the identity of addition, on either side.
pub proof fn lemma_add_zero_identity(a: NetStat, zero: NetStat)
    requires
        zero@ == Tally::zero(),
    ensures
        a@.plus(Tally::zero()) == a@,
        Tally::zero().plus(a@) == a@,
        a.can_add(zero) && a.sum(zero) == a,
        zero.can_add(a) && zero.sum(a) == a,
{
}

/// Subtracting what was added gives back the first operand.
pub proof fn lemma_sub_undoes_add(a: NetStat, b: NetStat)
    ensures
        a@.plus(b@).covers(b@),
        a@.plus(b@).minus(b@) == a@,
        a.can_add(b) ==> a.sum(b).can_sub(b) && a.sum(b).difference(b) == a,
{
}

/// The mathematical value of a [`Participant`].
pub struct ParticipantView {
    pub partyid: u32,
    pub nodeid: Seq<char>,
    pub addr: Seq<char>,
}

/// Participant info
#[derive(Debug)]
pub struct Participant {
    /// The party id, from 0 to n-1.
    pub partyid: u32,
    /// The node id. Informational only.
    pub nodeid: String,
    /// The endpoint, an IPv4 literal and a port: `ip:port`.
    pub addr: String,
}

impl View for Participant {
    type V = ParticipantView;

    open spec fn view(&self) -> ParticipantView {
        ParticipantView { partyid: self.partyid, nodeid: self.nodeid@, addr: self.addr@ }
    }
}

impl Clone for Participant {
    fn clone(&self) -> (copy: Participant)
        ensures
            copy@ == self@,
    {
        Participant {
            partyid: self.partyid,
            nodeid: self.nodeid.clone(),
            addr: self.addr.clone(),
        }
    }
}

impl PartialEqSpecImpl for Participant {
    open spec fn obeys_eq_spec() -> bool {
        true
    }

    open spec fn eq_spec(&self, other: &Participant) -> bool {
        self@ == other@
    }
}

impl PartialEq for Participant {
    fn eq(&self, other: &Participant) -> (same: bool) {
        self.partyid == other.partyid && self.nodeid == other.nodeid && self.addr == other.addr
    }
}

/// The entry that a default directory holds for party `partyid`: the label
/// `node<partyid>` and the localhost endpoint on port `base_port + partyid`.
pub open spec fn default_entry(partyid: u32, base_port: u32) -> ParticipantView {
    ParticipantView {
        partyid,
        nodeid: "node"@ + decimal(partyid as nat),
        addr: "127.0.0.1:"@ + decimal((partyid + base_port) as nat),
    }
}

/// The party ids of `list`, in the order of its entries.
pub open spec fn party_ids(list: Seq<Participant>) -> Seq<u32> {
    Seq::new(list.len(), |i: int| list[i].partyid)
}

/// The directory invariant: with `N` entries, the party ids are exactly
/// `0..N`, none twice and none missing.
pub open spec fn is_directory(list: Seq<Participant>) -> bool {
    &&& list.len() <= u32::MAX
    &&& forall|i: int| 0 <= i < list.len() ==> (#[trigger] list[i]).partyid < list.len()
    &&& forall|i: int, j: int|
        0 <= i < j < list.len() ==> (#[trigger] list[i]).partyid != (#[trigger] list[j]).partyid
    &&& forall|id: u32| id < list.len() ==> party_ids(list).contains(id)
}

impl Participant {
    /// The default directory of `parties` parties on localhost, from port
    /// [`DEFAULT_BASE_PORT`] on.
    pub fn from_default(parties: u32) -> (list: Vec<Participant>)
        ensures
            list.len() == parties,
            forall|i: int|
                0 <= i < parties ==> (#[trigger] list[i])@ == default_entry(
                    i as u32,
                    DEFAULT_BASE_PORT,
                ),
            is_directory(list@),
    {
        Participant::from_default_baseport(parties, DEFAULT_BASE_PORT)
    }

    /// The default directory of `parties` parties on localhost: party `i`
    /// is `node<i>` at `127.0.0.1:<base_port + i>`.
    pub fn from_default_baseport(parties: u32, base_port: u32) -> (list: Vec<Participant>)
        ensures
            list.len() == parties,
            forall|i: int|
                0 <= i < parties ==> (#[trigger] list[i])@ == default_entry(i as u32, base_port),
            is_directory(list@),
    {
        let mut partyids: Vec<u32> = Vec::new();
        let mut id: u32 = 0;
        while id < parties
            invariant
                id <= parties,
                partyids.len() == id,
                forall|k: int| 0 <= k < id ==> partyids[k] == k,
            decreases parties - id,
        {
            partyids.push(id);
            id = id + 1;
        }
        let list = Participant::from_default_partyids_baseport(parties, &partyids, base_port);
        proof {
            assert forall|wanted: u32| wanted < list.len() implies party_ids(list@).contains(
                wanted,
            ) by {
                assert(party_ids(list@)[wanted as int] == wanted);
            }
        }
        list
    }

    /// A localhost directory with the party ids that the caller assigns:
    /// entry `i` is for party `partyids[i]`, labelled `node<id>`, at
    /// `127.0.0.1:<base_port + id>`.
    pub fn from_default_partyids_baseport(
        parties: u32,
        partyids: &Vec<u32>,
        base_port: u32,
    ) -> (list: Vec<Participant>)
        requires
            partyids.len() == parties,
        ensures
            list.len() == parties,
            forall|i: int|
                0 <= i < parties ==> (#[trigger] list[i])@ == default_entry(
                    partyids[i],
                    base_port,
                ),
    {
        let mut participants: Vec<Participant> = Vec::new();
        let mut i: usize = 0;
        while i < partyids.len()
            invariant
                i <= partyids.len(),
                participants.len() == i,
                forall|k: int|
                    0 <= k < i ==> (#[trigger] participants[k])@ == default_entry(
                        partyids[k],
                        base_port,
                    ),
            decreases partyids.len() - i,
        {
            let id: u32 = partyids[i];
            let mut nodeid = "node".to_owned();
            push_decimal(&mut nodeid, id as u64);
            let mut addr = "127.0.0.1:".to_owned();
            push_decimal(&mut addr, id as u64 + base_port as u64);
            participants.push(Participant { partyid: id, nodeid, addr });
            i = i + 1;
        }
        participants
    }

    /// Whether `list` meets the directory invariant.
    pub fn check_directory(list: &Vec<Participant>) -> (ok: bool)
        ensures
            ok == is_directory(list@),
    {
        let n = list.len();
        if n > u32::MAX as usize {
            return false;
        }
        let mut seen: Vec<bool> = Vec::new();
        let mut filled: usize = 0;
        while filled < n
            invariant
                filled <= n,
                seen.len() == filled,
                forall|d: int| 0 <= d < filled ==> !seen[d],
            decreases n - filled,
        {
            seen.push(false);
            filled = filled + 1;
        }
        let mut i: usize = 0;
        while i < n
            invariant
                n == list.len(),
                n <= u32::MAX,
                i <= n,
                seen.len() == n,
                forall|k: int| 0 <= k < i ==> (#[trigger] list[k]).partyid < n,
                forall|a: int, b: int|
                    0 <= a < b < i ==> (#[trigger] list[a]).partyid != (#[trigger] list[b]).partyid,
                forall|d: int|
                    0 <= d < n ==> (#[trigger] seen[d] <==> exists|k: int|
                        0 <= k < i && (#[trigger] list[k]).partyid == d),
            decreases n - i,
        {
            let id = list[i].partyid as usize;
            if id >= n {
                return false;
            }
            if seen[id] {
                proof {
                    let k = choose|k: int| 0 <= k < i && (#[trigger] list[k]).partyid == id;
                    assert(list[k].partyid == list[i as int].partyid);
                }
                return false;
            }
            seen.set(id, true);
            proof {
                assert forall|d: int| 0 <= d < n implies (#[trigger] seen[d] <==> exists|k: int|
                    0 <= k < i + 1 && (#[trigger] list[k]).partyid == d) by {
                    if d == id {
                        assert(list[i as int].partyid == d);
                    } else if seen[d] {
                        let k = choose|k: int| 0 <= k < i && (#[trigger] list[k]).partyid == d;
                        assert(0 <= k < i + 1 && list[k].partyid == d);
                    }
                }
            }
            i = i + 1;
        }
        let mut id: usize = 0;
        while id < n
            invariant
                n == list.len(),
                n <= u32::MAX,
                id <= n,
                seen.len() == n,
                forall|d: int|
                    0 <= d < n ==> (#[trigger] seen[d] <==> exists|k: int|
                        0 <= k < n && (#[trigger] list[k]).partyid == d),
                forall|d: int| 0 <= d < id ==> seen[d],
            decreases n - id,
        {
            if !seen[id] {
                proof {
                    if party_ids(list@).contains(id as u32) {
                        let k = choose|k: int|
                            0 <= k < party_ids(list@).len() && party_ids(list@)[k] == id as u32;
                        assert(list[k].partyid == id);
                    }
                }
                return false;
            }
            id = id + 1;
        }
        proof {
            assert forall|wanted: u32| wanted < list.len() implies party_ids(list@).contains(
                wanted,
            ) by {
                assert(seen[wanted as int]);
                let k = choose|k: int| 0 <= k < n && (#[trigger] list[k]).partyid == wanted;
                assert(party_ids(list@)[k] == wanted);
            }
        }
        true
    }

    /// The position in `list` of the first entry for party `partyid`.
    pub fn find(list: &Vec<Participant>, partyid: u32) -> (found: Option<usize>)
        ensures
            match found {
                Some(at) => {
                    &&& at < list.len()
                    &&& list[at as int].partyid == partyid
                    &&& forall|k: int| 0 <= k < at ==> (#[trigger] list[k]).partyid != partyid
                },
                None => !party_ids(list@).contains(partyid),
            },
    {
        let mut i: usize = 0;
        while i < list.len()
            invariant
                i <= list.len(),
                forall|k: int| 0 <= k < i ==> (#[trigger] list[k]).partyid != partyid,
            decreases list.len() - i,
        {
            if list[i].partyid == partyid {
                return Some(i);
            }
            i = i + 1;
        }
        proof {
            if party_ids(list@).contains(partyid) {
                let k = choose|k: int|
                    0 <= k < party_ids(list@).len() && party_ids(list@)[k] == partyid;
                assert(list[k].partyid == partyid);
            }
        }
        None
    }
}

/// For debug or simple usage.
pub fn get_default_participants(parties: u32) -> (list: Vec<Participant>)
    ensures
        list.len() == parties,
        forall|i: int|
            0 <= i < parties ==> (#[trigger] list[i])@ == default_entry(
                i as u32,
                DEFAULT_BASE_PORT,
            ),
        is_directory(list@),
{
    Participant::from_default(parties)
}

} // verus!
