//! The peers that a node knows, how they behave and what their clocks say.
use crate::crypto;
use crate::model;
use crate::model::Model;
use crate::sorted;
use crate::sorted::SortedMap;
use crate::text;
use vstd::prelude::*;
use vstd::string::*;

verus! {

pub const PEER_MISBEHAVIOR_BAN_SCORE: u32 = 3;

pub const PEER_MISBEHAVIOR_BAN_MS: u64 = 600_000;

pub const PEER_CLOCK_OFFSET_ACCEPTANCE_MS: i64 = 600_000;

pub const PEER_CLOCK_OFFSET_STALE_MS: u64 = 1_200_000;

/// Who opened the connection to a peer.
#[derive(Clone, Copy, Debug, PartialEq, Eq, Structural)]
pub enum PeerDirection {
    Outbound,
    Inbound,
}

/// What is known of a peer.
#[derive(Clone, Debug, Eq, PartialEq)]
pub struct PeerInfo {
    pub address: String,
    pub direction: PeerDirection,
    pub messages_sent: u64,
    pub messages_received: u64,
    pub last_known_height: Option<u64>,
    pub last_known_tip_hash: Option<String>,
    pub last_clock_offset_ms: Option<i64>,
    pub last_clock_offset_accepted: Option<bool>,
    pub last_clock_observed_ms: Option<u64>,
    pub last_error: Option<String>,
    pub last_contact_ms: Option<u64>,
    pub last_success_ms: Option<u64>,
    pub last_error_ms: Option<u64>,
    pub misbehavior_score: u32,
    pub banned_until_ms: Option<u64>,
    pub ban_reason: Option<String>,
}

#[verifier::ext_equal]
pub struct PeerInfoView {
    pub address: Seq<char>,
    pub direction: PeerDirection,
    pub messages_sent: u64,
    pub messages_received: u64,
    pub last_known_height: Option<u64>,
    pub last_known_tip_hash: Option<Seq<char>>,
    pub last_clock_offset_ms: Option<i64>,
    pub last_clock_offset_accepted: Option<bool>,
    pub last_clock_observed_ms: Option<u64>,
    pub last_error: Option<Seq<char>>,
    pub last_contact_ms: Option<u64>,
    pub last_success_ms: Option<u64>,
    pub last_error_ms: Option<u64>,
    pub misbehavior_score: u32,
    pub banned_until_ms: Option<u64>,
    pub ban_reason: Option<Seq<char>>,
}

pub type PeersView = Seq<(Seq<char>, PeerInfoView)>;

impl DeepView for PeerInfo {
    type V = PeerInfoView;

    open spec fn deep_view(&self) -> PeerInfoView {
        PeerInfoView {
            address: self.address@,
            direction: self.direction,
            messages_sent: self.messages_sent,
            messages_received: self.messages_received,
            last_known_height: self.last_known_height,
            last_known_tip_hash: self.last_known_tip_hash.deep_view(),
            last_clock_offset_ms: self.last_clock_offset_ms,
            last_clock_offset_accepted: self.last_clock_offset_accepted,
            last_clock_observed_ms: self.last_clock_observed_ms,
            last_error: self.last_error.deep_view(),
            last_contact_ms: self.last_contact_ms,
            last_success_ms: self.last_success_ms,
            last_error_ms: self.last_error_ms,
            misbehavior_score: self.misbehavior_score,
            banned_until_ms: self.banned_until_ms,
            ban_reason: self.ban_reason.deep_view(),
        }
    }
}

fn same_time(a: Option<u64>, b: Option<u64>) -> (r: bool)
    ensures
        r == (a == b),
{
    match (a, b) {
        (Some(x), Some(y)) => x == y,
        (None, None) => true,
        _ => false,
    }
}

impl Model for PeerInfo {
    fn duplicate(&self) -> (r: Self) {
        PeerInfo {
            address: self.address.clone(),
            direction: self.direction,
            messages_sent: self.messages_sent,
            messages_received: self.messages_received,
            last_known_height: self.last_known_height,
            last_known_tip_hash: self.last_known_tip_hash.duplicate(),
            last_clock_offset_ms: self.last_clock_offset_ms,
            last_clock_offset_accepted: self.last_clock_offset_accepted,
            last_clock_observed_ms: self.last_clock_observed_ms,
            last_error: self.last_error.duplicate(),
            last_contact_ms: self.last_contact_ms,
            last_success_ms: self.last_success_ms,
            last_error_ms: self.last_error_ms,
            misbehavior_score: self.misbehavior_score,
            banned_until_ms: self.banned_until_ms,
            ban_reason: self.ban_reason.duplicate(),
        }
    }

    fn same(&self, other: &Self) -> (r: bool) {
        let offsets = match (self.last_clock_offset_ms, other.last_clock_offset_ms) {
            (Some(x), Some(y)) => x == y,
            (None, None) => true,
            _ => false,
        };
        let accepted = match (self.last_clock_offset_accepted, other.last_clock_offset_accepted) {
            (Some(x), Some(y)) => x == y,
            (None, None) => true,
            _ => false,
        };
        let times = same_time(self.last_known_height, other.last_known_height) && same_time(
            self.last_clock_observed_ms,
            other.last_clock_observed_ms,
        ) && same_time(self.last_contact_ms, other.last_contact_ms) && same_time(
            self.last_success_ms,
            other.last_success_ms,
        ) && same_time(self.last_error_ms, other.last_error_ms) && same_time(
            self.banned_until_ms,
            other.banned_until_ms,
        );
        let texts = self.address.same(&other.address) && self.last_known_tip_hash.same(
            &other.last_known_tip_hash,
        ) && self.last_error.same(&other.last_error) && self.ban_reason.same(&other.ban_reason);
        offsets && accepted && times && texts && self.direction == other.direction && self.messages_sent
            == other.messages_sent && self.messages_received == other.messages_received && self.misbehavior_score
            == other.misbehavior_score
    }
}

/// A peer of which nothing is known.
pub open spec fn new_peer(address: Seq<char>, direction: PeerDirection) -> PeerInfoView {
    PeerInfoView {
        address,
        direction,
        messages_sent: 0,
        messages_received: 0,
        last_known_height: None,
        last_known_tip_hash: None,
        last_clock_offset_ms: None,
        last_clock_offset_accepted: None,
        last_clock_observed_ms: None,
        last_error: None,
        last_contact_ms: None,
        last_success_ms: None,
        last_error_ms: None,
        misbehavior_score: 0,
        banned_until_ms: None,
        ban_reason: None,
    }
}

impl PeerInfoView {
    pub open spec fn banned_at(self, now_ms: u64) -> bool {
        self.banned_until_ms matches Some(until) && until > now_ms
    }

    pub open spec fn forgiven(self) -> PeerInfoView {
        PeerInfoView { misbehavior_score: 0, banned_until_ms: None, ban_reason: None, ..self }
    }

    /// The peer after a good contact: unless it is banned, what it did wrong is forgotten.
    pub open spec fn contacted(self, now_ms: u64) -> PeerInfoView {
        let p = PeerInfoView { last_contact_ms: Some(now_ms), last_success_ms: Some(now_ms), ..self };
        if p.banned_at(now_ms) {
            p
        } else {
            PeerInfoView { last_error: None, ..p }.forgiven()
        }
    }

    /// The peer after an error.
    pub open spec fn failed(self, error: Seq<char>, now_ms: u64) -> PeerInfoView {
        PeerInfoView {
            last_contact_ms: Some(now_ms),
            last_error_ms: Some(now_ms),
            last_error: Some(error),
            ..self
        }
    }

    /// The peer after it misbehaved: enough of that bans it.
    pub open spec fn misbehaved(self, reason: Seq<char>, now_ms: u64) -> PeerInfoView {
        let score = if self.misbehavior_score == u32::MAX {
            u32::MAX
        } else {
            (self.misbehavior_score + 1) as u32
        };
        PeerInfoView {
            misbehavior_score: score,
            ban_reason: Some(reason),
            banned_until_ms: if score >= PEER_MISBEHAVIOR_BAN_SCORE {
                Some(
                    if now_ms + PEER_MISBEHAVIOR_BAN_MS > u64::MAX {
                        u64::MAX
                    } else {
                        (now_ms + PEER_MISBEHAVIOR_BAN_MS) as u64
                    },
                )
            } else {
                self.banned_until_ms
            },
            ..self.failed(reason, now_ms)
        }
    }

    /// The peer with what its clock showed.
    pub open spec fn observed(self, offset_ms: i64, now_ms: u64) -> PeerInfoView {
        PeerInfoView {
            last_clock_offset_ms: Some(offset_ms),
            last_clock_offset_accepted: Some(
                -PEER_CLOCK_OFFSET_ACCEPTANCE_MS <= offset_ms <= PEER_CLOCK_OFFSET_ACCEPTANCE_MS,
            ),
            last_clock_observed_ms: Some(now_ms),
            ..self
        }
    }

    /// Whether the clock of this peer was seen lately.
    pub open spec fn seen_lately(self, now_ms: u64) -> bool {
        self.last_clock_observed_ms matches Some(seen) && now_ms - seen <= PEER_CLOCK_OFFSET_STALE_MS
    }

    /// Whether the clock of this peer counts.
    pub open spec fn clock_counts(self, now_ms: u64) -> bool {
        &&& !self.banned_at(now_ms)
        &&& self.last_error is None
        &&& self.last_clock_offset_accepted == Some(true)
        &&& self.seen_lately(now_ms)
        &&& self.last_clock_offset_ms is Some
    }

    /// Whether the clock of this peer is wrong.
    pub open spec fn clock_is_bad(self, now_ms: u64) -> bool {
        !self.banned_at(now_ms) && self.seen_lately(now_ms) && self.last_clock_offset_accepted == Some(false)
    }

    /// This peer with what was known of the same peer under another address.
    pub open spec fn merged(self, from: PeerInfoView) -> PeerInfoView {
        let clock_from = later_time(from.last_clock_observed_ms, self.last_clock_observed_ms);
        PeerInfoView {
            address: self.address,
            direction: if from.direction == PeerDirection::Outbound {
                PeerDirection::Outbound
            } else {
                self.direction
            },
            messages_sent: capped_sum(self.messages_sent, from.messages_sent),
            messages_received: capped_sum(self.messages_received, from.messages_received),
            last_known_height: if self.last_known_height is Some {
                self.last_known_height
            } else {
                from.last_known_height
            },
            last_known_tip_hash: if self.last_known_tip_hash is Some {
                self.last_known_tip_hash
            } else {
                from.last_known_tip_hash
            },
            last_clock_offset_ms: if clock_from {
                from.last_clock_offset_ms
            } else {
                self.last_clock_offset_ms
            },
            last_clock_offset_accepted: if clock_from {
                from.last_clock_offset_accepted
            } else {
                self.last_clock_offset_accepted
            },
            last_clock_observed_ms: if clock_from {
                from.last_clock_observed_ms
            } else {
                self.last_clock_observed_ms
            },
            last_error: if self.last_error is None {
                from.last_error
            } else {
                self.last_error
            },
            last_contact_ms: latest(self.last_contact_ms, from.last_contact_ms),
            last_success_ms: latest(self.last_success_ms, from.last_success_ms),
            last_error_ms: latest(self.last_error_ms, from.last_error_ms),
            misbehavior_score: if self.misbehavior_score + from.misbehavior_score > u32::MAX {
                u32::MAX
            } else {
                (self.misbehavior_score + from.misbehavior_score) as u32
            },
            banned_until_ms: latest(self.banned_until_ms, from.banned_until_ms),
            ban_reason: if self.ban_reason is None {
                from.ban_reason
            } else {
                self.ban_reason
            },
        }
    }
}

/// Whether one time is after another; any time is after none.
pub open spec fn later_time(a: Option<u64>, b: Option<u64>) -> bool {
    match (a, b) {
        (Some(x), Some(y)) => x > y,
        (Some(_), None) => true,
        _ => false,
    }
}

/// The later of two times, if there is one.
pub open spec fn latest(a: Option<u64>, b: Option<u64>) -> Option<u64> {
    if later_time(a, b) {
        a
    } else {
        b
    }
}

pub open spec fn capped_sum(a: u64, b: u64) -> u64 {
    if a + b > u64::MAX {
        u64::MAX
    } else {
        (a + b) as u64
    }
}

/// The peer at an address, or a new one.
pub open spec fn peer_at(p: PeersView, address: Seq<char>, direction: PeerDirection) -> PeerInfoView {
    match sorted::lookup(p, address) {
        Some(peer) => peer,
        None => new_peer(address, direction),
    }
}

pub open spec fn with_peer(p: PeersView, address: Seq<char>, peer: PeerInfoView) -> PeersView {
    sorted::with::<String, PeerInfoView>(p, address, peer)
}

/// The peers with one added that this node connects to.
pub open spec fn added(p: PeersView, address: Seq<char>) -> PeersView {
    with_peer(
        p,
        address,
        PeerInfoView {
            direction: PeerDirection::Outbound,
            ..peer_at(p, address, PeerDirection::Outbound)
        },
    )
}

pub open spec fn all_added(p: PeersView, addresses: Seq<Seq<char>>) -> PeersView
    decreases addresses.len(),
{
    if addresses.len() == 0 {
        p
    } else {
        added(all_added(p, addresses.drop_last()), addresses.last())
    }
}

/// The peers once one turned out to be reachable at another address.
pub open spec fn replaced(p: PeersView, from: Seq<char>, to: Seq<char>) -> PeersView {
    if from == to {
        if sorted::lookup(p, from) is Some {
            p
        } else {
            added(p, to)
        }
    } else {
        match sorted::lookup(p, from) {
            None => added(p, to),
            Some(peer) => {
                let rest = sorted::without(p, from);
                with_peer(rest, to, peer_at(rest, to, peer.direction).merged(peer))
            },
        }
    }
}

/// The addresses of peers.
pub open spec fn addresses_of(p: PeersView) -> Seq<Seq<char>> {
    Seq::new(p.len(), |i: int| p[i].1.address)
}

/// The peers that this node connects to.
pub open spec fn is_outbound() -> spec_fn((Seq<char>, PeerInfoView)) -> bool {
    |e: (Seq<char>, PeerInfoView)| e.1.direction != PeerDirection::Inbound
}

/// The peers that this node may connect to at a time.
pub open spec fn is_connectable(now_ms: u64) -> spec_fn((Seq<char>, PeerInfoView)) -> bool {
    |e: (Seq<char>, PeerInfoView)| e.1.direction != PeerDirection::Inbound && !e.1.banned_at(now_ms)
}

pub open spec fn counts(now_ms: u64) -> spec_fn((Seq<char>, PeerInfoView)) -> bool {
    |e: (Seq<char>, PeerInfoView)| e.1.clock_counts(now_ms)
}

pub open spec fn has_bad_clock(now_ms: u64) -> spec_fn((Seq<char>, PeerInfoView)) -> bool {
    |e: (Seq<char>, PeerInfoView)| e.1.clock_is_bad(now_ms)
}

/// Numbers with one put in its place.
pub open spec fn with_number(s: Seq<i64>, x: i64) -> Seq<i64> {
    s.filter(|v: i64| v <= x) + seq![x] + s.filter(|v: i64| v > x)
}

/// Numbers in ascending order.
pub open spec fn ascending(values: Seq<i64>) -> Seq<i64>
    decreases values.len(),
{
    if values.len() == 0 {
        Seq::<i64>::empty()
    } else {
        with_number(ascending(values.drop_last()), values.last())
    }
}

/// The middle of numbers in order; of two the upper.
pub open spec fn median(values: Seq<i64>) -> Option<i64> {
    if values.len() == 0 {
        None
    } else {
        Some(ascending(values)[(values.len() / 2) as int])
    }
}

/// The offsets of the clocks that count.
pub open spec fn offsets(p: PeersView, now_ms: u64) -> Seq<i64> {
    let counting = p.filter(counts(now_ms));
    Seq::new(counting.len(), |i: int| counting[i].1.last_clock_offset_ms->0)
}

/// The time of a clock moved by an offset.
pub open spec fn moved(now_ms: u64, offset: Option<i64>) -> u64 {
    match offset {
        None => now_ms,
        Some(x) => if now_ms + x > u64::MAX {
            u64::MAX
        } else if now_ms + x < 0 {
            0
        } else {
            (now_ms + x) as u64
        },
    }
}

/// What the difference of two clocks is taken to be.
pub open spec fn clock_offset(remote_ms: u64, local_ms: u64) -> i64 {
    if remote_ms - local_ms > i64::MAX {
        i64::MAX
    } else {
        (remote_ms - local_ms) as i64
    }
}

/// Putting numbers in order keeps them, each as often as it was there, and sorts them.
pub proof fn ascending_sorts(values: Seq<i64>)
    ensures
        ascending(values).to_multiset() == values.to_multiset(),
        ascending(values).len() == values.len(),
        forall|i: int, k: int|
            0 <= i < k < ascending(values).len() ==> (#[trigger] ascending(values)[i]) <= (
            #[trigger] ascending(values)[k]),
    decreases values.len(),
{
    broadcast use vstd::seq_lib::group_to_multiset_ensures;

    if values.len() > 0 {
        let s = ascending(values.drop_last());
        let x = values.last();
        ascending_sorts(values.drop_last());
        assert(values =~= values.drop_last().push(x));
        split_by(s, x, s.len() as int);
        model::take_all(s);
        let low = s.filter(|v: i64| v <= x);
        let high = s.filter(|v: i64| v > x);
        assert(ascending(values) == low + seq![x] + high);
        assert((low + seq![x]) =~= low.push(x));
        vstd::seq_lib::lemma_multiset_commutative(low.push(x), high);
        vstd::seq_lib::lemma_multiset_commutative(low, high);
        assert(ascending(values).to_multiset() =~= values.to_multiset());
        let r = ascending(values);
        assert forall|i: int, k: int| 0 <= i < k < r.len() implies (#[trigger] r[i]) <= (#[trigger] r[k]) by {
            if i < low.len() {
                assert(low[i] == r[i]);
            }
            if k > low.len() {
                assert(high[k - low.len() - 1] == r[k]);
            }
            if i > low.len() {
                assert(high[i - low.len() - 1] == r[i]);
            }
            if k < low.len() {
                assert(low[k] == r[k]);
            }
        }
    }
}

/// A sorted prefix splits at a number.
proof fn split_by(s: Seq<i64>, x: i64, n: int)
    requires
        0 <= n <= s.len(),
        forall|i: int, k: int| 0 <= i < k < s.len() ==> (#[trigger] s[i]) <= (#[trigger] s[k]),
    ensures
        ({
            let low = s.take(n).filter(|v: i64| v <= x);
            let high = s.take(n).filter(|v: i64| v > x);
            &&& low.len() + high.len() == n
            &&& (low + high).to_multiset() == s.take(n).to_multiset()
            &&& forall|i: int| 0 <= i < low.len() ==> (#[trigger] low[i]) <= x
            &&& forall|i: int| 0 <= i < high.len() ==> (#[trigger] high[i]) > x
            &&& forall|i: int, k: int| 0 <= i < k < low.len() ==> (#[trigger] low[i]) <= (#[trigger] low[k])
            &&& forall|i: int, k: int| 0 <= i < k < high.len() ==> (#[trigger] high[i]) <= (#[trigger] high[k])
            &&& forall|i: int| 0 <= i < low.len() && n > 0 ==> (#[trigger] low[i]) <= s[n - 1]
            &&& forall|i: int| 0 <= i < high.len() && n > 0 ==> (#[trigger] high[i]) <= s[n - 1]
        }),
    decreases n,
{
    broadcast use vstd::seq_lib::group_to_multiset_ensures;

    let p = |v: i64| v <= x;
    let q = |v: i64| v > x;
    if n == 0 {
        model::take_all(s);
        model::filter_empty(p);
        model::filter_empty(q);
        assert(s.take(0).filter(p) + s.take(0).filter(q) =~= s.take(0));
    } else {
        split_by(s, x, n - 1);
        model::take_step(s, n - 1);
        model::filter_push(s.take(n - 1), s[n - 1], p);
        model::filter_push(s.take(n - 1), s[n - 1], q);
        let low = s.take(n - 1).filter(p);
        let high = s.take(n - 1).filter(q);
        if n >= 2 {
            assert(s[n - 2] <= s[n - 1]);
        }
        if s[n - 1] <= x {
            assert(high.len() == 0) by {
                if high.len() > 0 {
                    assert(high[0] > x);
                    assert(high[0] <= s[n - 2]);
                }
            }
            assert(low.push(s[n - 1]) + high =~= (low + high).push(s[n - 1]));
        } else {
            assert(low + high.push(s[n - 1]) =~= (low + high).push(s[n - 1]));
        }
    }
}

/// The time now, by the system clock.
pub fn now_ms() -> u64 {
    crypto::unix_now_ms()
}

fn place_number(s: &Vec<i64>, x: i64) -> (r: Vec<i64>)
    ensures
        r@ == with_number(s@, x),
{
    let ghost p = |v: i64| v <= x;
    let ghost q = |v: i64| v > x;
    let mut low: Vec<i64> = Vec::new();
    let mut high: Vec<i64> = Vec::new();
    let mut i: usize = 0;
    proof {
        model::take_all(s@);
        model::filter_empty(p);
        model::filter_empty(q);
    }
    while i < s.len()
        invariant
            i <= s.len(),
            p == (|v: i64| v <= x),
            q == (|v: i64| v > x),
            low@ == s@.take(i as int).filter(p),
            high@ == s@.take(i as int).filter(q),
        decreases s.len() - i,
    {
        proof {
            model::take_step(s@, i as int);
            model::filter_push(s@.take(i as int), s@[i as int], p);
            model::filter_push(s@.take(i as int), s@[i as int], q);
        }
        if s[i] <= x {
            low.push(s[i]);
        } else {
            high.push(s[i]);
        }
        i = i + 1;
    }
    proof {
        model::take_all(s@);
    }
    let ghost l = low@;
    low.push(x);
    assert(low@ =~= l + seq![x]);
    low.append(&mut high);
    low
}

fn median_i64(values: &Vec<i64>) -> (r: Option<i64>)
    ensures
        r == median(values@),
{
    if values.len() == 0 {
        return None;
    }
    let mut ordered: Vec<i64> = Vec::new();
    let mut i: usize = 0;
    proof {
        model::take_all(values@);
    }
    while i < values.len()
        invariant
            i <= values.len(),
            ordered@ == ascending(values@.take(i as int)),
        decreases values.len() - i,
    {
        proof {
            assert(values@.take(i + 1).drop_last() =~= values@.take(i as int));
        }
        ordered = place_number(&ordered, values[i]);
        i = i + 1;
    }
    proof {
        model::take_all(values@);
        ascending_sorts(values@);
    }
    Some(ordered[values.len() / 2])
}

fn later(a: Option<u64>, b: Option<u64>) -> (r: bool)
    ensures
        r == later_time(a, b),
{
    match (a, b) {
        (Some(x), Some(y)) => x > y,
        (Some(_), None) => true,
        _ => false,
    }
}

fn latest_of(a: Option<u64>, b: Option<u64>) -> (r: Option<u64>)
    ensures
        r == latest(a, b),
{
    if later(a, b) {
        a
    } else {
        b
    }
}

fn owned_text(t: &Option<String>, otherwise: Option<String>) -> (r: Option<String>)
    ensures
        r.deep_view() == if t.deep_view() is Some {
            t.deep_view()
        } else {
            otherwise.deep_view()
        },
{
    match t {
        Some(x) => Some(x.clone()),
        None => otherwise,
    }
}

impl PeerInfo {
    pub fn new(address: String, direction: PeerDirection) -> (r: Self)
        ensures
            r.deep_view() == new_peer(address@, direction),
    {
        PeerInfo {
            address,
            direction,
            messages_sent: 0,
            messages_received: 0,
            last_known_height: None,
            last_known_tip_hash: None,
            last_clock_offset_ms: None,
            last_clock_offset_accepted: None,
            last_clock_observed_ms: None,
            last_error: None,
            last_contact_ms: None,
            last_success_ms: None,
            last_error_ms: None,
            misbehavior_score: 0,
            banned_until_ms: None,
            ban_reason: None,
        }
    }

    pub fn is_banned_at(&self, now_ms: u64) -> (r: bool)
        ensures
            r == self.deep_view().banned_at(now_ms),
    {
        match self.banned_until_ms {
            Some(until) => until > now_ms,
            None => false,
        }
    }

    fn clear_misbehavior(&mut self)
        ensures
            final(self).deep_view() == old(self).deep_view().forgiven(),
    {
        self.misbehavior_score = 0;
        self.banned_until_ms = None;
        self.ban_reason = None;
    }

    fn succeed(&mut self, now_ms: u64)
        ensures
            final(self).deep_view() == old(self).deep_view().contacted(now_ms),
    {
        self.last_contact_ms = Some(now_ms);
        self.last_success_ms = Some(now_ms);
        if !self.is_banned_at(now_ms) {
            self.last_error = None;
            self.clear_misbehavior();
        }
    }

    fn fail(&mut self, error: String, now_ms: u64)
        ensures
            final(self).deep_view() == old(self).deep_view().failed(error@, now_ms),
    {
        self.last_contact_ms = Some(now_ms);
        self.last_error_ms = Some(now_ms);
        self.last_error = Some(error);
    }

    fn seen_lately(&self, now_ms: u64) -> (r: bool)
        ensures
            r == self.deep_view().seen_lately(now_ms),
    {
        match self.last_clock_observed_ms {
            Some(seen) => now_ms.saturating_sub(seen) <= PEER_CLOCK_OFFSET_STALE_MS,
            None => false,
        }
    }

    fn clock_accepted(&self) -> (r: Option<bool>)
        ensures
            r == self.deep_view().last_clock_offset_accepted,
    {
        self.last_clock_offset_accepted
    }

    fn clock_counts(&self, now_ms: u64) -> (r: bool)
        ensures
            r == self.deep_view().clock_counts(now_ms),
    {
        let accepted = match self.clock_accepted() {
            Some(accepted) => accepted,
            None => false,
        };
        !self.is_banned_at(now_ms) && self.last_error.is_none() && accepted && self.seen_lately(now_ms)
            && self.last_clock_offset_ms.is_some()
    }

    fn clock_is_bad(&self, now_ms: u64) -> (r: bool)
        ensures
            r == self.deep_view().clock_is_bad(now_ms),
    {
        let refused = match self.clock_accepted() {
            Some(accepted) => !accepted,
            None => false,
        };
        !self.is_banned_at(now_ms) && self.seen_lately(now_ms) && refused
    }

    fn merge(self, from: PeerInfo) -> (r: PeerInfo)
        ensures
            r.deep_view() == self.deep_view().merged(from.deep_view()),
    {
        let clock_from = later(from.last_clock_observed_ms, self.last_clock_observed_ms);
        PeerInfo {
            address: self.address,
            direction: match from.direction {
                PeerDirection::Outbound => PeerDirection::Outbound,
                PeerDirection::Inbound => self.direction,
            },
            messages_sent: self.messages_sent.saturating_add(from.messages_sent),
            messages_received: self.messages_received.saturating_add(from.messages_received),
            last_known_height: if self.last_known_height.is_some() {
                self.last_known_height
            } else {
                from.last_known_height
            },
            last_known_tip_hash: owned_text(&self.last_known_tip_hash, from.last_known_tip_hash),
            last_clock_offset_ms: if clock_from {
                from.last_clock_offset_ms
            } else {
                self.last_clock_offset_ms
            },
            last_clock_offset_accepted: if clock_from {
                from.last_clock_offset_accepted
            } else {
                self.last_clock_offset_accepted
            },
            last_clock_observed_ms: if clock_from {
                from.last_clock_observed_ms
            } else {
                self.last_clock_observed_ms
            },
            last_error: owned_text(&self.last_error, from.last_error),
            last_contact_ms: latest_of(self.last_contact_ms, from.last_contact_ms),
            last_success_ms: latest_of(self.last_success_ms, from.last_success_ms),
            last_error_ms: latest_of(self.last_error_ms, from.last_error_ms),
            misbehavior_score: self.misbehavior_score.saturating_add(from.misbehavior_score),
            banned_until_ms: latest_of(self.banned_until_ms, from.banned_until_ms),
            ban_reason: owned_text(&self.ban_reason, from.ban_reason),
        }
    }
}

/// The peers that a node knows, by address.
#[derive(Clone, Debug)]
pub struct PeerBook {
    pub peers: SortedMap<String, PeerInfo>,
}

impl DeepView for PeerBook {
    type V = PeersView;

    open spec fn deep_view(&self) -> PeersView {
        self.peers.deep_view()
    }
}

impl Default for PeerBook {
    fn default() -> (r: Self)
        ensures
            r.wf(),
            r.deep_view() == Seq::<(Seq<char>, PeerInfoView)>::empty(),
    {
        Self::new()
    }
}

impl PeerBook {
    pub open spec fn wf(&self) -> bool {
        self.peers.wf()
    }

    pub fn new() -> (r: Self)
        ensures
            r.wf(),
            r.deep_view() == Seq::<(Seq<char>, PeerInfoView)>::empty(),
    {
        PeerBook { peers: SortedMap::new() }
    }

    pub fn from_addresses(addresses: Vec<String>) -> (r: Self)
        ensures
            r.wf(),
            r.deep_view() == all_added(Seq::<(Seq<char>, PeerInfoView)>::empty(), addresses.deep_view()),
    {
        let ghost v = addresses.deep_view();
        let ghost none = Seq::<(Seq<char>, PeerInfoView)>::empty();
        let mut book = Self::new();
        let mut i: usize = 0;
        proof {
            model::take_all(v);
        }
        while i < addresses.len()
            invariant
                i <= addresses.len(),
                v == addresses.deep_view(),
                none == Seq::<(Seq<char>, PeerInfoView)>::empty(),
                book.wf(),
                book.deep_view() == all_added(none, v.take(i as int)),
            decreases addresses.len() - i,
        {
            proof {
                assert(v.take(i + 1).drop_last() =~= v.take(i as int));
            }
            book.add_peer(addresses[i].as_str());
            i = i + 1;
        }
        proof {
            model::take_all(v);
        }
        book
    }

    fn peer(&self, address: &str, direction: PeerDirection) -> (r: PeerInfo)
        requires
            self.wf(),
        ensures
            r.deep_view() == peer_at(self.deep_view(), address@, direction),
    {
        let key = text::text(address);
        match self.peers.get(&key) {
            Some(peer) => peer.duplicate(),
            None => PeerInfo::new(key, direction),
        }
    }

    fn put(&mut self, address: &str, peer: PeerInfo)
        requires
            old(self).wf(),
        ensures
            final(self).wf(),
            final(self).deep_view() == with_peer(old(self).deep_view(), address@, peer.deep_view()),
    {
        self.peers.insert(text::text(address), peer);
    }

    fn knows(&self, address: &str) -> (r: bool)
        requires
            self.wf(),
        ensures
            r == (sorted::lookup(self.deep_view(), address@) is Some),
    {
        let key = text::text(address);
        self.peers.contains_key(&key)
    }

    /// Adds a peer that this node connects to.
    pub fn add_peer(&mut self, address: &str)
        requires
            old(self).wf(),
        ensures
            final(self).wf(),
            final(self).deep_view() == added(old(self).deep_view(), address@),
    {
        let mut peer = self.peer(address, PeerDirection::Outbound);
        peer.direction = PeerDirection::Outbound;
        self.put(address, peer);
    }

    /// Adds a peer that connected to this node, if it is new.
    pub fn observe_inbound_peer(&mut self, address: &str)
        requires
            old(self).wf(),
        ensures
            final(self).wf(),
            final(self).deep_view() == if sorted::lookup(old(self).deep_view(), address@) is Some {
                old(self).deep_view()
            } else {
                with_peer(old(self).deep_view(), address@, new_peer(address@, PeerDirection::Inbound))
            },
    {
        if !self.knows(address) {
            self.put(address, PeerInfo::new(text::text(address), PeerDirection::Inbound));
        }
    }

    /// Moves a peer to the address that it is reachable at.
    pub fn replace_peer_address(&mut self, from: &str, to: &str)
        requires
            old(self).wf(),
        ensures
            final(self).wf(),
            final(self).deep_view() == replaced(old(self).deep_view(), from@, to@),
    {
        if text::text_eq(from, to) {
            if !self.knows(from) {
                self.add_peer(to);
            }
            return;
        }
        let key = text::text(from);
        if !self.peers.contains_key(&key) {
            self.add_peer(to);
            return;
        }
        if let Some(peer) = self.peers.remove(&key) {
            let there = self.peer(to, peer.direction);
            let merged = there.merge(peer);
            self.put(to, merged);
        }
    }

    /// Removes a peer that this node connects to, and says whether there was one.
    pub fn remove_peer(&mut self, address: &str) -> (r: bool)
        requires
            old(self).wf(),
        ensures
            final(self).wf(),
            r == (sorted::lookup(old(self).deep_view(), address@) matches Some(peer) && peer.direction
                != PeerDirection::Inbound),
            final(self).deep_view() == if r {
                sorted::without(old(self).deep_view(), address@)
            } else {
                old(self).deep_view()
            },
    {
        if self.is_configured_outbound(address) {
            let key = text::text(address);
            let _ = self.peers.remove(&key);
            true
        } else {
            false
        }
    }

    pub fn is_configured_outbound(&self, address: &str) -> (r: bool)
        requires
            self.wf(),
        ensures
            r == (sorted::lookup(self.deep_view(), address@) matches Some(peer) && peer.direction
                != PeerDirection::Inbound),
    {
        let key = text::text(address);
        match self.peers.get(&key) {
            Some(peer) => match peer.direction {
                PeerDirection::Inbound => false,
                PeerDirection::Outbound => true,
            },
            None => false,
        }
    }

    /// The addresses of the peers that this node connects to.
    pub fn addresses(&self) -> (r: Vec<String>)
        ensures
            r.deep_view() == addresses_of(self.deep_view().filter(is_outbound())),
    {
        broadcast use model::group_views;

        let ghost v = self.deep_view();
        let ghost p = is_outbound();
        let mut out: Vec<String> = Vec::new();
        let mut i: usize = 0;
        proof {
            model::take_all(v);
            model::filter_empty(p);
            assert(out.deep_view() =~= addresses_of(v.take(0).filter(p)));
        }
        while i < self.peers.len()
            invariant
                i <= v.len(),
                v == self.deep_view(),
                p == is_outbound(),
                out.deep_view() == addresses_of(v.take(i as int).filter(p)),
            decreases v.len() - i,
        {
            let ghost before = out.deep_view();
            proof {
                model::take_step(v, i as int);
                model::filter_push(v.take(i as int), v[i as int], p);
            }
            let entry = self.peers.at(i);
            let outbound = match entry.1.direction {
                PeerDirection::Inbound => false,
                PeerDirection::Outbound => true,
            };
            if outbound {
                out.push(entry.1.address.clone());
                assert(out.deep_view() == before.push(v[i as int].1.address));
                assert(out.deep_view() =~= addresses_of(v.take(i + 1).filter(p)));
            }
            i = i + 1;
        }
        proof {
            model::take_all(v);
        }
        out
    }

    /// The addresses of the peers that this node may connect to at a time.
    pub fn connectable_addresses_at(&self, now_ms: u64) -> (r: Vec<String>)
        ensures
            r.deep_view() == addresses_of(self.deep_view().filter(is_connectable(now_ms))),
    {
        broadcast use model::group_views;

        let ghost v = self.deep_view();
        let ghost p = is_connectable(now_ms);
        let mut out: Vec<String> = Vec::new();
        let mut i: usize = 0;
        proof {
            model::take_all(v);
            model::filter_empty(p);
            assert(out.deep_view() =~= addresses_of(v.take(0).filter(p)));
        }
        while i < self.peers.len()
            invariant
                i <= v.len(),
                v == self.deep_view(),
                p == is_connectable(now_ms),
                out.deep_view() == addresses_of(v.take(i as int).filter(p)),
            decreases v.len() - i,
        {
            let ghost before = out.deep_view();
            proof {
                model::take_step(v, i as int);
                model::filter_push(v.take(i as int), v[i as int], p);
            }
            let entry = self.peers.at(i);
            let outbound = match entry.1.direction {
                PeerDirection::Inbound => false,
                PeerDirection::Outbound => true,
            };
            if outbound && !entry.1.is_banned_at(now_ms) {
                out.push(entry.1.address.clone());
                assert(out.deep_view() == before.push(v[i as int].1.address));
                assert(out.deep_view() =~= addresses_of(v.take(i + 1).filter(p)));
            }
            i = i + 1;
        }
        proof {
            model::take_all(v);
        }
        out
    }

    /// The addresses that this node may connect to at a time, but for one.
    pub fn addresses_except_at(&self, excluded: &str, now_ms: u64) -> (r: Vec<String>)
        ensures
            r.deep_view() == addresses_of(self.deep_view().filter(is_connectable(now_ms))).filter(
                |a: Seq<char>| a != excluded@,
            ),
    {
        broadcast use model::group_views;

        let all = self.connectable_addresses_at(now_ms);
        let ghost v = all.deep_view();
        let ghost p = |a: Seq<char>| a != excluded@;
        let mut out: Vec<String> = Vec::new();
        let mut i: usize = 0;
        proof {
            model::take_all(v);
            model::filter_empty(p);
        }
        while i < all.len()
            invariant
                i <= all.len(),
                v == all.deep_view(),
                p == (|a: Seq<char>| a != excluded@),
                out.deep_view() == v.take(i as int).filter(p),
            decreases all.len() - i,
        {
            proof {
                model::take_step(v, i as int);
                model::filter_push(v.take(i as int), v[i as int], p);
            }
            if !text::text_eq(all[i].as_str(), excluded) {
                out.push(all[i].clone());
            }
            i = i + 1;
        }
        proof {
            model::take_all(v);
        }
        out
    }

    /// The addresses that this node may connect to now, but for one.
    pub fn addresses_except(&self, excluded: &str) -> (r: Vec<String>)
        ensures
            exists|now_ms: u64|
                r.deep_view() == addresses_of(#[trigger] self.deep_view().filter(is_connectable(now_ms))).filter(
                    |a: Seq<char>| a != excluded@,
                ),
    {
        let now: u64 = now_ms();
        self.addresses_except_at(excluded, now)
    }

    /// What is known of the peers, by address.
    pub fn list(&self) -> (r: Vec<PeerInfo>)
        ensures
            r.deep_view() == Seq::new(self.deep_view().len(), |i: int| self.deep_view()[i].1),
    {
        let ghost v = self.deep_view();
        let mut out: Vec<PeerInfo> = Vec::new();
        let mut i: usize = 0;
        while i < self.peers.len()
            invariant
                i <= v.len(),
                v == self.deep_view(),
                out@.len() == i,
                forall|j: int| 0 <= j < i ==> (#[trigger] out@[j]).deep_view() == v[j].1,
            decreases v.len() - i,
        {
            out.push(self.peers.at(i).1.duplicate());
            i = i + 1;
        }
        assert(out.deep_view() =~= Seq::new(v.len(), |i: int| v[i].1));
        out
    }

    /// Records messages that were sent, at a time.
    pub fn record_sent_at(&mut self, address: &str, count: u64, now_ms: u64)
        requires
            old(self).wf(),
            peer_at(old(self).deep_view(), address@, PeerDirection::Outbound).messages_sent + count <= u64::MAX,
        ensures
            final(self).wf(),
            final(self).deep_view() == sent(old(self).deep_view(), address@, count, now_ms),
    {
        let mut peer = self.peer(address, PeerDirection::Outbound);
        peer.messages_sent = peer.messages_sent + count;
        peer.succeed(now_ms);
        self.put(address, peer);
    }

    /// Records messages that were sent.
    pub fn record_sent(&mut self, address: &str, count: u64)
        requires
            old(self).wf(),
            peer_at(old(self).deep_view(), address@, PeerDirection::Outbound).messages_sent + count <= u64::MAX,
        ensures
            final(self).wf(),
            exists|now_ms: u64|
                final(self).deep_view() == #[trigger] sent(old(self).deep_view(), address@, count, now_ms),
    {
        let now: u64 = now_ms();
        self.record_sent_at(address, count, now)
    }

    /// Records the height and tip that a peer tells, at a time.
    pub fn record_status_at(&mut self, address: &str, height: u64, tip_hash: String, now_ms: u64)
        requires
            old(self).wf(),
        ensures
            final(self).wf(),
            final(self).deep_view() == told(old(self).deep_view(), address@, height, tip_hash@, now_ms),
    {
        let mut peer = self.peer(address, PeerDirection::Outbound);
        peer.last_known_height = Some(height);
        peer.last_known_tip_hash = Some(tip_hash);
        peer.succeed(now_ms);
        self.put(address, peer);
    }

    /// Records the height and tip that a peer tells.
    pub fn record_status(&mut self, address: &str, height: u64, tip_hash: String)
        requires
            old(self).wf(),
        ensures
            final(self).wf(),
            exists|now_ms: u64|
                final(self).deep_view() == #[trigger] told(
                    old(self).deep_view(),
                    address@,
                    height,
                    tip_hash@,
                    now_ms,
                ),
    {
        let now: u64 = now_ms();
        self.record_status_at(address, height, tip_hash, now)
    }

    /// Records what the clock of a peer showed; a clock that shows nothing is passed over.
    pub fn record_clock_observation(
        &mut self,
        address: &str,
        direction: PeerDirection,
        remote_time_ms: u64,
        local_receive_time_ms: u64,
    )
        requires
            old(self).wf(),
            remote_time_ms == 0 || remote_time_ms - local_receive_time_ms > i64::MIN,
        ensures
            final(self).wf(),
            final(self).deep_view() == if remote_time_ms == 0 {
                old(self).deep_view()
            } else {
                with_peer(
                    old(self).deep_view(),
                    address@,
                    peer_at(old(self).deep_view(), address@, direction).observed(
                        clock_offset(remote_time_ms, local_receive_time_ms),
                        local_receive_time_ms,
                    ),
                )
            },
    {
        if remote_time_ms == 0 {
            return;
        }
        let difference: i128 = remote_time_ms as i128 - local_receive_time_ms as i128;
        let offset: i64 = if difference > i64::MAX as i128 {
            i64::MAX
        } else {
            difference as i64
        };
        let accepted = -PEER_CLOCK_OFFSET_ACCEPTANCE_MS <= offset && offset <= PEER_CLOCK_OFFSET_ACCEPTANCE_MS;
        let mut peer = self.peer(address, direction);
        peer.last_clock_offset_ms = Some(offset);
        peer.last_clock_offset_accepted = Some(accepted);
        peer.last_clock_observed_ms = Some(local_receive_time_ms);
        self.put(address, peer);
    }

    /// The median offset of the clocks that count, if any does.
    pub fn network_time_offset_ms_at(&self, now_ms: u64) -> (r: Option<i64>)
        ensures
            r == median(offsets(self.deep_view(), now_ms)),
    {
        let ghost v = self.deep_view();
        let ghost p = counts(now_ms);
        let mut values: Vec<i64> = Vec::new();
        let mut i: usize = 0;
        proof {
            model::take_all(v);
            model::filter_empty(p);
            assert(values@ =~= offsets(v.take(0), now_ms));
        }
        while i < self.peers.len()
            invariant
                i <= v.len(),
                v == self.deep_view(),
                p == counts(now_ms),
                values@ == offsets(v.take(i as int), now_ms),
            decreases v.len() - i,
        {
            proof {
                model::take_step(v, i as int);
                model::filter_push(v.take(i as int), v[i as int], p);
            }
            let entry = self.peers.at(i);
            assert(entry.1.deep_view() == v[i as int].1);
            if entry.1.clock_counts(now_ms) {
                if let Some(offset) = entry.1.last_clock_offset_ms {
                    values.push(offset);
                    assert(values@ =~= offsets(v.take(i + 1), now_ms));
                }
            }
            i = i + 1;
        }
        proof {
            model::take_all(v);
        }
        median_i64(&values)
    }

    /// A time of the system clock, moved by what the peers' clocks show.
    pub fn adjusted_time_ms_at(&self, now_ms: u64) -> (r: u64)
        ensures
            r == moved(now_ms, median(offsets(self.deep_view(), now_ms))),
    {
        match self.network_time_offset_ms_at(now_ms) {
            None => now_ms,
            Some(offset) => {
                let sum: i128 = now_ms as i128 + offset as i128;
                if sum > u64::MAX as i128 {
                    u64::MAX
                } else if sum < 0 {
                    0
                } else {
                    sum as u64
                }
            },
        }
    }

    /// How many peers have a clock that is wrong.
    pub fn bad_clock_peer_count_at(&self, now_ms: u64) -> (r: usize)
        ensures
            r == self.deep_view().filter(has_bad_clock(now_ms)).len(),
    {
        let ghost v = self.deep_view();
        let ghost p = has_bad_clock(now_ms);
        let mut count: usize = 0;
        let mut i: usize = 0;
        proof {
            model::take_all(v);
            model::filter_empty(p);
        }
        while i < self.peers.len()
            invariant
                i <= v.len(),
                count <= i,
                v == self.deep_view(),
                p == has_bad_clock(now_ms),
                count == v.take(i as int).filter(p).len(),
            decreases v.len() - i,
        {
            proof {
                model::take_step(v, i as int);
                model::filter_push(v.take(i as int), v[i as int], p);
            }
            let entry = self.peers.at(i);
            if entry.1.clock_is_bad(now_ms) {
                count = count + 1;
            }
            i = i + 1;
        }
        proof {
            model::take_all(v);
        }
        count
    }

    fn record_failure_at(&mut self, address: &str, direction: PeerDirection, error: &str, now_ms: u64)
        requires
            old(self).wf(),
        ensures
            final(self).wf(),
            final(self).deep_view() == erred(old(self).deep_view(), address@, direction, error@, now_ms),
    {
        let mut peer = self.peer(address, direction);
        peer.fail(text::text(error), now_ms);
        self.put(address, peer);
    }

    /// Records an error with a peer that this node connects to.
    pub fn record_error(&mut self, address: &str, error: &str)
        requires
            old(self).wf(),
        ensures
            final(self).wf(),
            exists|now_ms: u64|
                final(self).deep_view() == #[trigger] erred(
                    old(self).deep_view(),
                    address@,
                    PeerDirection::Outbound,
                    error@,
                    now_ms,
                ),
    {
        let now: u64 = now_ms();
        self.record_failure_at(address, PeerDirection::Outbound, error, now)
    }

    /// Records an error with a peer that connected to this node.
    pub fn record_inbound_error(&mut self, address: &str, error: &str)
        requires
            old(self).wf(),
        ensures
            final(self).wf(),
            exists|now_ms: u64|
                final(self).deep_view() == #[trigger] erred(
                    old(self).deep_view(),
                    address@,
                    PeerDirection::Inbound,
                    error@,
                    now_ms,
                ),
    {
        let now: u64 = now_ms();
        self.record_failure_at(address, PeerDirection::Inbound, error, now)
    }

    /// Records messages that were received, at a time.
    pub fn record_received_at(&mut self, address: &str, count: u64, now_ms: u64)
        requires
            old(self).wf(),
            peer_at(old(self).deep_view(), address@, PeerDirection::Inbound).messages_received + count <= u64::MAX,
        ensures
            final(self).wf(),
            final(self).deep_view() == received(old(self).deep_view(), address@, count, now_ms),
    {
        let mut peer = self.peer(address, PeerDirection::Inbound);
        peer.messages_received = peer.messages_received + count;
        peer.succeed(now_ms);
        self.put(address, peer);
    }

    /// Records messages that were received.
    pub fn record_received(&mut self, address: &str, count: u64)
        requires
            old(self).wf(),
            peer_at(old(self).deep_view(), address@, PeerDirection::Inbound).messages_received + count <= u64::MAX,
        ensures
            final(self).wf(),
            exists|now_ms: u64|
                final(self).deep_view() == #[trigger] received(old(self).deep_view(), address@, count, now_ms),
    {
        let now: u64 = now_ms();
        self.record_received_at(address, count, now)
    }

    /// Records that a peer misbehaved.
    pub fn record_misbehavior(&mut self, address: &str, reason: &str)
        requires
            old(self).wf(),
        ensures
            final(self).wf(),
            exists|now_ms: u64|
                final(self).deep_view() == #[trigger] blamed(
                    old(self).deep_view(),
                    address@,
                    PeerDirection::Outbound,
                    reason@,
                    now_ms,
                ),
    {
        let now: u64 = now_ms();
        self.record_misbehavior_at(address, reason, now)
    }

    /// Records that a peer misbehaved, at a time.
    pub fn record_misbehavior_at(&mut self, address: &str, reason: &str, now_ms: u64)
        requires
            old(self).wf(),
        ensures
            final(self).wf(),
            final(self).deep_view() == blamed(
                old(self).deep_view(),
                address@,
                PeerDirection::Outbound,
                reason@,
                now_ms,
            ),
    {
        self.record_misbehavior_with_direction(address, reason, now_ms, PeerDirection::Outbound)
    }

    /// Records that a peer misbehaved that connected to this node.
    pub fn record_inbound_misbehavior(&mut self, address: &str, reason: &str)
        requires
            old(self).wf(),
        ensures
            final(self).wf(),
            exists|now_ms: u64|
                final(self).deep_view() == #[trigger] blamed(
                    old(self).deep_view(),
                    address@,
                    PeerDirection::Inbound,
                    reason@,
                    now_ms,
                ),
    {
        let now: u64 = now_ms();
        self.record_misbehavior_with_direction(address, reason, now, PeerDirection::Inbound)
    }

    fn record_misbehavior_with_direction(&mut self, address: &str, reason: &str, now_ms: u64, direction: PeerDirection)
        requires
            old(self).wf(),
        ensures
            final(self).wf(),
            final(self).deep_view() == blamed(old(self).deep_view(), address@, direction, reason@, now_ms),
    {
        let mut peer = self.peer(address, direction);
        peer.fail(text::text(reason), now_ms);
        peer.misbehavior_score = peer.misbehavior_score.saturating_add(1);
        peer.ban_reason = Some(text::text(reason));
        if peer.misbehavior_score >= PEER_MISBEHAVIOR_BAN_SCORE {
            peer.banned_until_ms = Some(now_ms.saturating_add(PEER_MISBEHAVIOR_BAN_MS));
        }
        self.put(address, peer);
    }

    /// Whether a peer is banned now.
    pub fn is_banned(&self, address: &str) -> (r: bool)
        requires
            self.wf(),
        ensures
            exists|now_ms: u64| r == #[trigger] is_banned_in(self.deep_view(), address@, now_ms),
    {
        let now: u64 = now_ms();
        self.is_banned_at(address, now)
    }

    /// Whether a peer is banned at a time.
    pub fn is_banned_at(&self, address: &str, now_ms: u64) -> (r: bool)
        requires
            self.wf(),
        ensures
            r == is_banned_in(self.deep_view(), address@, now_ms),
    {
        let key = text::text(address);
        match self.peers.get(&key) {
            Some(peer) => peer.is_banned_at(now_ms),
            None => false,
        }
    }
}

/// Whether a peer is banned at a time.
pub open spec fn is_banned_in(p: PeersView, address: Seq<char>, now_ms: u64) -> bool {
    sorted::lookup(p, address) matches Some(peer) && peer.banned_at(now_ms)
}

/// The peers after messages were sent to one.
pub open spec fn sent(p: PeersView, address: Seq<char>, count: u64, now_ms: u64) -> PeersView {
    let peer = peer_at(p, address, PeerDirection::Outbound);
    with_peer(
        p,
        address,
        PeerInfoView { messages_sent: (peer.messages_sent + count) as u64, ..peer }.contacted(now_ms),
    )
}

/// The peers after messages came from one.
pub open spec fn received(p: PeersView, address: Seq<char>, count: u64, now_ms: u64) -> PeersView {
    let peer = peer_at(p, address, PeerDirection::Inbound);
    with_peer(
        p,
        address,
        PeerInfoView { messages_received: (peer.messages_received + count) as u64, ..peer }.contacted(now_ms),
    )
}

/// The peers after one told its height and tip.
pub open spec fn told(p: PeersView, address: Seq<char>, height: u64, tip_hash: Seq<char>, now_ms: u64) -> PeersView {
    with_peer(
        p,
        address,
        PeerInfoView {
            last_known_height: Some(height),
            last_known_tip_hash: Some(tip_hash),
            ..peer_at(p, address, PeerDirection::Outbound)
        }.contacted(now_ms),
    )
}

/// The peers after an error with one.
pub open spec fn erred(p: PeersView, address: Seq<char>, direction: PeerDirection, error: Seq<char>, now_ms: u64) -> PeersView {
    with_peer(p, address, peer_at(p, address, direction).failed(error, now_ms))
}

/// The peers after one misbehaved.
pub open spec fn blamed(p: PeersView, address: Seq<char>, direction: PeerDirection, reason: Seq<char>, now_ms: u64) -> PeersView {
    with_peer(p, address, peer_at(p, address, direction).misbehaved(reason, now_ms))
}

/// Misbehaving often enough bans a peer, for a while; other peers stay as they were.
pub proof fn misbehavior_bans(
    p: PeersView,
    address: Seq<char>,
    direction: PeerDirection,
    reason: Seq<char>,
    now_ms: u64,
    other: Seq<char>,
)
    requires
        sorted::increasing::<String, PeerInfoView>(p),
        now_ms < u64::MAX,
    ensures
        peer_at(p, address, direction).misbehavior_score + 1 >= PEER_MISBEHAVIOR_BAN_SCORE ==> is_banned_in(
            blamed(p, address, direction, reason, now_ms),
            address,
            now_ms,
        ),
        other != address ==> is_banned_in(blamed(p, address, direction, reason, now_ms), other, now_ms)
            == is_banned_in(p, other, now_ms),
{
    let peer = peer_at(p, address, direction).misbehaved(reason, now_ms);
    sorted::read_after_write::<String, PeerInfoView>(p, address, peer, address);
    sorted::read_after_write::<String, PeerInfoView>(p, address, peer, other);
}

/// A good contact ends no ban before its time, and clears the score of a peer that is not banned.
pub proof fn contact_clears_only_the_unbanned(peer: PeerInfoView, now_ms: u64)
    ensures
        peer.banned_at(now_ms) ==> peer.contacted(now_ms).banned_until_ms == peer.banned_until_ms
            && peer.contacted(now_ms).misbehavior_score == peer.misbehavior_score,
        !peer.banned_at(now_ms) ==> peer.contacted(now_ms).misbehavior_score == 0 && peer.contacted(
            now_ms,
        ).banned_until_ms is None,
{
}

/// A peer that is banned at a time is not among those that may be connected to.
pub proof fn banned_peers_are_not_connectable(p: PeersView, address: Seq<char>, now_ms: u64, n: int)
    requires
        0 <= n < p.filter(is_connectable(now_ms)).len(),
    ensures
        !p.filter(is_connectable(now_ms))[n].1.banned_at(now_ms),
{
    broadcast use vstd::seq_lib::group_filter_ensures;

    let s = p.filter(is_connectable(now_ms));
    assert(s.contains(s[n]));
    assert(is_connectable(now_ms)(s[n]));
}

/// The median of numbers is the middle one once they are in order, of two the upper; there is none of
/// no numbers.
pub proof fn median_is_the_middle_one(values: Seq<i64>, sorted_values: Seq<i64>)
    requires
        sorted_values.to_multiset() == values.to_multiset(),
        forall|i: int, k: int|
            0 <= i < k < sorted_values.len() ==> (#[trigger] sorted_values[i]) <= (#[trigger] sorted_values[k]),
    ensures
        values.len() == 0 ==> median(values) is None,
        values.len() > 0 ==> median(values) == Some(sorted_values[(values.len() / 2) as int]),
{
    broadcast use vstd::seq_lib::group_to_multiset_ensures;

    ascending_sorts(values);
    let r = ascending(values);
    if values.len() > 0 {
        let least = |a: i64, b: i64| a <= b;
        assert(vstd::relations::sorted_by(r, least));
        assert(vstd::relations::sorted_by(sorted_values, least));
        vstd::seq_lib::lemma_sorted_unique(r, sorted_values, least);
    }
}

/// A clock is moved by exactly the offset, as long as the time stays a time.
pub proof fn clock_is_moved_by_the_offset(now_ms: u64, offset: i64)
    ensures
        0 <= now_ms + offset <= 18_446_744_073_709_551_615 ==> moved(now_ms, Some(offset)) == now_ms + offset,
        now_ms + offset < 0 ==> moved(now_ms, Some(offset)) == 0,
        now_ms + offset > 18_446_744_073_709_551_615 ==> moved(now_ms, Some(offset)) == 18_446_744_073_709_551_615,
        moved(now_ms, None) == now_ms,
{
}

/// Each misbehavior counts once. The third and each later one bans a peer for ten minutes from then;
/// the first two leave its ban as it was.
pub proof fn third_misbehavior_bans_for_ten_minutes(peer: PeerInfoView, reason: Seq<char>, now_ms: u64)
    requires
        peer.misbehavior_score < 4_294_967_295,
        now_ms + 600_000 <= 18_446_744_073_709_551_615,
    ensures
        peer.misbehaved(reason, now_ms).misbehavior_score == peer.misbehavior_score + 1,
        peer.misbehavior_score >= 2 ==> peer.misbehaved(reason, now_ms).banned_until_ms == Some((now_ms + 600_000) as u64),
        peer.misbehavior_score < 2 ==> peer.misbehaved(reason, now_ms).banned_until_ms == peer.banned_until_ms,
        peer.misbehaved(reason, now_ms).ban_reason == Some(reason),
        peer.misbehaved(reason, now_ms).address == peer.address,
{
}

} // verus!
