//! One turn of each of the loops that keep a node running.
use crate::automatic::AutoMinePlan;
use crate::forks::ChainSnapshot;
use crate::gossip::{GossipEnvelope, GossipView};
use crate::model;
use crate::node::{NodeCore, NodeView};
use crate::text;
use crate::transaction::Transaction;
use vstd::prelude::*;
use vstd::string::*;

verus! {

/// What a turn of the finalizer gives: the plan, for the block above a height, and the messages to
/// send.
#[derive(Debug)]
pub struct FinalizationTurn {
    pub height: u64,
    pub plan: AutoMinePlan,
    pub outbox: Vec<GossipEnvelope>,
}

/// What a turn of the search for proofs of work gives.
#[derive(Debug)]
pub struct PowMiningTurn {
    pub height: u64,
    pub mined: Option<Transaction>,
    pub outbox: Vec<GossipEnvelope>,
}

/// Why the finalizer last had nothing to do, so that it says so once.
#[derive(Clone, Debug, Eq, PartialEq)]
pub struct SkipNotice {
    pub last: Option<(u64, String)>,
}

impl NodeView {
    /// The node with nothing left to send.
    pub open spec fn drained(self) -> NodeView {
        NodeView { outbox: Seq::<GossipView>::empty(), ..self }
    }

    /// The node after a turn of the search for proofs of work, before its messages are sent.
    pub open spec fn pow_turned(self) -> NodeView {
        match self.pow_ticked() {
            (m, Ok(_)) => m,
            (m, Err(e)) => NodeView { last_auto_pow_mine_status: Some("automatic PoW mining failed: "@ + e), ..m },
        }
    }
}

/// How long to wait with a block whose delay was served, and the time that it then bears: it is not
/// given out before its slot.
pub open spec fn publication(publish_at_ms: u64, completed_at_ms: u64) -> (u64, u64) {
    if completed_at_ms < publish_at_ms {
        ((publish_at_ms - completed_at_ms) as u64, publish_at_ms)
    } else {
        (0, completed_at_ms)
    }
}

/// How long to wait with a block whose delay was served, and the time that it then bears.
pub fn publication_time(publish_at_ms: u64, completed_at_ms: u64) -> (r: (u64, u64))
    ensures
        r == publication(publish_at_ms, completed_at_ms),
{
    if completed_at_ms < publish_at_ms {
        (publish_at_ms - completed_at_ms, publish_at_ms)
    } else {
        (0, completed_at_ms)
    }
}

/// A block bears no time before its slot, and none that is still to come once the wait is over.
pub proof fn slot_is_kept(publish_at_ms: u64, completed_at_ms: u64)
    ensures
        publication(publish_at_ms, completed_at_ms).1 >= publish_at_ms,
        completed_at_ms + publication(publish_at_ms, completed_at_ms).0 == publication(
            publish_at_ms,
            completed_at_ms,
        ).1,
{
}

impl SkipNotice {
    pub fn new() -> (r: Self)
        ensures
            r.last is None,
    {
        SkipNotice { last: None }
    }

    /// Notes that nothing was done at a height, and says whether that is news.
    pub fn note(&mut self, height: u64, reason: &str) -> (news: bool)
        ensures
            news == (old(self).last.deep_view() != Some((height, reason@))),
            final(self).last.deep_view() == Some((height, reason@)),
    {
        let news = match &self.last {
            Some(last) => last.0 != height || !text::text_eq(last.1.as_str(), reason),
            None => true,
        };
        self.last = Some((height, text::text(reason)));
        news
    }

    /// Notes that something was done.
    pub fn clear(&mut self)
        ensures
            final(self).last is None,
    {
        self.last = None;
    }
}

impl NodeCore {
    /// A turn of the finalizer, at a time; nothing before there is a chain.
    pub fn finalization_turn(&mut self, now_ms: u64) -> (r: Option<FinalizationTurn>)
        requires
            old(self).wf(),
            old(self).deep_view().ledger.tip().timestamp_ms < u64::MAX || now_ms < u64::MAX,
        ensures
            final(self).wf(),
            match r {
                None => !old(self).deep_view().has_real_chain() && final(self).deep_view() == old(self).deep_view(),
                Some(turn) => {
                    &&& old(self).deep_view().has_real_chain()
                    &&& turn.height == old(self).deep_view().ledger.height()
                    &&& exists|planned: NodeView|
                        #[trigger] old(self).deep_view().finalization_gives(now_ms, planned, turn.plan.deep_view())
                            && turn.outbox.deep_view() == planned.outbox && final(self).deep_view()
                            == planned.drained()
                },
            },
    {
        if !self.has_real_chain() {
            return None;
        }
        let height: u64 = self.chain_height();
        let plan = self.prepare_automatic_finalization(now_ms);
        let ghost planned = self.deep_view();
        let outbox = self.drain_outbox();
        assert(old(self).deep_view().finalization_gives(now_ms, planned, plan.deep_view()));
        Some(FinalizationTurn { height, plan, outbox })
    }

    /// A turn of the search for proofs of work; nothing before there is a chain.
    pub fn pow_mining_turn(&mut self) -> (r: Option<PowMiningTurn>)
        requires
            old(self).wf(),
        ensures
            final(self).wf(),
            match r {
                None => !old(self).deep_view().has_real_chain() && final(self).deep_view() == old(self).deep_view(),
                Some(turn) => {
                    let n = old(self).deep_view();
                    &&& n.has_real_chain()
                    &&& turn.height == n.ledger.height()
                    &&& turn.mined.deep_view() == match n.pow_ticked().1 {
                        Ok(mined) => mined,
                        Err(_) => None,
                    }
                    &&& turn.outbox.deep_view() == n.pow_turned().outbox
                    &&& final(self).deep_view() == n.pow_turned().drained()
                },
            },
    {
        if !self.has_real_chain() {
            return None;
        }
        let height: u64 = self.chain_height();
        let mined = match self.prepare_automatic_pow_mining() {
            Ok(mined) => mined,
            Err(e) => {
                let mut message = text::text("automatic PoW mining failed: ");
                message.append(e.message());
                self.record_automatic_pow_mining_error(message);
                None
            },
        };
        let outbox = self.drain_outbox();
        Some(PowMiningTurn { height, mined, outbox })
    }

    /// What a node tells its peers from time to time: where it stands, what it has not sent yet and
    /// what waits for a block.
    pub fn sync_turn(&mut self) -> (r: Vec<GossipEnvelope>)
        requires
            old(self).wf(),
        ensures
            final(self).wf(),
            final(self).deep_view() == old(self).deep_view().drained().own_bundle_published().0,
            exists|time_ms: u64|
                r.deep_view() == seq![#[trigger] old(self).deep_view().standing(time_ms)] + old(self).deep_view().outbox
                    + final(self).deep_view().mempool_messages(),
    {
        broadcast use model::group_views;

        let status = self.peer_status();
        let ghost standing = status.deep_view();
        let mut unsent = self.drain_outbox();
        let ghost sent = unsent.deep_view();
        let mut waiting = self.mempool_gossip();
        let ghost told = waiting.deep_view();
        let mut out: Vec<GossipEnvelope> = Vec::new();
        out.push(status);
        assert(out.deep_view() =~= seq![standing]);
        out.append(&mut unsent);
        assert(out.deep_view() =~= seq![standing] + sent);
        out.append(&mut waiting);
        assert(out.deep_view() =~= seq![standing] + sent + told);
        out
    }

    /// The chain, where it is not the one whose tip was saved last.
    pub fn unsaved_chain(&self, saved_tip: Option<&str>) -> (r: Option<ChainSnapshot>)
        requires
            self.wf(),
        ensures
            match r {
                Some(snapshot) => snapshot.deep_view() == self.deep_view().ledger.snapshot(),
                None => true,
            },
            r is Some <==> self.deep_view().has_real_chain() && (saved_tip matches Some(tip) ==> tip@
                != self.deep_view().ledger.tip().hash),
    {
        if !self.has_real_chain() {
            return None;
        }
        if let Some(tip) = saved_tip {
            if text::text_eq(tip, self.ledger.tip().hash.as_str()) {
                return None;
            }
        }
        Some(self.chain_snapshot())
    }
}

} // verus!
