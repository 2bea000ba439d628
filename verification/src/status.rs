//! What a node tells its user of itself.
use crate::ledger::LedgerView;
use crate::model::Model;
use crate::node::{NodeCore, NodeView, MAX_POW_MINING_WORKERS};
use crate::proposals;
use crate::proposals::ChainStatus;
use crate::text;
use crate::transaction::{Amount, MINE_FINALIZER_FEE};
use crate::utxo;
use crate::vdf::VDF_TARGET_BLOCK_MS;
use vstd::prelude::*;

verus! {

pub const APP_VERSION: &'static str = "0.1.0";

/// The parameters that the chain was launched with.
#[derive(Clone, Debug, Eq, PartialEq)]
pub struct LaunchProfileStatus {
    pub profile_id: String,
    pub profile_hash: String,
    pub ticket_maturity_delay_heights: u64,
    pub ticket_expiry_window_heights: u64,
    pub mine_difficulty_bits: u32,
}

/// What the node does by itself.
#[derive(Clone, Debug, Eq, PartialEq)]
pub struct MiningStatus {
    pub automatic: bool,
    pub pow_mining_enabled: bool,
    pub pow_mining_workers: u8,
    pub max_pow_mining_workers: u8,
    pub burn_per_block: Amount,
    pub automatic_burn_fee: Amount,
    pub automatic_pow_mine_fee: Amount,
    pub last_auto_pow_mine_anchor: Option<String>,
    pub last_auto_pow_mine_status: Option<String>,
    pub vdf_rounds: u64,
    pub vdf_target_block_ms: u64,
    pub current_leader: Option<String>,
    pub wallet_is_current_leader: bool,
    pub last_auto_burn_height: Option<u64>,
    pub recovery_vdf_top_rank_percent: u8,
}

/// Whether miners outside the node are served.
#[derive(Clone, Debug, Eq, PartialEq)]
pub struct StratumStatus {
    pub enabled: bool,
    pub listen_addr: Option<String>,
}

#[derive(Clone, Debug, Eq, PartialEq)]
pub struct NodeStatus {
    pub app_version: String,
    pub wallet_address: String,
    pub wallet_balance: Amount,
    pub wallet_locked: bool,
    pub launch_profile: LaunchProfileStatus,
    pub mining: MiningStatus,
    pub stratum: StratumStatus,
    pub chain: ChainStatus,
}

/// What is told of the chain.
pub open spec fn tells_chain(s: ChainStatus, l: LedgerView) -> bool {
    &&& s.height == l.height()
    &&& s.tip_hash@ == l.tip().hash
    &&& s.next_leader.deep_view() == l.next_leader()
    &&& s.launch_profile_hash@ == l.launch_profile.hash()
    &&& s.mine_reward == l.mine_reward
    &&& s.current_mine_difficulty_bits == l.difficulty_at(l.height())
    &&& s.balances.wf()
    &&& s.balances.deep_view() == proposals::balances_of(utxo::outputs_of(l.utxos))
    &&& s.pending_transactions == l.pending.len() + l.pending_blinded.len() + l.pending_reveals.len()
}

/// What is told of the launch.
pub open spec fn tells_launch(s: LaunchProfileStatus, l: LedgerView) -> bool {
    &&& s.profile_id@ == l.launch_profile.profile_id
    &&& s.profile_hash@ == l.launch_profile.hash()
    &&& s.ticket_maturity_delay_heights == l.launch_profile.ticket_maturity_delay_heights
    &&& s.ticket_expiry_window_heights == l.launch_profile.ticket_expiry_window_heights
    &&& s.mine_difficulty_bits == l.launch_profile.mine_difficulty_bits
}

impl NodeView {
    /// What the search for proofs of work is said to be at.
    pub open spec fn pow_status(self) -> Option<Seq<char>> {
        if self.pow_mining_enabled && !self.has_real_chain() {
            Some("waiting for a real chain before PoW mining can start"@)
        } else {
            self.last_auto_pow_mine_status
        }
    }

    /// Whether the wallet may lead the next block; where nobody is selected, anyone may.
    pub open spec fn leads(self) -> bool {
        match self.ledger.next_leader() {
            Some(leader) => leader == self.wallet.address(),
            None => true,
        }
    }
}

/// What is told of what the node does by itself.
pub open spec fn tells_mining(s: MiningStatus, n: NodeView) -> bool {
    &&& s.automatic == n.automatic_mining_enabled
    &&& s.pow_mining_enabled == n.pow_mining_enabled
    &&& s.pow_mining_workers == n.pow_mining_workers
    &&& s.max_pow_mining_workers == MAX_POW_MINING_WORKERS
    &&& s.burn_per_block == n.burn_per_block
    &&& s.automatic_burn_fee == n.burn_fee
    &&& s.automatic_pow_mine_fee == MINE_FINALIZER_FEE
    &&& s.last_auto_pow_mine_anchor.deep_view() == n.last_auto_pow_mine_anchor
    &&& s.last_auto_pow_mine_status.deep_view() == n.pow_status()
    &&& s.vdf_rounds == n.ledger.vdf_rounds
    &&& s.vdf_target_block_ms == VDF_TARGET_BLOCK_MS
    &&& s.current_leader.deep_view() == n.ledger.next_leader()
    &&& s.wallet_is_current_leader == n.leads()
    &&& s.last_auto_burn_height == n.last_auto_burn_height
    &&& s.recovery_vdf_top_rank_percent == n.recovery_vdf_top_rank_percent
}

impl NodeCore {
    fn mining_status(&self) -> (r: MiningStatus)
        requires
            self.wf(),
        ensures
            tells_mining(r, self.deep_view()),
    {
        let current_leader = self.ledger.expected_leader_for_next_block();
        let wallet_is_current_leader = match &current_leader {
            Some(leader) => text::text_eq(leader.as_str(), self.wallet.address()),
            None => true,
        };
        let pow_status = if self.pow_mining_enabled && !self.has_real_chain() {
            Some(text::text("waiting for a real chain before PoW mining can start"))
        } else {
            self.last_auto_pow_mine_status.duplicate()
        };
        MiningStatus {
            automatic: self.automatic_mining_enabled,
            pow_mining_enabled: self.pow_mining_enabled,
            pow_mining_workers: self.pow_mining_workers,
            max_pow_mining_workers: MAX_POW_MINING_WORKERS,
            burn_per_block: self.burn_per_block,
            automatic_burn_fee: self.burn_fee,
            automatic_pow_mine_fee: MINE_FINALIZER_FEE,
            last_auto_pow_mine_anchor: self.last_auto_pow_mine_anchor.duplicate(),
            last_auto_pow_mine_status: pow_status,
            vdf_rounds: self.ledger.vdf_rounds(),
            vdf_target_block_ms: VDF_TARGET_BLOCK_MS,
            current_leader,
            wallet_is_current_leader,
            last_auto_burn_height: self.last_auto_burn_height,
            recovery_vdf_top_rank_percent: self.recovery_vdf_top_rank_percent,
        }
    }

    /// What the node tells its user of itself.
    pub fn status(&self) -> (r: NodeStatus)
        requires
            self.wf(),
        ensures
            r.app_version@ == APP_VERSION@,
            r.wallet_address@ == self.deep_view().wallet.address(),
            r.wallet_balance == self.deep_view().projected_balance(),
            r.wallet_locked == self.deep_view().wallet.is_locked(),
            tells_launch(r.launch_profile, self.deep_view().ledger),
            tells_mining(r.mining, self.deep_view()),
            !r.stratum.enabled,
            r.stratum.listen_addr is None,
            tells_chain(r.chain, self.deep_view().ledger),
    {
        let chain = self.ledger.status();
        let profile = self.ledger.launch_profile();
        NodeStatus {
            app_version: text::text(APP_VERSION),
            wallet_address: text::text(self.wallet.address()),
            wallet_balance: self.wallet_projected_balance(),
            wallet_locked: self.wallet.is_locked(),
            launch_profile: LaunchProfileStatus {
                profile_id: profile.profile_id.clone(),
                profile_hash: chain.launch_profile_hash.clone(),
                ticket_maturity_delay_heights: profile.ticket_maturity_delay_heights,
                ticket_expiry_window_heights: profile.ticket_expiry_window_heights,
                mine_difficulty_bits: profile.mine_difficulty_bits,
            },
            mining: self.mining_status(),
            stratum: StratumStatus { enabled: false, listen_addr: None },
            chain,
        }
    }
}

} // verus!
