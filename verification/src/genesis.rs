//! The first block of a chain and the outputs it leaves.
use crate::block::{Block, BlockView, FinalizerMode};
use crate::blinded::{BlindedTransaction, BlindedTransactionView, RevealBundle, RevealBundleView};
use crate::block;
use crate::crypto;
use crate::error;
use crate::error::Error;
use crate::hex;
use crate::model;
use crate::model::Model;
use crate::rewards;
use crate::sorted;
use crate::sorted::SortedMap;
use crate::text;
use crate::transaction;
use crate::transaction::{
    Amount, OutPoint, OutPointView, Transaction, TransactionView, TxInput, TxInputView, TxOutput,
    TxOutputView, BLOCK_REWARD,
};
use crate::utxo;
use crate::utxo::{Utxos, UtxosView};
use crate::validate;
use vstd::prelude::*;
use vstd::string::*;
use vstd::utf8::*;

verus! {

/// Who holds how much at the start, in the order of the addresses.
pub type Allocations = SortedMap<String, u64>;

pub type AllocationsView = Seq<(Seq<char>, u64)>;

/// A burn at the start of a chain.
#[derive(Clone, Debug, Eq, PartialEq)]
pub struct GenesisBurn {
    pub from: String,
    pub amount: Amount,
}

impl DeepView for GenesisBurn {
    type V = (Seq<char>, Amount);

    open spec fn deep_view(&self) -> (Seq<char>, Amount) {
        (self.from@, self.amount)
    }
}

impl GenesisBurn {
    pub fn new(from: &str, amount: Amount) -> (r: Self)
        ensures
            r.deep_view() == (from@, amount),
    {
        GenesisBurn { from: text::text(from), amount }
    }
}

/// Every allocation is at an address; or the first that is not.
pub open spec fn allocations_check(a: AllocationsView) -> Result<(), Seq<char>>
    decreases a.len(),
{
    if a.len() == 0 {
        Ok(())
    } else {
        match allocations_check(a.drop_last()) {
            Err(e) => Err(e),
            Ok(_) => validate::address_check(a.last().0, "genesis allocation"@),
        }
    }
}

proof fn allocations_check_stops(a: AllocationsView, n: int)
    requires
        0 <= n <= a.len(),
        allocations_check(a.take(n)) is Err,
    ensures
        allocations_check(a) == allocations_check(a.take(n)),
    decreases a.len(),
{
    if n < a.len() {
        assert(a.drop_last().take(n) =~= a.take(n));
        allocations_check_stops(a.drop_last(), n);
    } else {
        model::take_all(a);
    }
}

pub fn validate_genesis_allocations(allocations: &Allocations) -> (r: Result<(), Error>)
    ensures
        error::outcome(r) == allocations_check(allocations.deep_view()),
{
    let ghost a = allocations.deep_view();
    let mut i: usize = 0;
    proof {
        model::take_all(a);
    }
    while i < allocations.len()
        invariant
            i <= a.len(),
            a == allocations.deep_view(),
            allocations_check(a.take(i as int)) is Ok,
        decreases a.len() - i,
    {
        proof {
            assert(a.take(i + 1).drop_last() =~= a.take(i as int));
            if allocations_check(a.take(i + 1)) is Err {
                allocations_check_stops(a, i + 1);
            }
        }
        validate::validate_address(allocations.at(i).0.as_str(), "genesis allocation")?;
        i = i + 1;
    }
    proof {
        model::take_all(a);
    }
    Ok(())
}

/// The entries between braces, with the addresses quoted.
pub open spec fn entries_text(a: AllocationsView) -> Seq<char>
    decreases a.len(),
{
    if a.len() == 0 {
        "{"@
    } else {
        let head = entries_text(a.drop_last());
        (if a.len() > 1 {
            head + ", "@
        } else {
            head
        }) + "\""@ + a.last().0 + "\": "@ + text::decimal(a.last().1 as nat)
    }
}

pub open spec fn allocations_text(a: AllocationsView) -> Seq<char> {
    entries_text(a) + "}"@
}

fn canonical_allocations(allocations: &Allocations) -> (r: String)
    ensures
        r@ == allocations_text(allocations.deep_view()),
{
    let ghost a = allocations.deep_view();
    let mut t = text::text("{");
    let mut i: usize = 0;
    proof {
        model::take_all(a);
    }
    while i < allocations.len()
        invariant
            i <= a.len(),
            a == allocations.deep_view(),
            t@ == entries_text(a.take(i as int)),
        decreases a.len() - i,
    {
        proof {
            assert(a.take(i + 1).drop_last() =~= a.take(i as int));
        }
        if i > 0 {
            t.append(", ");
        }
        t.append("\"");
        t.append(allocations.at(i).0.as_str());
        t.append("\": ");
        text::push_decimal(&mut t, allocations.at(i).1 as u128);
        i = i + 1;
    }
    proof {
        model::take_all(a);
    }
    t.append("}");
    t
}

/// The owner of a genesis burn.
pub open spec fn burn_owner(t: TransactionView) -> Option<Seq<char>> {
    match t {
        TransactionView::Burn { inputs, .. } => if inputs.len() > 0 {
            Some(inputs[0].owner)
        } else {
            None
        },
        _ => None,
    }
}

/// The first burner with an allocation.
pub open spec fn first_burner(a: AllocationsView, transactions: Seq<TransactionView>) -> Option<Seq<char>>
    decreases transactions.len(),
{
    if transactions.len() == 0 {
        None
    } else {
        match first_burner(a, transactions.drop_last()) {
            Some(owner) => Some(owner),
            None => match burn_owner(transactions.last()) {
                Some(owner) => if sorted::lookup(a, owner) is Some {
                    Some(owner)
                } else {
                    None
                },
                None => None,
            },
        }
    }
}

proof fn first_burner_found(a: AllocationsView, transactions: Seq<TransactionView>, n: int)
    requires
        0 <= n <= transactions.len(),
        first_burner(a, transactions.take(n)) is Some,
    ensures
        first_burner(a, transactions) == first_burner(a, transactions.take(n)),
    decreases transactions.len(),
{
    if n < transactions.len() {
        assert(transactions.drop_last().take(n) =~= transactions.take(n));
        first_burner_found(a, transactions.drop_last(), n);
    } else {
        model::take_all(transactions);
    }
}

/// Who finalizes the first block: the first burner, or the first address, or nobody.
pub open spec fn miner_of(a: AllocationsView, transactions: Seq<TransactionView>) -> Seq<char> {
    match first_burner(a, transactions) {
        Some(owner) => owner,
        None => if a.len() > 0 {
            a[0].0
        } else {
            "genesis"@
        },
    }
}

fn genesis_miner(allocations: &Allocations, transactions: &Vec<Transaction>) -> (r: String)
    requires
        allocations.wf(),
    ensures
        r@ == miner_of(allocations.deep_view(), transactions.deep_view()),
{
    let ghost a = allocations.deep_view();
    let ghost v = transactions.deep_view();
    let mut i: usize = 0;
    proof {
        model::take_all(v);
    }
    while i < transactions.len()
        invariant
            i <= transactions.len(),
            allocations.wf(),
            a == allocations.deep_view(),
            v == transactions.deep_view(),
            first_burner(a, v.take(i as int)) is None,
        decreases transactions.len() - i,
    {
        proof {
            assert(v.take(i + 1).drop_last() =~= v.take(i as int));
            if first_burner(a, v.take(i + 1)) is Some {
                first_burner_found(a, v, i + 1);
            }
        }
        if let Transaction::Burn { inputs, .. } = &transactions[i] {
            if inputs.len() > 0 && allocations.contains_key(&inputs[0].owner) {
                return inputs[0].owner.clone();
            }
        }
        i = i + 1;
    }
    proof {
        model::take_all(v);
    }
    if allocations.len() > 0 {
        allocations.at(0).0.clone()
    } else {
        text::text("genesis")
    }
}

/// The reward of the first block: there where somebody burned.
pub open spec fn first_reward(a: AllocationsView, transactions: Seq<TransactionView>) -> Amount {
    if a.len() == 0 || transactions.len() == 0 {
        0
    } else {
        BLOCK_REWARD
    }
}

/// The first block without its hash.
pub open spec fn unsealed_genesis(a: AllocationsView, transactions: Seq<TransactionView>) -> BlockView {
    BlockView {
        height: 0,
        prev_hash: text::repeated('0', 64),
        timestamp_ms: 0,
        miner: miner_of(a, transactions),
        finalizer_mode: FinalizerMode::Ticket,
        finalizer_rank: 0,
        reward: first_reward(a, transactions),
        vdf_rounds: 0,
        vdf_output: crypto::hash_of(
            "iuna-genesis-vdf:"@ + allocations_text(a) + ":"@ + block::transactions_text(transactions),
        ),
        leader_proof: None,
        blinded_transactions: Seq::<BlindedTransactionView>::empty(),
        reveal_bundles: Seq::<RevealBundleView>::empty(),
        transactions,
        hash: Seq::<char>::empty(),
    }
}

/// The first block.
pub open spec fn genesis_block(a: AllocationsView, transactions: Seq<TransactionView>) -> BlockView {
    let b = unsealed_genesis(a, transactions);
    BlockView { hash: b.computed_hash(), ..b }
}

/// The first block of a chain.
pub fn build_genesis_block(allocations: &Allocations, transactions: Vec<Transaction>) -> (r: Block)
    requires
        allocations.wf(),
    ensures
        r.deep_view() == genesis_block(allocations.deep_view(), transactions.deep_view()),
{
    let miner = genesis_miner(allocations, &transactions);
    let reward: u64 = if allocations.len() == 0 || transactions.len() == 0 {
        0
    } else {
        BLOCK_REWARD
    };
    let txs = block::canonical_transactions(&transactions);
    let mut t = text::text("iuna-genesis-vdf:");
    t.append(canonical_allocations(allocations).as_str());
    t.append(":");
    t.append(txs.as_str());
    let vdf_output = crypto::hash_text(t.as_str());
    proof {
        reveal_strlit("0");
    }
    let prev_hash = text::repeat("0", 64);
    let blinded_transactions: Vec<BlindedTransaction> = Vec::new();
    let reveal_bundles: Vec<RevealBundle> = Vec::new();
    assert(blinded_transactions.deep_view() =~= Seq::<BlindedTransactionView>::empty());
    assert(reveal_bundles.deep_view() =~= Seq::<RevealBundleView>::empty());
    let genesis = Block {
        height: 0,
        prev_hash,
        timestamp_ms: 0,
        miner,
        finalizer_mode: FinalizerMode::Ticket,
        finalizer_rank: 0,
        reward,
        vdf_rounds: 0,
        vdf_output,
        leader_proof: None,
        blinded_transactions,
        reveal_bundles,
        transactions,
        hash: String::new(),
    };
    assert(genesis.deep_view() == unsealed_genesis(allocations.deep_view(), transactions.deep_view()));
    genesis.sealed()
}

/// The outputs of the allocations.
pub open spec fn allocation_utxos(a: AllocationsView) -> UtxosView
    decreases a.len(),
{
    if a.len() == 0 {
        Seq::<(OutPointView, TxOutputView)>::empty()
    } else {
        let u = allocation_utxos(a.drop_last());
        if a.last().1 > 0 {
            sorted::with::<OutPoint, TxOutputView>(
                u,
                transaction::allocation_outpoint(a.last().0),
                TxOutputView { address: a.last().0, amount: a.last().1 },
            )
        } else {
            u
        }
    }
}

fn genesis_allocation_utxos(allocations: &Allocations) -> (r: Utxos)
    ensures
        r.wf(),
        r.deep_view() == allocation_utxos(allocations.deep_view()),
{
    let ghost a = allocations.deep_view();
    let mut utxos: Utxos = SortedMap::new();
    let mut i: usize = 0;
    proof {
        model::take_all(a);
    }
    while i < allocations.len()
        invariant
            i <= a.len(),
            a == allocations.deep_view(),
            utxos.wf(),
            utxos.deep_view() == allocation_utxos(a.take(i as int)),
        decreases a.len() - i,
    {
        proof {
            assert(a.take(i + 1).drop_last() =~= a.take(i as int));
        }
        let entry = allocations.at(i);
        if entry.1 > 0 {
            utxos.insert(
                transaction::genesis_allocation_outpoint(entry.0.as_str()),
                TxOutput { address: entry.0.clone(), amount: entry.1 },
            );
        }
        i = i + 1;
    }
    proof {
        model::take_all(a);
    }
    utxos
}

/// The recipients of outputs are addresses; or the first that is none.
pub open spec fn outputs_check(outputs: Seq<TxOutputView>) -> Result<(), Seq<char>>
    decreases outputs.len(),
{
    if outputs.len() == 0 {
        Ok(())
    } else {
        match outputs_check(outputs.drop_last()) {
            Err(e) => Err(e),
            Ok(_) => validate::address_check(outputs.last().address, "output recipient"@),
        }
    }
}

proof fn outputs_check_stops(outputs: Seq<TxOutputView>, n: int)
    requires
        0 <= n <= outputs.len(),
        outputs_check(outputs.take(n)) is Err,
    ensures
        outputs_check(outputs) == outputs_check(outputs.take(n)),
    decreases outputs.len(),
{
    if n < outputs.len() {
        assert(outputs.drop_last().take(n) =~= outputs.take(n));
        outputs_check_stops(outputs.drop_last(), n);
    } else {
        model::take_all(outputs);
    }
}

pub fn validate_transaction_outputs(outputs: &Vec<TxOutput>) -> (r: Result<(), Error>)
    ensures
        error::outcome(r) == outputs_check(outputs.deep_view()),
{
    let ghost v = outputs.deep_view();
    let mut i: usize = 0;
    proof {
        model::take_all(v);
    }
    while i < outputs.len()
        invariant
            i <= outputs.len(),
            v == outputs.deep_view(),
            outputs_check(v.take(i as int)) is Ok,
        decreases outputs.len() - i,
    {
        proof {
            assert(v.take(i + 1).drop_last() =~= v.take(i as int));
            if outputs_check(v.take(i + 1)) is Err {
                outputs_check_stops(v, i + 1);
            }
        }
        validate::validate_address(outputs[i].address.as_str(), "output recipient")?;
        i = i + 1;
    }
    proof {
        model::take_all(v);
    }
    Ok(())
}

/// The inputs of a genesis burn; or why the first bad one is refused.
pub open spec fn genesis_inputs_check(inputs: Seq<TxInputView>) -> Result<(), Seq<char>>
    decreases inputs.len(),
{
    if inputs.len() == 0 {
        Ok(())
    } else {
        match genesis_inputs_check(inputs.drop_last()) {
            Err(e) => Err(e),
            Ok(_) => match validate::hash_check(
                inputs.last().outpoint.txid,
                "genesis burn input outpoint txid"@,
            ) {
                Err(e) => Err(e),
                Ok(_) => match validate::address_check(inputs.last().owner, "genesis burn input owner"@) {
                    Err(e) => Err(e),
                    Ok(_) => if inputs.last().signature != "genesis"@ {
                        Err("genesis burn input signature is invalid"@)
                    } else {
                        Ok(())
                    },
                },
            },
        }
    }
}

proof fn genesis_inputs_check_stops(inputs: Seq<TxInputView>, n: int)
    requires
        0 <= n <= inputs.len(),
        genesis_inputs_check(inputs.take(n)) is Err,
    ensures
        genesis_inputs_check(inputs) == genesis_inputs_check(inputs.take(n)),
    decreases inputs.len(),
{
    if n < inputs.len() {
        assert(inputs.drop_last().take(n) =~= inputs.take(n));
        genesis_inputs_check_stops(inputs.drop_last(), n);
    } else {
        model::take_all(inputs);
    }
}

fn validate_genesis_inputs(inputs: &Vec<TxInput>) -> (r: Result<(), Error>)
    ensures
        error::outcome(r) == genesis_inputs_check(inputs.deep_view()),
{
    let ghost v = inputs.deep_view();
    let mut i: usize = 0;
    proof {
        model::take_all(v);
    }
    while i < inputs.len()
        invariant
            i <= inputs.len(),
            v == inputs.deep_view(),
            genesis_inputs_check(v.take(i as int)) is Ok,
        decreases inputs.len() - i,
    {
        proof {
            assert(v.take(i + 1).drop_last() =~= v.take(i as int));
            if genesis_inputs_check(v.take(i + 1)) is Err {
                genesis_inputs_check_stops(v, i + 1);
            }
        }
        validate::validate_hash(inputs[i].outpoint.txid.as_str(), "genesis burn input outpoint txid")?;
        validate::validate_address(inputs[i].owner.as_str(), "genesis burn input owner")?;
        if !text::text_eq(inputs[i].signature.as_str(), "genesis") {
            return Err(Error::new("genesis burn input signature is invalid"));
        }
        i = i + 1;
    }
    proof {
        model::take_all(v);
    }
    Ok(())
}

/// The form of a genesis burn.
pub open spec fn genesis_burn_check(t: TransactionView) -> Result<(), Seq<char>> {
    match t {
        TransactionView::Burn { inputs, change, fee, signature, .. } => if fee != 0 {
            Err("genesis burn fee must be zero"@)
        } else {
            match validate::hash_check(signature, "genesis burn signature"@) {
                Err(e) => Err(e),
                Ok(_) => match outputs_check(change) {
                    Err(e) => Err(e),
                    Ok(_) => genesis_inputs_check(inputs),
                },
            }
        },
        _ => Err("genesis only supports burn transactions"@),
    }
}

pub fn validate_genesis_burn_transaction(transaction: &Transaction) -> (r: Result<(), Error>)
    ensures
        error::outcome(r) == genesis_burn_check(transaction.deep_view()),
{
    match transaction {
        Transaction::Burn { inputs, change, fee, signature, .. } => {
            if *fee != 0 {
                return Err(Error::new("genesis burn fee must be zero"));
            }
            validate::validate_hash(signature.as_str(), "genesis burn signature")?;
            validate_transaction_outputs(change)?;
            validate_genesis_inputs(inputs)
        },
        _ => Err(Error::new("genesis only supports burn transactions")),
    }
}

/// The outputs after the burns of the first block.
pub open spec fn after_genesis_burns(u: UtxosView, transactions: Seq<TransactionView>) -> Result<UtxosView, Seq<char>>
    decreases transactions.len(),
{
    if transactions.len() == 0 {
        Ok(u)
    } else {
        match after_genesis_burns(u, transactions.drop_last()) {
            Err(e) => Err(e),
            Ok(v) => match genesis_burn_check(transactions.last()) {
                Err(e) => Err(e),
                Ok(_) => match utxo::applied(transactions.last(), v).1 {
                    Err(e) => Err(e),
                    Ok(_) => Ok(utxo::applied(transactions.last(), v).0),
                },
            },
        }
    }
}

proof fn after_genesis_burns_stops(u: UtxosView, transactions: Seq<TransactionView>, n: int)
    requires
        0 <= n <= transactions.len(),
        after_genesis_burns(u, transactions.take(n)) is Err,
    ensures
        after_genesis_burns(u, transactions) == after_genesis_burns(u, transactions.take(n)),
    decreases transactions.len(),
{
    if n < transactions.len() {
        assert(transactions.drop_last().take(n) =~= transactions.take(n));
        after_genesis_burns_stops(u, transactions.drop_last(), n);
    } else {
        model::take_all(transactions);
    }
}

/// The outputs that the first block leaves.
pub open spec fn genesis_utxos(a: AllocationsView, genesis: BlockView) -> Result<UtxosView, Seq<char>> {
    match after_genesis_burns(allocation_utxos(a), genesis.transactions) {
        Err(e) => Err(e),
        Ok(u) => rewards::with_reward(u, genesis),
    }
}

/// The outputs that the first block leaves.
pub fn utxos_after_genesis(allocations: &Allocations, genesis: &Block) -> (r: Result<Utxos, Error>)
    ensures
        error::outcome(r) == genesis_utxos(allocations.deep_view(), genesis.deep_view()),
        r matches Ok(u) ==> u.wf(),
{
    let mut utxos = genesis_allocation_utxos(allocations);
    let ghost u = utxos.deep_view();
    let ghost v = genesis.transactions.deep_view();
    let mut i: usize = 0;
    proof {
        model::take_all(v);
    }
    while i < genesis.transactions.len()
        invariant
            i <= genesis.transactions.len(),
            u == allocation_utxos(allocations.deep_view()),
            v == genesis.transactions.deep_view(),
            utxos.wf(),
            after_genesis_burns(u, v.take(i as int)) == Ok::<UtxosView, Seq<char>>(utxos.deep_view()),
        decreases genesis.transactions.len() - i,
    {
        proof {
            assert(v.take(i + 1).drop_last() =~= v.take(i as int));
            if after_genesis_burns(u, v.take(i + 1)) is Err {
                after_genesis_burns_stops(u, v, i + 1);
            }
        }
        validate_genesis_burn_transaction(&genesis.transactions[i])?;
        utxo::apply_transaction(&genesis.transactions[i], &mut utxos)?;
        i = i + 1;
    }
    proof {
        model::take_all(v);
    }
    rewards::credit_reward_output(&mut utxos, genesis)?;
    Ok(utxos)
}

/// The form of a first block.
pub open spec fn genesis_block_check(b: BlockView) -> Result<(), Seq<char>> {
    if b.height != 0 {
        Err("genesis block height must be 0"@)
    } else if b.prev_hash != text::repeated('0', 64) {
        Err("genesis block prev_hash must be all zeroes"@)
    } else if b.timestamp_ms != 0 {
        Err("genesis block timestamp must be 0"@)
    } else if b.miner == "genesis"@ && b.reward != 0 {
        Err("genesis placeholder miner must not receive a reward"@)
    } else if b.miner != "genesis"@ && b.reward != 0 && b.reward != BLOCK_REWARD {
        Err("genesis block reward is invalid"@)
    } else if b.vdf_rounds != 0 {
        Err("genesis block VDF rounds must be 0"@)
    } else if b.leader_proof is Some {
        Err("genesis block must not carry a leader proof"@)
    } else if b.blinded_transactions.len() > 0 || b.reveal_bundles.len() > 0 {
        Err("genesis block must not carry blinded transactions"@)
    } else if b.computed_hash() != b.hash {
        Err("genesis block hash is invalid"@)
    } else {
        Ok(())
    }
}

proof fn allocated_address_is_checked(a: AllocationsView, n: int)
    requires
        allocations_check(a) is Ok,
        0 <= n < a.len(),
    ensures
        hex::exact_bytes_of(a[n].0, 32) is Ok,
    decreases a.len(),
{
    if n < a.len() - 1 {
        allocated_address_is_checked(a.drop_last(), n);
    }
}

proof fn first_burner_is_allocated(a: AllocationsView, transactions: Seq<TransactionView>)
    ensures
        first_burner(a, transactions) matches Some(owner) ==> sorted::lookup(a, owner) is Some,
    decreases transactions.len(),
{
    if transactions.len() > 0 {
        first_burner_is_allocated(a, transactions.drop_last());
    }
}

/// The first block that is made of checked allocations passes the check on first blocks: who is
/// rewarded has an address.
pub proof fn first_block_passes(a: AllocationsView, transactions: Seq<TransactionView>)
    requires
        allocations_check(a) is Ok,
    ensures
        genesis_block_check(genesis_block(a, transactions)) is Ok,
{
    let b = unsealed_genesis(a, transactions);
    block::hash_ignores_hash(b, b.computed_hash());
    if a.len() > 0 {
        let miner = miner_of(a, transactions);
        first_burner_is_allocated(a, transactions);
        if first_burner(a, transactions) is Some {
            let n = sorted::lookup_entry(a, miner);
            allocated_address_is_checked(a, n);
        } else {
            allocated_address_is_checked(a, 0);
        }
        reveal_strlit("genesis");
        assert(is_ascii_chars("genesis"@));
        is_ascii_chars_encode_utf8("genesis"@);
        assert(encode_utf8("genesis"@).len() == 7);
        assert(hex::bytes_of("genesis"@) is Err);
    }
}

pub fn validate_genesis_block(block: &Block) -> (r: Result<(), Error>)
    ensures
        error::outcome(r) == genesis_block_check(block.deep_view()),
{
    if block.height != 0 {
        return Err(Error::new("genesis block height must be 0"));
    }
    proof {
        reveal_strlit("0");
    }
    let zeros = text::repeat("0", 64);
    if !block.prev_hash.same(&zeros) {
        return Err(Error::new("genesis block prev_hash must be all zeroes"));
    }
    if block.timestamp_ms != 0 {
        return Err(Error::new("genesis block timestamp must be 0"));
    }
    let placeholder = text::text_eq(block.miner.as_str(), "genesis");
    if placeholder && block.reward != 0 {
        return Err(Error::new("genesis placeholder miner must not receive a reward"));
    }
    if !placeholder && block.reward != 0 && block.reward != BLOCK_REWARD {
        return Err(Error::new("genesis block reward is invalid"));
    }
    if block.vdf_rounds != 0 {
        return Err(Error::new("genesis block VDF rounds must be 0"));
    }
    if block.leader_proof.is_some() {
        return Err(Error::new("genesis block must not carry a leader proof"));
    }
    if block.blinded_transactions.len() > 0 || block.reveal_bundles.len() > 0 {
        return Err(Error::new("genesis block must not carry blinded transactions"));
    }
    if !block.compute_hash().same(&block.hash) {
        return Err(Error::new("genesis block hash is invalid"));
    }
    Ok(())
}

/// The allocation of an address, none meaning zero.
pub open spec fn allocated(a: AllocationsView, address: Seq<char>) -> nat {
    match sorted::lookup(a, address) {
        Some(amount) => amount as nat,
        None => 0,
    }
}

/// No address gets more than its allocation.
proof fn allocations_are_balances(a: AllocationsView, address: Seq<char>)
    requires
        sorted::increasing::<String, u64>(a),
    ensures
        sorted::increasing::<OutPoint, TxOutputView>(allocation_utxos(a)),
        utxo::balance(allocation_utxos(a), address) <= allocated(a, address),
    decreases a.len(),
{
    if a.len() > 0 {
        let d = a.drop_last();
        assert(sorted::increasing::<String, u64>(d)) by {
            assert forall|i: int, j: int| 0 <= i < j < d.len() implies <String as sorted::Ordered>::before(
                #[trigger] d[i].0,
                #[trigger] d[j].0,
            ) by {
                assert(<String as sorted::Ordered>::before(a[i].0, a[j].0));
            }
        }
        allocations_are_balances(d, address);
        let u = allocation_utxos(d);
        let k = transaction::allocation_outpoint(a.last().0);
        let v = TxOutputView { address: a.last().0, amount: a.last().1 };
        utxo::effect_of_adding(u, k, v, address);
        sorted::with_increasing::<OutPoint, TxOutputView>(u, k, v);
        if address == a.last().0 {
            assert forall|i: int| 0 <= i < d.len() implies (#[trigger] d[i]).0 != address by {
                sorted::distinct_keys::<String, u64>(a, i, a.len() - 1);
            }
            sorted::lookup_absent(d, address);
        }
    }
}

proof fn genesis_burns_keep_balances_fitting(u: UtxosView, transactions: Seq<TransactionView>)
    requires
        sorted::increasing::<OutPoint, TxOutputView>(u),
        utxo::balances_fit(u),
        after_genesis_burns(u, transactions) is Ok,
    ensures
        sorted::increasing::<OutPoint, TxOutputView>(after_genesis_burns(u, transactions)->Ok_0),
        utxo::balances_fit(after_genesis_burns(u, transactions)->Ok_0),
    decreases transactions.len(),
{
    if transactions.len() > 0 {
        let d = transactions.drop_last();
        genesis_burns_keep_balances_fitting(u, d);
        utxo::applying_keeps_balances_fitting(transactions.last(), after_genesis_burns(u, d)->Ok_0);
    }
}

/// A chain starts with balances that are amounts.
pub proof fn genesis_balances_fit(a: AllocationsView, genesis: BlockView)
    requires
        sorted::increasing::<String, u64>(a),
        genesis_utxos(a, genesis) is Ok,
    ensures
        sorted::increasing::<OutPoint, TxOutputView>(genesis_utxos(a, genesis)->Ok_0),
        utxo::balances_fit(genesis_utxos(a, genesis)->Ok_0),
{
    let u = allocation_utxos(a);
    allocations_are_balances(a, Seq::<char>::empty());
    assert forall|address: Seq<char>| #[trigger] utxo::balance(u, address) <= u64::MAX by {
        allocations_are_balances(a, address);
    }
    genesis_burns_keep_balances_fitting(u, genesis.transactions);
    rewards::reward_keeps_balances_fitting(after_genesis_burns(u, genesis.transactions)->Ok_0, genesis);
}

} // verus!
