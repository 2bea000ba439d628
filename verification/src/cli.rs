//! The command line and the start of a node.
use crate::error;
use crate::error::Error;
use crate::forks::ChainSnapshot;
use crate::genesis;
use crate::genesis::{Allocations, GenesisBurn};
use crate::ledger;
use crate::ledger::{Ledger, LedgerView};
use crate::model;
use crate::sorted;
use crate::sorted::SortedMap;
use crate::text;
use crate::transaction::{Amount, TransactionView, MICRO_IUNA};
use crate::vdf::MAX_VDF_ROUNDS;
use vstd::prelude::*;
use vstd::string::*;
use vstd::utf8::*;

verus! {

pub const GENESIS_BOOTSTRAP_BURN_AMOUNT: Amount = MICRO_IUNA;

pub const GENESIS_INITIAL_BURN_PER_BLOCK: Amount = GENESIS_BOOTSTRAP_BURN_AMOUNT;

pub const GENESIS_INITIAL_BURN_FEE: Amount = 0;

pub const VDF_MEASUREMENT_INITIAL_ROUNDS: u64 = 1_000_000;

pub const VDF_MEASUREMENT_MAX_ROUNDS: u64 = 100_000_000;

pub const VDF_MEASUREMENT_MIN_ELAPSED_NS: u128 = 150_000_000;

pub const DEFAULT_HTTP_ADDR: &'static str = "127.0.0.1:18661";

pub const DEFAULT_P2P_ADDR: &'static str = "127.0.0.1:9444";

pub const HELP_TEXT: &'static str = "iuna\n\nUsage:\niuna [options]\niuna --genesis [options]\niuna --join <addr:port> [options]\n\nOptions:\n--genesis                     Create a new chain with a fresh setup wallet\n--wallet <path>               Wallet file (default <data-dir>/wallet.json)\n--chain-db <path>             Chain SQLite database (default <data-dir>/chain.sqlite3)\n--http <addr:port>            HTTP management UI address (default 127.0.0.1:18661)\n--p2p <addr:port>             Inbound P2P listener address when public node is enabled\n--p2p-announce <addr:port>    Public P2P address to gossip; enables inbound P2P\n--stratum <addr:port>         Stratum V1 listener for SHA-256 ASIC miners\n--join <addr:port>            Fetch chain snapshot from this peer before finalization\n--data-dir <path>             Local wallet directory (default ~/.iuna)\n--debug                       Print verbose runtime logs\n\nEnvironment:\nIUNA_DEV_SKIP_SEED_VERIFY=1 Show a setup button to skip seed verification\n";

/// Where the chain of a node comes from.
#[derive(Clone, Copy, Debug, Eq, PartialEq, Structural)]
pub enum ChainMode {
    Setup,
    Genesis,
    Join,
}

/// What to do about the chain at the start.
#[derive(Clone, Copy, Debug, Eq, PartialEq, Structural)]
pub enum Startup {
    Resume,
    Setup,
    Genesis,
    Join,
}

/// What the command line asks for. Addresses and paths are kept as they were written.
#[derive(Clone, Debug, Eq, PartialEq)]
pub struct CliOptions {
    pub wallet_path: Option<String>,
    pub chain_db_path: Option<String>,
    pub http_addr: String,
    pub p2p_addr: String,
    pub p2p_announce_addr: Option<String>,
    pub stratum_addr: Option<String>,
    pub peers: Vec<String>,
    pub join_peers: Vec<String>,
    pub chain_mode: ChainMode,
    pub data_dir: String,
    pub debug: bool,
}

#[verifier::ext_equal]
pub struct OptionsView {
    pub wallet_path: Option<Seq<char>>,
    pub chain_db_path: Option<Seq<char>>,
    pub http_addr: Seq<char>,
    pub p2p_addr: Seq<char>,
    pub p2p_announce_addr: Option<Seq<char>>,
    pub stratum_addr: Option<Seq<char>>,
    pub peers: Seq<Seq<char>>,
    pub join_peers: Seq<Seq<char>>,
    pub chain_mode: ChainMode,
    pub data_dir: Seq<char>,
    pub debug: bool,
}

impl DeepView for CliOptions {
    type V = OptionsView;

    open spec fn deep_view(&self) -> OptionsView {
        OptionsView {
            wallet_path: self.wallet_path.deep_view(),
            chain_db_path: self.chain_db_path.deep_view(),
            http_addr: self.http_addr@,
            p2p_addr: self.p2p_addr@,
            p2p_announce_addr: self.p2p_announce_addr.deep_view(),
            stratum_addr: self.stratum_addr.deep_view(),
            peers: self.peers.deep_view(),
            join_peers: self.join_peers.deep_view(),
            chain_mode: self.chain_mode,
            data_dir: self.data_dir@,
            debug: self.debug,
        }
    }
}

/// What an empty command line asks for.
pub open spec fn default_options(data_dir: Seq<char>) -> OptionsView {
    OptionsView {
        wallet_path: None,
        chain_db_path: None,
        http_addr: DEFAULT_HTTP_ADDR@,
        p2p_addr: DEFAULT_P2P_ADDR@,
        p2p_announce_addr: None,
        stratum_addr: None,
        peers: Seq::<Seq<char>>::empty(),
        join_peers: Seq::<Seq<char>>::empty(),
        chain_mode: ChainMode::Setup,
        data_dir,
        debug: false,
    }
}

pub open spec fn takes_value(flag: Seq<char>) -> bool {
    flag == "--wallet"@ || flag == "--chain-db"@ || flag == "--http"@ || flag == "--p2p"@ || flag == "--p2p-announce"@
        || flag == "--stratum"@ || flag == "--join"@ || flag == "--data-dir"@
}

pub open spec fn takes_address(flag: Seq<char>) -> bool {
    flag == "--http"@ || flag == "--p2p"@ || flag == "--p2p-announce"@ || flag == "--stratum"@
}

impl OptionsView {
    /// The options with the value of a flag.
    pub open spec fn with_value(self, flag: Seq<char>, value: Seq<char>) -> OptionsView {
        if flag == "--wallet"@ {
            OptionsView { wallet_path: Some(value), ..self }
        } else if flag == "--chain-db"@ {
            OptionsView { chain_db_path: Some(value), ..self }
        } else if flag == "--http"@ {
            OptionsView { http_addr: value, ..self }
        } else if flag == "--p2p"@ {
            OptionsView { p2p_addr: value, ..self }
        } else if flag == "--p2p-announce"@ {
            OptionsView { p2p_announce_addr: Some(value), ..self }
        } else if flag == "--stratum"@ {
            OptionsView { stratum_addr: Some(value), ..self }
        } else if flag == "--join"@ {
            OptionsView {
                chain_mode: ChainMode::Join,
                peers: self.peers.push(value),
                join_peers: self.join_peers.push(value),
                ..self
            }
        } else {
            OptionsView { data_dir: value, ..self }
        }
    }

    /// What the arguments from a place on ask for; nothing where they ask for help. For each
    /// argument it is known whether it reads as a socket address.
    pub open spec fn reading(self, args: Seq<Seq<char>>, is_address: Seq<bool>, i: nat) -> Result<
        Option<OptionsView>,
        Seq<char>,
    >
        decreases args.len() - i,
    {
        if i >= args.len() {
            Ok(Some(self))
        } else {
            let flag = args[i as int];
            if flag == "--genesis"@ {
                if self.chain_mode == ChainMode::Join {
                    Err("choose either --genesis or --join, not both"@)
                } else {
                    OptionsView { chain_mode: ChainMode::Genesis, ..self }.reading(args, is_address, i + 1)
                }
            } else if flag == "--wallet-seed"@ {
                Err("--wallet-seed was removed; wallets are stored in --wallet <path> or ~/.iuna/wallet.json"@)
            } else if flag == "--debug"@ {
                OptionsView { debug: true, ..self }.reading(args, is_address, i + 1)
            } else if flag == "--help"@ || flag == "-h"@ {
                Ok(None)
            } else if !takes_value(flag) {
                Err("unknown argument "@ + flag + "; pass --help for usage"@)
            } else if flag == "--join"@ && self.chain_mode == ChainMode::Genesis {
                Err("choose either --genesis or --join, not both"@)
            } else if i + 1 >= args.len() {
                Err("missing value after "@ + flag)
            } else if takes_address(flag) && !is_address[i as int + 1] {
                Err("invalid "@ + flag + " address"@)
            } else {
                self.with_value(flag, args[i as int + 1]).reading(args, is_address, i + 2)
            }
        }
    }
}

/// A file in a directory.
pub open spec fn in_dir(dir: Seq<char>, name: Seq<char>) -> Seq<char> {
    let bytes = encode_utf8(dir);
    if bytes.len() == 0 || bytes.last() == 0x2f {
        dir + name
    } else {
        dir + "/"@ + name
    }
}

pub open spec fn or_in_dir(path: Option<Seq<char>>, dir: Seq<char>, name: Seq<char>) -> Seq<char> {
    match path {
        Some(p) => p,
        None => in_dir(dir, name),
    }
}

/// A number in decimal digits, with zeros in front.
pub open spec fn padded_decimal(n: nat, width: nat) -> Seq<char>
    decreases width,
{
    if width == 0 {
        Seq::<char>::empty()
    } else {
        padded_decimal(n / 10, (width - 1) as nat).push(text::digit_char(n % 10))
    }
}

/// The digits of a fraction without the zeros at their end.
pub open spec fn trimmed(n: nat, width: nat) -> Seq<char>
    decreases width,
{
    if width > 0 && n % 10 == 0 {
        trimmed(n / 10, (width - 1) as nat)
    } else {
        padded_decimal(n, width)
    }
}

/// An amount of micro-units in units.
pub open spec fn amount_text(amount: Amount) -> Seq<char> {
    if amount % MICRO_IUNA == 0 {
        text::decimal((amount / MICRO_IUNA) as nat)
    } else {
        text::decimal((amount / MICRO_IUNA) as nat) + "."@ + trimmed((amount % MICRO_IUNA) as nat, 6)
    }
}

/// The rounds that would take a time, where measured ones took another.
pub open spec fn extrapolated(measured_rounds: u64, elapsed_ns: u128, target_ns: u128) -> u64 {
    let product = measured_rounds * (if target_ns == 0 {
        1
    } else {
        target_ns as int
    });
    let capped = if product > u128::MAX {
        u128::MAX as int
    } else {
        product
    };
    let rounds = capped / (if elapsed_ns == 0 {
        1
    } else {
        elapsed_ns as int
    });
    if rounds < 1 {
        1
    } else if rounds > MAX_VDF_ROUNDS {
        MAX_VDF_ROUNDS
    } else {
        rounds as u64
    }
}

fn push_padded_decimal(target: &mut String, n: u64, width: u32)
    ensures
        final(target)@ == old(target)@ + padded_decimal(n as nat, width as nat),
    decreases width,
{
    if width > 0 {
        push_padded_decimal(target, n / 10, width - 1);
        let ghost before = target@;
        target.append(text::digit_text((n % 10) as u8));
        assert(target@ =~= before.push(text::digit_char((n % 10) as nat)));
    }
    assert(target@ =~= old(target)@ + padded_decimal(n as nat, width as nat));
}

/// An amount of micro-units in units.
pub fn format_iuna(amount: Amount) -> (r: String)
    ensures
        r@ == amount_text(amount),
{
    let mut out = text::decimal_text((amount / MICRO_IUNA) as u128);
    let mut fraction: u64 = amount % MICRO_IUNA;
    if fraction == 0 {
        return out;
    }
    let ghost f = fraction as nat;
    let mut width: u32 = 6;
    out.append(".");
    while width > 0 && fraction % 10 == 0
        invariant
            trimmed(f, 6) == trimmed(fraction as nat, width as nat),
        decreases width,
    {
        fraction = fraction / 10;
        width = width - 1;
    }
    push_padded_decimal(&mut out, fraction, width);
    out
}

fn path_in(dir: &str, name: &str) -> (r: String)
    ensures
        r@ == in_dir(dir@, name@),
{
    let bytes = dir.as_bytes();
    let mut out = text::text(dir);
    if bytes.len() > 0 && bytes[bytes.len() - 1] != 0x2f {
        out.append("/");
    }
    out.append(name);
    out
}

fn path_or(path: &Option<String>, dir: &str, name: &str) -> (r: String)
    ensures
        r@ == or_in_dir(path.deep_view(), dir@, name@),
{
    match path {
        Some(p) => p.clone(),
        None => path_in(dir, name),
    }
}

fn value_flag(flag: &str) -> (r: bool)
    ensures
        r == takes_value(flag@),
{
    text::text_eq(flag, "--wallet") || text::text_eq(flag, "--chain-db") || text::text_eq(flag, "--join")
        || text::text_eq(flag, "--data-dir") || address_flag(flag)
}

fn address_flag(flag: &str) -> (r: bool)
    ensures
        r == takes_address(flag@),
{
    text::text_eq(flag, "--http") || text::text_eq(flag, "--p2p") || text::text_eq(flag, "--p2p-announce")
        || text::text_eq(flag, "--stratum")
}

impl CliOptions {
    /// What an empty command line asks for.
    pub fn defaults(data_dir: &str) -> (r: Self)
        ensures
            r.deep_view() == default_options(data_dir@),
    {
        let r = CliOptions {
            wallet_path: None,
            chain_db_path: None,
            http_addr: text::text(DEFAULT_HTTP_ADDR),
            p2p_addr: text::text(DEFAULT_P2P_ADDR),
            p2p_announce_addr: None,
            stratum_addr: None,
            peers: Vec::new(),
            join_peers: Vec::new(),
            chain_mode: ChainMode::Setup,
            data_dir: text::text(data_dir),
            debug: false,
        };
        assert(r.deep_view() =~= default_options(data_dir@));
        r
    }

    fn set_value(&mut self, flag: &str, value: &str)
        ensures
            final(self).deep_view() == old(self).deep_view().with_value(flag@, value@),
    {
        broadcast use model::group_views;

        let v = text::text(value);
        if text::text_eq(flag, "--wallet") {
            self.wallet_path = Some(v);
        } else if text::text_eq(flag, "--chain-db") {
            self.chain_db_path = Some(v);
        } else if text::text_eq(flag, "--http") {
            self.http_addr = v;
        } else if text::text_eq(flag, "--p2p") {
            self.p2p_addr = v;
        } else if text::text_eq(flag, "--p2p-announce") {
            self.p2p_announce_addr = Some(v);
        } else if text::text_eq(flag, "--stratum") {
            self.stratum_addr = Some(v);
        } else if text::text_eq(flag, "--join") {
            let ghost before = self.deep_view();
            self.chain_mode = ChainMode::Join;
            self.peers.push(v.clone());
            assert(self.peers.deep_view() == before.peers.push(value@));
            self.join_peers.push(v);
            assert(self.join_peers.deep_view() == before.join_peers.push(value@));
        } else {
            self.data_dir = v;
        }
    }

    /// Reads a command line; nothing comes back where it asks for help. For each argument
    /// `is_address` says whether it reads as a socket address.
    pub fn parse_from(args: &[String], is_address: &[bool], data_dir: &str) -> (r: Result<Option<CliOptions>, Error>)
        requires
            args@.len() == is_address@.len(),
        ensures
            error::outcome(r) == default_options(data_dir@).reading(model::views(args@), is_address@, 0),
    {
        let ghost v = model::views(args@);
        let ghost goal = default_options(data_dir@).reading(v, is_address@, 0);
        let mut opts = CliOptions::defaults(data_dir);
        let mut i: usize = 0;
        while i < args.len()
            invariant
                i <= args@.len(),
                args@.len() == is_address@.len(),
                v == model::views(args@),
                goal == default_options(data_dir@).reading(v, is_address@, 0),
                goal == opts.deep_view().reading(v, is_address@, i as nat),
            decreases args@.len() - i,
        {
            assert(v[i as int] == args@[i as int]@);
            let flag = args[i].as_str();
            if text::text_eq(flag, "--genesis") {
                if opts.chain_mode == ChainMode::Join {
                    return Err(Error::new("choose either --genesis or --join, not both"));
                }
                opts.chain_mode = ChainMode::Genesis;
                i = i + 1;
            } else if text::text_eq(flag, "--wallet-seed") {
                return Err(
                    Error::new(
                        "--wallet-seed was removed; wallets are stored in --wallet <path> or ~/.iuna/wallet.json",
                    ),
                );
            } else if text::text_eq(flag, "--debug") {
                opts.debug = true;
                i = i + 1;
            } else if text::text_eq(flag, "--help") || text::text_eq(flag, "-h") {
                return Ok(None);
            } else if !value_flag(flag) {
                let mut message = text::text("unknown argument ");
                message.append(flag);
                message.append("; pass --help for usage");
                return Err(Error::of(message));
            } else if text::text_eq(flag, "--join") && opts.chain_mode == ChainMode::Genesis {
                return Err(Error::new("choose either --genesis or --join, not both"));
            } else if args.len() - i < 2 {
                let mut message = text::text("missing value after ");
                message.append(flag);
                return Err(Error::of(message));
            } else if address_flag(flag) && !is_address[i + 1] {
                let mut message = text::text("invalid ");
                message.append(flag);
                message.append(" address");
                return Err(Error::of(message));
            } else {
                assert(v[i + 1] == args@[i + 1]@);
                opts.set_value(flag, args[i + 1].as_str());
                i = i + 2;
            }
        }
        Ok(Some(opts))
    }

    pub fn wallet_path(&self) -> (r: String)
        ensures
            r@ == or_in_dir(self.deep_view().wallet_path, self.deep_view().data_dir, "wallet.json"@),
    {
        path_or(&self.wallet_path, self.data_dir.as_str(), "wallet.json")
    }

    pub fn chain_db_path(&self) -> (r: String)
        ensures
            r@ == or_in_dir(self.deep_view().chain_db_path, self.deep_view().data_dir, "chain.sqlite3"@),
    {
        path_or(&self.chain_db_path, self.data_dir.as_str(), "chain.sqlite3")
    }

    pub fn config_path(&self) -> (r: String)
        ensures
            r@ == in_dir(self.deep_view().data_dir, "config.json"@),
    {
        path_in(self.data_dir.as_str(), "config.json")
    }

    pub fn has_chain(&self) -> (r: bool)
        ensures
            r == (self.deep_view().chain_mode != ChainMode::Setup),
    {
        self.chain_mode != ChainMode::Setup
    }
}

/// The directory of a node's files, in the home directory where there is one.
pub fn default_data_dir(home: Option<&str>, profile: Option<&str>) -> (r: String)
    ensures
        r@ == match (home, profile) {
            (Some(h), p) => if h@.len() > 0 {
                in_dir(h@, ".iuna"@)
            } else {
                profile_dir(p)
            },
            (None, p) => profile_dir(p),
        },
{
    if let Some(h) = home {
        if h.unicode_len() > 0 {
            return path_in(h, ".iuna");
        }
    }
    if let Some(p) = profile {
        if p.unicode_len() > 0 {
            return path_in(p, ".iuna");
        }
    }
    text::text(".iuna")
}

pub open spec fn profile_dir(profile: Option<&str>) -> Seq<char> {
    match profile {
        Some(p) => if p@.len() > 0 {
            in_dir(p@, ".iuna"@)
        } else {
            ".iuna"@
        },
        None => ".iuna"@,
    }
}

/// A new chain takes a new wallet.
pub fn validate_wallet_for_mode(opts: &CliOptions, wallet_path: &str, wallet_file_exists: bool) -> (r: Result<(), Error>)
    ensures
        error::outcome(r) == if opts.deep_view().chain_mode == ChainMode::Genesis && wallet_file_exists {
            Err(
                "--genesis requires a fresh wallet path, but "@ + wallet_path@
                    + " already exists; start without --genesis to reuse it or choose an empty --data-dir/--wallet"@,
            )
        } else {
            Ok(())
        },
{
    if opts.chain_mode == ChainMode::Genesis && wallet_file_exists {
        let mut message = text::text("--genesis requires a fresh wallet path, but ");
        message.append(wallet_path);
        message.append(" already exists; start without --genesis to reuse it or choose an empty --data-dir/--wallet");
        return Err(Error::of(message));
    }
    Ok(())
}

/// The burn of a block that a node starts with.
pub fn initial_burn_per_block(opts: &CliOptions, configured: Amount) -> (r: Amount)
    ensures
        r == if opts.deep_view().chain_mode == ChainMode::Genesis {
            GENESIS_INITIAL_BURN_PER_BLOCK
        } else {
            configured
        },
{
    match opts.chain_mode {
        ChainMode::Genesis => GENESIS_INITIAL_BURN_PER_BLOCK,
        ChainMode::Setup => configured,
        ChainMode::Join => configured,
    }
}

/// The fee rate that a node starts with.
pub fn initial_burn_fee(opts: &CliOptions, configured: Amount) -> (r: Amount)
    ensures
        r == if opts.deep_view().chain_mode == ChainMode::Genesis {
            GENESIS_INITIAL_BURN_FEE
        } else {
            configured
        },
{
    match opts.chain_mode {
        ChainMode::Genesis => GENESIS_INITIAL_BURN_FEE,
        ChainMode::Setup => configured,
        ChainMode::Join => configured,
    }
}

/// The address to announce: that of the command line, else the configured one, of which it is
/// known whether it reads as a socket address.
pub fn configured_p2p_announce_addr(opts: &CliOptions, configured: Option<&str>, is_address: bool) -> (r: Result<
    Option<String>,
    Error,
>)
    ensures
        error::outcome(r) == match (opts.deep_view().p2p_announce_addr, configured) {
            (Some(address), _) => Ok(Some(address)),
            (None, None) => Ok(None),
            (None, Some(address)) => if is_address {
                Ok(Some(address@))
            } else {
                Err("invalid configured P2P announce address "@ + address@)
            },
        },
{
    if let Some(address) = &opts.p2p_announce_addr {
        return Ok(Some(address.clone()));
    }
    match configured {
        None => Ok(None),
        Some(address) => if is_address {
            Ok(Some(text::text(address)))
        } else {
            let mut message = text::text("invalid configured P2P announce address ");
            message.append(address);
            Err(Error::of(message))
        },
    }
}

/// What to do about the chain at the start: a kept one is resumed, and no new one is started over it.
pub fn startup(opts: &CliOptions, chain_is_kept: bool, chain_db_path: &str) -> (r: Result<Startup, Error>)
    ensures
        match r {
            Ok(s) => s == if chain_is_kept {
                Startup::Resume
            } else {
                match opts.deep_view().chain_mode {
                    ChainMode::Setup => Startup::Setup,
                    ChainMode::Genesis => Startup::Genesis,
                    ChainMode::Join => Startup::Join,
                }
            } && !(chain_is_kept && opts.deep_view().chain_mode == ChainMode::Genesis),
            Err(e) => chain_is_kept && opts.deep_view().chain_mode == ChainMode::Genesis && e.deep_view()
                == "--genesis refuses to run because chain database already contains a blockchain at "@
                + chain_db_path@ + "; start without --genesis to resume it"@,
        },
{
    if chain_is_kept {
        if opts.chain_mode == ChainMode::Genesis {
            let mut message = text::text(
                "--genesis refuses to run because chain database already contains a blockchain at ",
            );
            message.append(chain_db_path);
            message.append("; start without --genesis to resume it");
            return Err(Error::of(message));
        }
        return Ok(Startup::Resume);
    }
    Ok(
        match opts.chain_mode {
            ChainMode::Setup => Startup::Setup,
            ChainMode::Genesis => Startup::Genesis,
            ChainMode::Join => Startup::Join,
        },
    )
}

pub fn help_text() -> (r: &'static str)
    ensures
        r@ == HELP_TEXT@,
{
    HELP_TEXT
}

/// The height of a chain.
pub fn snapshot_height(snapshot: &ChainSnapshot) -> (r: u64)
    ensures
        r == if snapshot.deep_view().blocks.len() > 0 {
            snapshot.deep_view().blocks.last().height
        } else {
            0
        },
{
    if snapshot.blocks.len() > 0 {
        snapshot.blocks[snapshot.blocks.len() - 1].height
    } else {
        0
    }
}

/// A ledger that waits for a chain.
pub fn setup_ledger() -> (r: Ledger)
    ensures
        r.wf(),
        ledger::initial_state(Seq::<(Seq<char>, u64)>::empty(), Seq::<TransactionView>::empty(), 1) == Ok::<
            LedgerView,
            Seq<char>,
        >(r.deep_view()),
{
    let none: Allocations = SortedMap::new();
    Ledger::new(none, 1)
}

/// The allocation that a new chain starts with: all of it is burned for the first ticket.
pub open spec fn bootstrap(address: Seq<char>) -> Seq<(Seq<char>, u64)> {
    sorted::with::<String, u64>(Seq::<(Seq<char>, u64)>::empty(), address, GENESIS_BOOTSTRAP_BURN_AMOUNT)
}

/// A new chain for a wallet.
pub fn start_genesis_ledger(wallet_address: &str, vdf_rounds: u64) -> (r: Result<Ledger, Error>)
    ensures
        error::outcome(r) == match ledger::genesis_burn_transactions(
            bootstrap(wallet_address@),
            seq![(wallet_address@, GENESIS_BOOTSTRAP_BURN_AMOUNT)],
        ) {
            Err(e) => Err(e),
            Ok(transactions) => ledger::initial_state(bootstrap(wallet_address@), transactions, vdf_rounds),
        },
        r matches Ok(l) ==> l.wf(),
{
    let mut allocations: Allocations = SortedMap::new();
    allocations.insert(text::text(wallet_address), GENESIS_BOOTSTRAP_BURN_AMOUNT);
    let mut burns: Vec<GenesisBurn> = Vec::new();
    burns.push(GenesisBurn::new(wallet_address, GENESIS_BOOTSTRAP_BURN_AMOUNT));
    assert(burns.deep_view() =~= seq![(wallet_address@, GENESIS_BOOTSTRAP_BURN_AMOUNT)]);
    Ledger::new_with_genesis_burns(allocations, burns, vdf_rounds)
}

/// How a measurement of the delay function stands.
#[derive(Clone, Copy, Debug, Eq, PartialEq, Structural)]
pub struct VdfMeasurement {
    /// The rounds to run next, where the measurement is not done.
    pub rounds: u64,
    pub measured_rounds: u64,
    pub measured_ns: u128,
    pub done: bool,
}

/// A measurement before its first run.
pub open spec fn measurement_start(initial_rounds: u64, max_rounds: u64) -> VdfMeasurement {
    let most = if max_rounds < 1 {
        1u64
    } else {
        max_rounds
    };
    let first = if initial_rounds < 1 {
        1u64
    } else {
        initial_rounds
    };
    VdfMeasurement {
        rounds: if first < most {
            first
        } else {
            most
        },
        measured_rounds: 0,
        measured_ns: 0,
        done: false,
    }
}

/// A measurement after one more run: it is done once it took long enough, else the rounds double.
pub open spec fn measured(m: VdfMeasurement, elapsed_ns: u128, min_ns: u128, max_rounds: u64) -> VdfMeasurement {
    let total_ns = if m.measured_ns + elapsed_ns > u128::MAX {
        u128::MAX
    } else {
        (m.measured_ns + elapsed_ns) as u128
    };
    let total_rounds = if m.measured_rounds + m.rounds > u64::MAX {
        u64::MAX
    } else {
        (m.measured_rounds + m.rounds) as u64
    };
    let done = total_ns >= min_ns || m.rounds >= max_rounds;
    VdfMeasurement {
        rounds: if done {
            m.rounds
        } else if 2 * m.rounds > max_rounds {
            max_rounds
        } else {
            (2 * m.rounds) as u64
        },
        measured_rounds: total_rounds,
        measured_ns: total_ns,
        done,
    }
}

impl VdfMeasurement {
    pub fn start(initial_rounds: u64, max_rounds: u64) -> (r: Self)
        ensures
            r == measurement_start(initial_rounds, max_rounds),
    {
        let most: u64 = if max_rounds < 1 {
            1
        } else {
            max_rounds
        };
        let first: u64 = if initial_rounds < 1 {
            1
        } else {
            initial_rounds
        };
        VdfMeasurement {
            rounds: if first < most {
                first
            } else {
                most
            },
            measured_rounds: 0,
            measured_ns: 0,
            done: false,
        }
    }

    /// Counts a run that took a time.
    pub fn record(self, elapsed_ns: u128, min_ns: u128, max_rounds: u64) -> (r: Self)
        ensures
            r == measured(self, elapsed_ns, min_ns, max_rounds),
    {
        let measured_ns: u128 = self.measured_ns.saturating_add(elapsed_ns);
        let measured_rounds: u64 = self.measured_rounds.saturating_add(self.rounds);
        let done = measured_ns >= min_ns || self.rounds >= max_rounds;
        let rounds: u64 = if done {
            self.rounds
        } else if self.rounds as u128 * 2 > max_rounds as u128 {
            max_rounds
        } else {
            self.rounds * 2
        };
        VdfMeasurement { rounds, measured_rounds, measured_ns, done }
    }
}

/// The rounds that would take a time, where measured ones took another.
pub fn extrapolate_vdf_rounds(measured_rounds: u64, elapsed_ns: u128, target_ns: u128) -> (r: u64)
    ensures
        r == extrapolated(measured_rounds, elapsed_ns, target_ns),
        1 <= r <= MAX_VDF_ROUNDS,
{
    let elapsed: u128 = if elapsed_ns == 0 {
        1
    } else {
        elapsed_ns
    };
    let target: u128 = if target_ns == 0 {
        1
    } else {
        target_ns
    };
    let product: u128 = match (measured_rounds as u128).checked_mul(target) {
        Some(product) => product,
        None => u128::MAX,
    };
    let rounds: u128 = product / elapsed;
    if rounds < 1 {
        1
    } else if rounds > MAX_VDF_ROUNDS as u128 {
        MAX_VDF_ROUNDS
    } else {
        rounds as u64
    }
}

/// Refusals, one after another.
pub open spec fn listed(errors: Seq<Seq<char>>) -> Seq<char>
    decreases errors.len(),
{
    if errors.len() == 0 {
        Seq::<char>::empty()
    } else if errors.len() == 1 {
        errors[0]
    } else {
        listed(errors.drop_last()) + "; "@ + errors.last()
    }
}

/// Why no chain could be joined.
pub fn join_refusal(errors: &Vec<String>) -> (r: Error)
    ensures
        r.deep_view() == "could not join any requested peer; refusing to start a separate chain: "@ + listed(
            errors.deep_view(),
        ),
{
    let ghost v = errors.deep_view();
    let mut list = text::text("");
    let mut i: usize = 0;
    proof {
        reveal_strlit("");
        model::take_all(v);
        assert(list@ =~= listed(v.take(0)));
    }
    while i < errors.len()
        invariant
            i <= errors.len(),
            v == errors.deep_view(),
            list@ == listed(v.take(i as int)),
        decreases errors.len() - i,
    {
        let ghost before = list@;
        proof {
            assert(v.take(i + 1).drop_last() =~= v.take(i as int));
            assert(v.take(i + 1).last() == errors@[i as int]@);
        }
        if i > 0 {
            list.append("; ");
        }
        list.append(errors[i].as_str());
        proof {
            if i == 0 {
                assert(list@ =~= v.take(1)[0]);
            }
        }
        i = i + 1;
    }
    proof {
        model::take_all(v);
    }
    let mut message = text::text("could not join any requested peer; refusing to start a separate chain: ");
    message.append(list.as_str());
    Error::of(message)
}

/// A new chain and joining one exclude each other.
pub proof fn genesis_and_join_exclude_each_other(o: OptionsView, args: Seq<Seq<char>>, is_address: Seq<bool>, i: nat)
    requires
        o.chain_mode == ChainMode::Genesis ==> o.join_peers.len() == 0,
        o.chain_mode == ChainMode::Join <==> o.join_peers.len() > 0,
    ensures
        o.reading(args, is_address, i) matches Ok(Some(p)) ==> (p.chain_mode == ChainMode::Join <==> p.join_peers.len()
            > 0),
    decreases args.len() - i,
{
    if i < args.len() {
        let flag = args[i as int];
        if flag == "--genesis"@ && o.chain_mode != ChainMode::Join {
            genesis_and_join_exclude_each_other(
                OptionsView { chain_mode: ChainMode::Genesis, ..o },
                args,
                is_address,
                i + 1,
            );
        } else if flag == "--debug"@ {
            genesis_and_join_exclude_each_other(OptionsView { debug: true, ..o }, args, is_address, i + 1);
        } else if takes_value(flag) && i + 1 < args.len() {
            if !(flag == "--join"@ && o.chain_mode == ChainMode::Genesis) {
                genesis_and_join_exclude_each_other(o.with_value(flag, args[i as int + 1]), args, is_address, i + 2);
            }
        }
    }
}

} // verus!
