use std::time::{Duration, Instant};

use iuna::cli::{
    configured_p2p_announce_addr, default_data_dir, extrapolate_vdf_rounds, format_iuna, help_text, initial_burn_fee,
    initial_burn_per_block, join_refusal, setup_ledger, snapshot_height, start_genesis_ledger, startup,
    validate_wallet_for_mode, ChainMode, CliOptions, Startup, VdfMeasurement, GENESIS_BOOTSTRAP_BURN_AMOUNT,
    GENESIS_INITIAL_BURN_FEE, GENESIS_INITIAL_BURN_PER_BLOCK,
};
use iuna::error::Error;
use iuna::genesis::GenesisBurn;
use iuna::ledger::Ledger;
use iuna::node::{NodeCore, DEFAULT_BURN_PER_BLOCK};
use iuna::sorted::SortedMap;
use iuna::transaction::{BLOCK_REWARD, MICRO_IUNA};
use iuna::vdf::{run_vdf, MAX_VDF_ROUNDS, VDF_TARGET_BLOCK_MS};
use iuna::wallet::Wallet;

fn reads_as_address(text: &str) -> bool {
    let Some((host, port)) = text.rsplit_once(':') else {
        return false;
    };
    port.parse::<u16>().is_ok() && host.split('.').count() == 4 && host.split('.').all(|part| part.parse::<u8>().is_ok())
}

fn parse(args: &[&str]) -> Result<Option<CliOptions>, Error> {
    let owned: Vec<String> = args.iter().map(|arg| arg.to_string()).collect();
    let is_address: Vec<bool> = args.iter().map(|arg| reads_as_address(arg)).collect();
    CliOptions::parse_from(&owned, &is_address, &default_data_dir(Some("/home/alice"), None))
}

#[test]
fn help_mentions_dev_seed_verify_bypass_env() {
    assert!(help_text().contains("IUNA_DEV_SKIP_SEED_VERIFY=1"));
    assert!(help_text().contains("skip seed verification"));
    assert!(help_text().contains("--stratum <addr:port>"));
    assert!(help_text().contains("--debug"));
}

#[test]
fn help_is_asked_for() {
    assert_eq!(parse(&["--help"]).unwrap(), None);
    assert_eq!(parse(&["--debug", "-h", "--unknown"]).unwrap(), None);
}

#[test]
fn no_args_starts_setup_mode() {
    let opts = parse(&[]).unwrap().unwrap();
    assert_eq!(opts.chain_mode, ChainMode::Setup);
    assert!(opts.join_peers.is_empty());
}

#[test]
fn stratum_port_can_be_configured() {
    let opts = parse(&["--stratum", "127.0.0.1:3333"]).unwrap().unwrap();
    assert_eq!(opts.stratum_addr, Some("127.0.0.1:3333".to_string()));
}

#[test]
fn debug_logging_can_be_enabled() {
    assert!(!parse(&[]).unwrap().unwrap().debug);
    assert!(parse(&["--debug"]).unwrap().unwrap().debug);
}

#[test]
fn removed_wallet_seed_is_rejected() {
    let error = parse(&["--wallet-seed", "alice", "--genesis"]).unwrap_err();
    assert!(error.message().contains("--wallet-seed was removed"));
}

#[test]
fn runtime_configuration_flags_are_rejected() {
    for flag in [
        "--start",
        "--name",
        "--burn-per-block",
        "--peer",
        "--genesis-amount",
        "--vdf-rounds",
    ] {
        let error = parse(&["--genesis", flag, "value"]).unwrap_err();
        assert!(
            error.message().contains("unknown argument"),
            "{flag} should not be accepted"
        );
    }
}

#[test]
fn flags_miss_their_values() {
    let error = parse(&["--wallet"]).unwrap_err();
    assert_eq!(error.message(), "missing value after --wallet");
    let error = parse(&["--http", "nowhere"]).unwrap_err();
    assert_eq!(error.message(), "invalid --http address");
}

#[test]
fn genesis_mode_is_explicit() {
    let opts = parse(&["--genesis"]).unwrap().unwrap();
    assert_eq!(opts.chain_mode, ChainMode::Genesis);
    assert!(opts.join_peers.is_empty());
    assert!(opts.has_chain());
}

#[test]
fn join_mode_does_not_start_new_chain() {
    let opts = parse(&["--join", "127.0.0.1:9444"]).unwrap().unwrap();
    assert_eq!(opts.chain_mode, ChainMode::Join);
    assert_eq!(opts.join_peers, vec!["127.0.0.1:9444"]);
}

#[test]
fn genesis_mode_starts_with_bootstrap_burn_rate_and_zero_fee() {
    let genesis = parse(&["--genesis"]).unwrap().unwrap();
    assert_eq!(
        initial_burn_per_block(&genesis, 50),
        GENESIS_INITIAL_BURN_PER_BLOCK
    );
    assert_eq!(initial_burn_fee(&genesis, 3), GENESIS_INITIAL_BURN_FEE);
}

#[test]
fn non_genesis_modes_start_with_configured_burn_rate_and_fee() {
    let setup = parse(&[]).unwrap().unwrap();
    assert_eq!(initial_burn_per_block(&setup, 50), 50);
    assert_eq!(initial_burn_fee(&setup, 3), 3);

    let join = parse(&["--join", "127.0.0.1:9444"]).unwrap().unwrap();
    assert_eq!(initial_burn_per_block(&join, 50), 50);
    assert_eq!(initial_burn_fee(&join, 3), 3);

    assert_eq!(
        initial_burn_per_block(&setup, DEFAULT_BURN_PER_BLOCK),
        DEFAULT_BURN_PER_BLOCK
    );
}

#[test]
fn genesis_and_join_are_exclusive() {
    let error = parse(&["--genesis", "--join", "127.0.0.1:9444"]).unwrap_err();
    assert!(error.message().contains("choose either --genesis or --join"));

    let error = parse(&["--join", "127.0.0.1:9444", "--genesis"]).unwrap_err();
    assert!(error.message().contains("choose either --genesis or --join"));
}

#[test]
fn http_management_port_can_be_configured() {
    let opts = parse(&["--genesis", "--http", "127.0.0.1:18443"])
        .unwrap()
        .unwrap();
    assert_eq!(opts.http_addr, "127.0.0.1:18443");
}

#[test]
fn p2p_announce_port_can_be_configured() {
    let opts = parse(&["--p2p-announce", "203.0.113.10:9444"])
        .unwrap()
        .unwrap();

    assert_eq!(opts.p2p_announce_addr, Some("203.0.113.10:9444".to_string()));
}

#[test]
fn configured_p2p_announce_addr_uses_cli_before_config() {
    let opts = parse(&["--p2p-announce", "203.0.113.20:9444"])
        .unwrap()
        .unwrap();

    assert_eq!(
        configured_p2p_announce_addr(&opts, Some("203.0.113.10:9444"), true).unwrap(),
        Some("203.0.113.20:9444".to_string())
    );
}

#[test]
fn configured_p2p_announce_addr_reads_config_without_cli() {
    let opts = parse(&[]).unwrap().unwrap();

    assert_eq!(
        configured_p2p_announce_addr(&opts, Some("203.0.113.10:9444"), true).unwrap(),
        Some("203.0.113.10:9444".to_string())
    );
    assert_eq!(configured_p2p_announce_addr(&opts, None, false).unwrap(), None);
}

#[test]
fn configured_p2p_announce_addr_rejects_invalid_config() {
    let opts = parse(&[]).unwrap().unwrap();
    let configured = "not-an-address";

    let error = configured_p2p_announce_addr(&opts, Some(configured), reads_as_address(configured)).unwrap_err();
    assert!(
        error
            .message()
            .contains("invalid configured P2P announce address")
    );
}

#[test]
fn http_management_port_defaults_to_iuna_port() {
    let opts = parse(&[]).unwrap().unwrap();
    assert_eq!(opts.http_addr, "127.0.0.1:18661");
}

#[test]
fn data_dir_defaults_under_home() {
    let opts = parse(&[]).unwrap().unwrap();
    assert_eq!(opts.data_dir, default_data_dir(Some("/home/alice"), None));
    assert!(opts.data_dir.ends_with(".iuna"));
}

#[test]
fn data_dir_falls_back_to_the_profile_and_the_working_directory() {
    assert_eq!(default_data_dir(Some(""), Some("/profiles/alice")), "/profiles/alice/.iuna");
    assert_eq!(default_data_dir(None, Some("/profiles/alice/")), "/profiles/alice/.iuna");
    assert_eq!(default_data_dir(None, None), ".iuna");
}

#[test]
fn wallet_defaults_under_data_dir() {
    let opts = parse(&["--genesis", "--data-dir", "tmp-node"])
        .unwrap()
        .unwrap();
    assert_eq!(opts.wallet_path(), "tmp-node/wallet.json");
}

#[test]
fn chain_db_defaults_under_data_dir() {
    let opts = parse(&["--genesis", "--data-dir", "tmp-node"])
        .unwrap()
        .unwrap();
    assert_eq!(opts.chain_db_path(), "tmp-node/chain.sqlite3");
}

#[test]
fn config_defaults_under_data_dir() {
    let opts = parse(&["--genesis", "--data-dir", "tmp-node"])
        .unwrap()
        .unwrap();
    assert_eq!(opts.config_path(), "tmp-node/config.json");
}

#[test]
fn wallet_path_can_be_explicit() {
    let opts = parse(&["--genesis", "--wallet", "alice-wallet.json"])
        .unwrap()
        .unwrap();
    assert_eq!(opts.wallet_path(), "alice-wallet.json");
}

#[test]
fn chain_db_path_can_be_explicit() {
    let opts = parse(&["--genesis", "--chain-db", "alice-chain.sqlite3"])
        .unwrap()
        .unwrap();
    assert_eq!(opts.chain_db_path(), "alice-chain.sqlite3");
}

#[test]
fn genesis_requires_fresh_wallet_path() {
    let opts = parse(&["--genesis"]).unwrap().unwrap();
    let wallet_path = "wallet.json";

    validate_wallet_for_mode(&opts, wallet_path, false).unwrap();
    let error = validate_wallet_for_mode(&opts, wallet_path, true).unwrap_err();
    assert!(error.message().contains("requires a fresh wallet path"));

    let setup = parse(&[]).unwrap().unwrap();
    validate_wallet_for_mode(&setup, wallet_path, true).unwrap();
}

#[test]
fn vdf_measurement_extrapolates_to_target() {
    assert_eq!(
        extrapolate_vdf_rounds(
            10_000,
            Duration::from_secs(1).as_nanos(),
            Duration::from_millis(VDF_TARGET_BLOCK_MS).as_nanos(),
        ),
        3_000_000
    );
    assert_eq!(
        extrapolate_vdf_rounds(
            10_000,
            Duration::from_secs(0).as_nanos(),
            Duration::from_millis(VDF_TARGET_BLOCK_MS).as_nanos(),
        ),
        3_000_000_000_000_000
    );
}

#[test]
fn extrapolated_rounds_stay_in_range() {
    assert_eq!(extrapolate_vdf_rounds(0, 10, 10), 1);
    assert_eq!(extrapolate_vdf_rounds(u64::MAX, 0, u128::MAX), MAX_VDF_ROUNDS);
}

fn measure_vdf_rounds(seed: &str, initial_rounds: u64, min_elapsed: Duration, max_rounds: u64) -> (u64, u128) {
    let mut measurement = VdfMeasurement::start(initial_rounds, max_rounds);
    while !measurement.done {
        let started = Instant::now();
        let _ = run_vdf(seed, measurement.rounds);
        measurement = measurement.record(started.elapsed().as_nanos(), min_elapsed.as_nanos(), max_rounds);
    }
    (measurement.measured_rounds, measurement.measured_ns)
}

#[test]
fn vdf_measurement_keeps_sampling_until_elapsed_is_useful() {
    let min_elapsed = Duration::from_millis(1);
    let max_rounds = 1_000_000;
    let (rounds, elapsed) =
        measure_vdf_rounds("iuna-test-vdf-calibration", 1, min_elapsed, max_rounds);

    assert!(rounds >= 1);
    assert!(elapsed >= min_elapsed.as_nanos() || rounds >= max_rounds);
    assert!(elapsed > 0);
}

#[test]
fn measurement_doubles_its_rounds() {
    let start = VdfMeasurement::start(0, 10);
    assert_eq!((start.rounds, start.measured_rounds, start.done), (1, 0, false));
    let second = start.record(5, 100, 10);
    assert_eq!((second.rounds, second.measured_rounds, second.measured_ns, second.done), (2, 1, 5, false));
    let third = second.record(5, 100, 10).record(5, 100, 10);
    assert_eq!((third.rounds, third.measured_rounds, third.done), (8, 7, false));
    let fourth = third.record(5, 100, 10);
    assert_eq!((fourth.rounds, fourth.done), (10, false));
    assert!(fourth.record(5, 100, 10).done);
    assert!(start.record(100, 100, 10).done);
}

#[test]
fn a_kept_chain_is_resumed_and_never_started_over() {
    let genesis = parse(&["--genesis"]).unwrap().unwrap();
    let setup = parse(&[]).unwrap().unwrap();
    let join = parse(&["--join", "127.0.0.1:1"]).unwrap().unwrap();

    let error = startup(&genesis, true, "chain.sqlite3").unwrap_err();
    assert!(error.message().contains("already contains a blockchain"));
    assert_eq!(startup(&setup, true, "chain.sqlite3").unwrap(), Startup::Resume);
    assert_eq!(startup(&join, true, "chain.sqlite3").unwrap(), Startup::Resume);

    assert_eq!(startup(&genesis, false, "chain.sqlite3").unwrap(), Startup::Genesis);
    assert_eq!(startup(&setup, false, "chain.sqlite3").unwrap(), Startup::Setup);
    assert_eq!(startup(&join, false, "chain.sqlite3").unwrap(), Startup::Join);
}

#[test]
fn a_node_that_joins_no_peer_does_not_start() {
    let error = join_refusal(&vec!["a: refused".to_string(), "b: timed out".to_string()]);
    assert_eq!(
        error.message(),
        "could not join any requested peer; refusing to start a separate chain: a: refused; b: timed out"
    );
}

#[test]
fn a_ledger_waits_for_a_chain_or_starts_one() {
    assert_eq!(setup_ledger().status().height, 0);
    assert_eq!(setup_ledger().expected_leader_for_next_block(), None);

    let wallet = Wallet::from_seed("genesis-ledger-wallet");
    let ledger = start_genesis_ledger(wallet.address(), 7).unwrap();
    assert_eq!(ledger.vdf_rounds(), 7);
    assert_eq!(ledger.chain()[0].transactions[0].amount(), GENESIS_BOOTSTRAP_BURN_AMOUNT);
    assert_eq!(
        ledger.expected_leader_for_next_block().as_deref(),
        Some(wallet.address())
    );
    assert_eq!(snapshot_height(&ledger.snapshot()), 0);
}

#[test]
fn amounts_are_written_without_trailing_zeros() {
    assert_eq!(format_iuna(0), "0");
    assert_eq!(format_iuna(25 * MICRO_IUNA), "25");
    assert_eq!(format_iuna(MICRO_IUNA / 10), "0.1");
    assert_eq!(format_iuna(3 * MICRO_IUNA + 50), "3.00005");
    assert_eq!(format_iuna(1), "0.000001");
}
