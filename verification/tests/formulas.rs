use iuna::automatic::{allowed_recovery_vdf_rank_count, auto_pow_salt, recovery_vdf_sample_percent};
use iuna::blinded::{
    decrypt_blinded_payload, default_reveal_bundle_hash, encrypt_blinded_payload, BlindedTransaction,
};
use iuna::block::{recovery_vdf_seed_for_child, vdf_seed_for_child, Block, FinalizerMode, LeaderProof};
use iuna::crypto::{hash_text, hex_hash};
use iuna::document::{transaction_bytes, transaction_json};
use iuna::hex::{decode_hex, decode_hex_array, hex_encode};
use iuna::json::Json;
use iuna::peers::now_ms;
use iuna::sealing::{decrypt_blinded_transaction, seal_transaction, transaction_from_json};
use iuna::stratum::{
    hash_meets_difficulty, pack_stratum_nonce, stratum_mine_header_bytes, stratum_mine_signature, unpack_stratum_nonce,
};
use iuna::tickets::{floor_log2_ratio, retarget_mine_difficulty_bits, verify_address_signature};
use iuna::transaction::{
    compact_len, genesis_allocation_outpoint, mine_signature, OutPoint, Transaction, TxInput, TxOutput,
    MINE_FINALIZER_FEE, MINE_REWARD,
};
use iuna::validate::{validate_address, validate_hash, validate_protocol_id, validate_signature, validate_stratum_header};
use iuna::vdf::{
    base_vdf_rounds_for_finalizer_rank, clamped_vdf_retarget_observed_block_ms, retarget_vdf_rounds, run_vdf, verify_vdf,
    vdf_rounds_for_finalizer_rank, MAX_VDF_ROUNDS, VDF_TARGET_BLOCK_MS,
};
use iuna::wallet::Wallet;

const ALICE: &str = "b6e11425133276446e097df31d0ded738a8c5fc4cf48f3c1e7902ce44717384a";

fn zeros() -> String {
    "0".repeat(64)
}

fn bare_block(finalizer_mode: FinalizerMode, finalizer_rank: u32) -> Block {
    Block {
        height: 1,
        prev_hash: zeros(),
        timestamp_ms: 5,
        miner: "miner".to_string(),
        finalizer_mode,
        finalizer_rank,
        reward: 0,
        vdf_rounds: 10,
        vdf_output: "out".to_string(),
        leader_proof: None,
        blinded_transactions: Vec::new(),
        reveal_bundles: Vec::new(),
        transactions: Vec::new(),
        hash: String::new(),
    }
}

fn small_burn() -> Transaction {
    Transaction::Burn {
        inputs: vec![TxInput {
            outpoint: OutPoint {
                txid: "aa".to_string(),
                index: 1,
            },
            owner: "bb".to_string(),
            signature: "cc".to_string(),
        }],
        change: vec![TxOutput {
            address: "dd".to_string(),
            amount: 5,
        }],
        amount: 2,
        fee: 1,
        signature: "ee".to_string(),
    }
}

#[test]
fn hashes_are_sha256_in_hexadecimal() {
    assert_eq!(
        hash_text("abc"),
        "ba7816bf8f01cfea414140de5dae2223b00361a396177a9cb410ff61f20015ad"
    );
    assert_eq!(hex_hash(b"abc"), hash_text("abc"));
    assert_ne!(hash_text("abc"), "abc");
}

#[test]
fn addresses_and_signatures_are_ed25519() {
    let alice = Wallet::from_seed("alice");
    assert_eq!(alice.address(), ALICE);
    let signature = alice.sign_payload("hello");
    assert_eq!(
        signature,
        "06ab0059bcc394b7648655251865dd16b49bd5fcc491b06a16a875600c52c2cc77a5f258b39fd5ccec2d2586964077c8155db8e3111da94abeded3ecc42a1205"
    );
    verify_address_signature(ALICE, "hello", &signature, "test").unwrap();
}

#[test]
fn signatures_that_do_not_fit_are_refused() {
    let alice = Wallet::from_seed("alice");
    let bob = Wallet::from_seed("bob");
    let signature = alice.sign_payload("hello");

    let error = verify_address_signature(ALICE, "other", &signature, "test").unwrap_err();
    assert_eq!(error.message(), "test signature is invalid");
    let error = verify_address_signature(bob.address(), "hello", &signature, "test").unwrap_err();
    assert_eq!(error.message(), "test signature is invalid");
    let error = verify_address_signature("00", "hello", &signature, "test").unwrap_err();
    assert!(error.message().starts_with("invalid test public key 00"));
    let error = verify_address_signature(ALICE, "hello", "00", "test").unwrap_err();
    assert!(error.message().starts_with("invalid test signature hex"));
    let no_point = format!("02{}", "0".repeat(62));
    let error = verify_address_signature(&no_point, "hello", &signature, "test").unwrap_err();
    assert_eq!(error.message(), "invalid test public key");
}

#[test]
fn payloads_are_sealed_with_their_terms() {
    let key: Vec<u8> = (0..32).collect();
    let nonce: Vec<u8> = (0..12).collect();
    let sealed = encrypt_blinded_payload(&key, &nonce, 7, 9, b"sealed words").unwrap();
    assert_eq!(
        hex_encode(&sealed),
        "fa9e696c4c738537d8f15b8034b004284ceb2870a483188b18ace570"
    );
    assert_eq!(
        decrypt_blinded_payload(&key, &nonce, 7, 9, &sealed).unwrap(),
        b"sealed words"
    );
    for (fee, expires_at_height) in [(8, 9), (7, 10)] {
        let error = decrypt_blinded_payload(&key, &nonce, fee, expires_at_height, &sealed).unwrap_err();
        assert_eq!(error.message(), "failed to decrypt blinded transaction payload");
    }
    let other_key = vec![1_u8; 32];
    assert!(decrypt_blinded_payload(&other_key, &nonce, 7, 9, &sealed).is_err());
}

#[test]
fn a_sealed_transaction_opens_with_its_key_alone() {
    let key = vec![3_u8; 32];
    let nonce = vec![5_u8; 12];
    let wallet = Wallet::from_seed("formulas-sealer");
    let built = seal_transaction(&wallet, small_burn(), 9, &key, &nonce).unwrap();
    assert_eq!(built.transaction.inputs.len(), 1);
    assert_eq!(built.transaction.inputs[0].outpoint.txid, "aa");
    assert_eq!(built.transaction.inputs[0].owner, "bb");
    assert_eq!(
        built.transaction.authorization(),
        format!(
            "blinded-inputs:1:{}:9:{}:{}:{}:aa:1:bb",
            built.transaction.encrypted_size,
            built.transaction.nonce,
            built.transaction.ciphertext,
            built.transaction.payload_hash
        )
    );
    assert_eq!(
        built.transaction.inputs[0].signature,
        wallet.sign_payload(&built.transaction.authorization())
    );
    assert_eq!(built.transaction.fee, 1);
    assert_eq!(built.reveal.key, hex_encode(&key));
    assert_eq!(
        decrypt_blinded_transaction(&built.transaction, &built.reveal).unwrap(),
        small_burn()
    );

    let mut wrong = built.reveal.clone();
    wrong.key = "00".repeat(32);
    assert!(decrypt_blinded_transaction(&built.transaction, &wrong).is_err());
}

#[test]
fn transactions_are_written_as_json() {
    assert_eq!(
        String::from_utf8(transaction_bytes(&small_burn())).unwrap(),
        "{\"kind\":\"burn\",\"inputs\":[{\"outpoint\":{\"txid\":\"aa\",\"index\":1},\"owner\":\"bb\",\"signature\":\"cc\"}],\"change\":[{\"address\":\"dd\",\"amount\":5}],\"amount\":2,\"fee\":1,\"signature\":\"ee\"}"
    );
    assert_eq!(
        transaction_from_json(&transaction_json(&small_burn())),
        Some(small_burn())
    );
}

fn json_text(text: &str) -> Json {
    Json::Text(text.to_string())
}

#[test]
fn transactions_are_read_from_lists_of_their_fields() {
    let outpoint = Json::List(vec![json_text("aa"), Json::Number(1)]);
    let input = Json::List(vec![outpoint, json_text("bb"), json_text("cc")]);
    let output = Json::List(vec![json_text("dd"), Json::Number(5)]);
    let fields = vec![
        json_text("burn"),
        Json::List(vec![input]),
        Json::List(vec![output]),
        Json::Number(2),
        Json::Number(1),
        json_text("ee"),
    ];
    assert_eq!(transaction_from_json(&Json::List(fields)), Some(small_burn()));
    assert_eq!(transaction_from_json(&Json::List(Vec::new())), None);
    assert_eq!(
        transaction_from_json(&Json::List(vec![json_text("burn"), Json::Number(2)])),
        None
    );
}

#[test]
fn transactions_are_read_with_fields_in_any_order() {
    let field = |key: &str, value: Json| (key.to_string(), value);
    let mine = |extra: Vec<(String, Json)>| {
        let mut fields = vec![
            field("signature", json_text("ee")),
            field("nonce", Json::Number(7)),
            field("unknown", Json::Other),
            field("anchor", json_text("bb")),
            field("difficulty_bits", Json::Number(12)),
            field("recipient", json_text("aa")),
            field("kind", json_text("mine")),
        ];
        fields.extend(extra);
        Json::Object(fields)
    };
    let expected = |salt: u64, proof_header: Option<String>| Transaction::Mine {
        recipient: "aa".to_string(),
        anchor: "bb".to_string(),
        salt,
        nonce: 7,
        difficulty_bits: 12,
        proof_header,
        signature: "ee".to_string(),
    };
    assert_eq!(transaction_from_json(&mine(Vec::new())), Some(expected(0, None)));
    assert_eq!(
        transaction_from_json(&mine(vec![field("salt", Json::Number(3)), field("proof_header", Json::Null)])),
        Some(expected(3, None))
    );
    assert_eq!(
        transaction_from_json(&mine(vec![field("proof_header", json_text("ff"))])),
        Some(expected(0, Some("ff".to_string())))
    );
    assert_eq!(transaction_from_json(&mine(vec![field("salt", Json::Null)])), None);
    assert_eq!(transaction_from_json(&Json::Null), None);
}

#[test]
fn an_envelope_has_the_size_of_its_json() {
    let envelope = BlindedTransaction {
        commitment: "a".repeat(64),
        inputs: Vec::new(),
        fee: 7,
        encrypted_size: 3,
        expires_at_height: 9,
        nonce: "b".repeat(24),
        ciphertext: "c".repeat(6),
        payload_hash: "d".repeat(64),
    };
    assert_eq!(envelope.serialized_size_bytes().unwrap(), 277);
    assert_eq!(envelope.fee_rate_size_bytes(), 277);
    assert_eq!(
        envelope.canonical(),
        format!(
            "blinded-tx:7:3:9:{}:{}:{}:",
            "b".repeat(24),
            "c".repeat(6),
            "d".repeat(64)
        )
    );
}

#[test]
fn the_clock_is_past_the_year_2020() {
    assert!(now_ms() > 1_577_836_800_000);
}

#[test]
fn the_delay_function_squares() {
    assert_eq!(
        run_vdf("test-seed", 10),
        "0000000000000000107ac31c6144175b:00000000000000000000000000000001"
    );
    assert_eq!(
        run_vdf("test-seed", 64),
        "0000000000000000160332d16d42c0de:000000000000000034ed89545c490435"
    );
}

#[test]
fn only_the_right_solution_verifies() {
    let solution = run_vdf("test-seed", 64);
    assert!(verify_vdf("test-seed", 64, &solution));
    assert!(!verify_vdf("test-seed", 63, &solution));
    assert!(!verify_vdf("seed", 64, &solution));
    assert!(!verify_vdf("test-seed", 64, &solution.replace('d', "e")));
    assert!(!verify_vdf("test-seed", 64, &solution[1..]));
    assert!(!verify_vdf(
        "test-seed",
        64,
        "00000000000000000000000000000000:00000000000000000000000000000000"
    ));
}

#[test]
fn rounds_are_retargeted_within_two_percent() {
    assert_eq!(retarget_vdf_rounds(1_000, VDF_TARGET_BLOCK_MS), 1_000);
    assert_eq!(retarget_vdf_rounds(1_000, VDF_TARGET_BLOCK_MS * 9 / 10), 1_000);
    assert_eq!(retarget_vdf_rounds(1_000, VDF_TARGET_BLOCK_MS / 2), 1_020);
    assert_eq!(retarget_vdf_rounds(1_000, VDF_TARGET_BLOCK_MS * 2), 980);
    assert_eq!(retarget_vdf_rounds(1, VDF_TARGET_BLOCK_MS * 2), 1);
    assert_eq!(retarget_vdf_rounds(MAX_VDF_ROUNDS, 0), MAX_VDF_ROUNDS);
    assert_eq!(clamped_vdf_retarget_observed_block_ms(1), 75_000);
    assert_eq!(clamped_vdf_retarget_observed_block_ms(u64::MAX), 1_200_000);
}

#[test]
fn a_rank_multiplies_the_rounds() {
    assert_eq!(vdf_rounds_for_finalizer_rank(100, 0).unwrap(), 100);
    assert_eq!(vdf_rounds_for_finalizer_rank(100, 2).unwrap(), 300);
    assert_eq!(base_vdf_rounds_for_finalizer_rank(300, 2), 100);
    assert_eq!(
        vdf_rounds_for_finalizer_rank(1, u32::MAX).unwrap_err().message(),
        "finalizer rank overflows"
    );
    assert_eq!(
        vdf_rounds_for_finalizer_rank(u64::MAX, 1).unwrap_err().message(),
        "finalizer rank VDF rounds overflow"
    );
    assert_eq!(
        vdf_rounds_for_finalizer_rank(u64::MAX, 0).unwrap_err().message(),
        "finalizer rank VDF rounds exceed maximum"
    );
}

#[test]
fn delays_are_seeded_by_the_parent() {
    let hashes = [
        default_reveal_bundle_hash(0),
        default_reveal_bundle_hash(1),
        default_reveal_bundle_hash(2),
    ];
    assert_eq!(
        hashes[0],
        "f80471f28745ead21381c3041b0cbe2a6f1d29f37e69e8df19d2ec214a6df71b"
    );
    assert_eq!(
        vdf_seed_for_child(&zeros(), 1, &hashes),
        "a70508b9feabf5ca543814ed84da8d2f4cd32d760b4bce51a5e8499d9cf7a5c1"
    );
    assert_eq!(
        recovery_vdf_seed_for_child(&zeros(), 1, 5, &hashes),
        "83e342348093dd7be0c2f20591ef335fef2c73f749297b8bb30c82d6197ee784"
    );
}

#[test]
fn blocks_are_hashed_by_what_they_hold() {
    assert_eq!(
        bare_block(FinalizerMode::Ticket, 0).compute_hash(),
        "ff3520d616d93e41d0a51f2c2b191f9c1fd91ef0bbdb2f733b4953cec6906f52"
    );
    assert_eq!(
        bare_block(FinalizerMode::Ticket, 2).compute_hash(),
        "a44b0ed2a91265c838252bf7cef44eb6c78f484b25bac99238b8017eef01db37"
    );
    assert_eq!(
        bare_block(FinalizerMode::Recovery, 0).compute_hash(),
        "d3442ab38133c2b5f4cf10246a82b28655be5325db0d4c8be9d4f5695992b6b5"
    );
}

#[test]
fn ticket_blocks_outrank_recovery_blocks_and_lower_ranks_higher_ones() {
    let first = bare_block(FinalizerMode::Ticket, 0).sealed();
    let second = bare_block(FinalizerMode::Ticket, 2).sealed();
    let recovery = bare_block(FinalizerMode::Recovery, 0).sealed();
    assert!(first.outranks(&second));
    assert!(second.outranks(&recovery));
    assert!(!second.outranks(&first));
    assert!(!first.outranks(&first));
}

#[test]
fn leader_proofs_are_ranked_by_hash() {
    let proof = LeaderProof {
        ticket_id: "t".to_string(),
        public_key: "k".to_string(),
        signature: "s".to_string(),
    };
    assert_eq!(
        proof.rank(),
        "6a1f81bbd2c08a5e3e09cf78231a87e3b0661ea9f62033f6de4249d9961505e0"
    );
}

#[test]
fn mine_actions_are_hashed() {
    assert_eq!(
        mine_signature(ALICE, &zeros(), 7, 9, 12),
        "230226b4a72b3c2aac06845072d50e79a88bc7f76713617916a7c6a74d222291"
    );
}

#[test]
fn stratum_headers_hold_anchor_coinbase_and_nonce() {
    let nonce = pack_stratum_nonce([1, 2, 3, 4], [0x0d, 0x0c, 0x0b, 0x0a]);
    assert_eq!(nonce, 0x0102_0304_0a0b_0c0d);
    assert_eq!(unpack_stratum_nonce(nonce), ([1, 2, 3, 4], [0x0d, 0x0c, 0x0b, 0x0a]));
    let header = stratum_mine_header_bytes(ALICE, &zeros(), 7, nonce, 12).unwrap();
    assert_eq!(
        hex_encode(&header),
        "010000000000000000000000000000000000000000000000000000000000000000000000eeb279926c401e4675697a2aca96b803d403c313399eaa986d47998292f3f57a000000000c0000000d0c0b0a"
    );
    assert_eq!(
        stratum_mine_signature(&header),
        "168981b62f8ce3c193a726130803a3cf61795459b7b40f7d1f3fc8f762129549"
    );
    let error = stratum_mine_header_bytes(ALICE, "xx", 7, nonce, 12).unwrap_err();
    assert!(error.message().starts_with("mine transaction anchor is not hex"));
}

#[test]
fn difficulty_counts_leading_zero_bits() {
    assert!(hash_meets_difficulty("ff", 0));
    assert!(hash_meets_difficulty("00ff", 8));
    assert!(!hash_meets_difficulty("00ff", 9));
    assert!(hash_meets_difficulty("007f", 9));
    assert!(hash_meets_difficulty("003f", 10));
    assert!(hash_meets_difficulty("001f", 11));
    assert!(!hash_meets_difficulty("002f", 11));
    assert!(!hash_meets_difficulty("0", 8));
}

#[test]
fn mine_difficulty_follows_the_number_of_actions() {
    assert_eq!(retarget_mine_difficulty_bits(12, 10), 12);
    assert_eq!(retarget_mine_difficulty_bits(12, 19), 12);
    assert_eq!(retarget_mine_difficulty_bits(12, 20), 13);
    assert_eq!(retarget_mine_difficulty_bits(12, 1_000), 14);
    assert_eq!(retarget_mine_difficulty_bits(12, 5), 11);
    assert_eq!(retarget_mine_difficulty_bits(12, 0), 10);
    assert_eq!(retarget_mine_difficulty_bits(1, 0), 1);
    assert_eq!(retarget_mine_difficulty_bits(32, 1_000), 32);
    assert_eq!(floor_log2_ratio(80, 10), 3);
    assert_eq!(floor_log2_ratio(10, 80), 0);
}

#[test]
fn automatic_work_is_salted_and_sampled() {
    assert_eq!(auto_pow_salt(ALICE, &zeros()), 1_078_005_449_010_534_688);
    assert_eq!(recovery_vdf_sample_percent(ALICE, &zeros()), 8);
    assert_eq!(allowed_recovery_vdf_rank_count(10, 25), 3);
    assert_eq!(allowed_recovery_vdf_rank_count(10, 100), 10);
    assert_eq!(allowed_recovery_vdf_rank_count(10, 0), 0);
    assert_eq!(allowed_recovery_vdf_rank_count(0, 50), 0);
    assert_eq!(allowed_recovery_vdf_rank_count(1, 1), 1);
}

#[test]
fn allocations_have_references_of_their_own() {
    let outpoint = genesis_allocation_outpoint(ALICE);
    assert_eq!(
        outpoint.txid,
        "067af65261eb56714e895ac463cec38c63c6529dc3b4fd0065cac1917fa535ae"
    );
    assert_eq!(outpoint.index, 0);
}

#[test]
fn sizes_are_counted_in_seven_bit_groups() {
    assert_eq!(compact_len(0), 1);
    assert_eq!(compact_len(127), 1);
    assert_eq!(compact_len(128), 2);
    assert_eq!(compact_len(u128::from(u64::MAX)), 10);
    // 1 for the kind, 1 + (64 + 1 + 32) for the input, 1 + (32 + 1) for the change, 1 + 1 for the
    // amounts and 64 for the signature.
    assert_eq!(small_burn().economic_size_bytes(), 199);
    assert_eq!(small_burn().fee_rate_key(), 1_000_000 / 199);
}

#[test]
fn transactions_tell_what_they_move() {
    let burn = small_burn();
    assert_eq!(burn.sender(), "bb");
    assert_eq!(burn.to(), None);
    assert_eq!(burn.amount(), 2);
    assert_eq!(burn.fee(), 1);
    assert_eq!(burn.total_debit().unwrap(), 3);
    assert!(burn.is_burn() && !burn.is_mine());
    let mine = Transaction::Mine {
        recipient: ALICE.to_string(),
        anchor: zeros(),
        salt: 0,
        nonce: 0,
        difficulty_bits: 1,
        proof_header: None,
        signature: zeros(),
    };
    assert_eq!(mine.amount(), MINE_REWARD);
    assert_eq!(mine.fee(), MINE_FINALIZER_FEE);
    assert!(mine.is_mine());
}

#[test]
fn hexadecimal_is_read_back() {
    assert_eq!(hex_encode(&[0, 171, 255]), "00abff");
    assert_eq!(decode_hex("00abff").unwrap(), vec![0, 171, 255]);
    assert!(decode_hex("0").is_err());
    assert!(decode_hex("zz").is_err());
    assert_eq!(decode_hex_array("0102", 2).unwrap(), vec![1, 2]);
    assert!(decode_hex_array("0102", 3).is_err());
}

#[test]
fn ids_are_checked_for_their_form() {
    validate_address(ALICE, "owner").unwrap();
    assert!(validate_address("alice", "owner").unwrap_err().message().starts_with("invalid owner address"));
    validate_hash(&zeros(), "tip").unwrap();
    assert!(validate_hash("00", "tip").is_err());
    validate_signature(&"00".repeat(64), "input signature").unwrap();
    assert!(validate_signature("00", "input signature").is_err());
    validate_stratum_header(&"00".repeat(80)).unwrap();
    assert!(validate_stratum_header("00").is_err());
    validate_protocol_id(&"00".repeat(32), "txid").unwrap();
    validate_protocol_id(&"00".repeat(64), "txid").unwrap();
    assert!(validate_protocol_id(&"00".repeat(33), "txid").is_err());
}
