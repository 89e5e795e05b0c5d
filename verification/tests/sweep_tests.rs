use base64::Engine;
use dust_cleaner::{DustSweeper, SweepError, UnsignedTx, Utxo};

// A well-formed mainnet pay-to-pubkey-hash address, usable as a burn sink.
const BURN: &str = "1BitcoinEaterAddressDontSendf59kuE";

// A well-formed mainnet segwit address, a second destination for variety.
const BURN_SEGWIT: &str = "bc1qw508d6qejxtdg4y5r3zarvary0c5xw7kv8f3t4";

fn utxo(tag: u8, vout: u32, amount: u64, addr: Option<&str>) -> Utxo {
    Utxo { txid: [tag; 32], vout, amount, address: addr.map(|s| s.to_string()) }
}

fn expected_script(addr: &str) -> Vec<u8> {
    addr.parse::<bitcoin::Address<bitcoin::address::NetworkUnchecked>>()
        .unwrap()
        .assume_checked()
        .script_pubkey()
        .into_bytes()
}

#[test]
fn filter_keeps_only_amounts_below_threshold_in_order() {
    let sweeper = DustSweeper::new(1000);
    let listing = vec![
        utxo(0xA1, 0, 500, Some("x")),
        utxo(0xB2, 1, 2000, Some("y")),
        utxo(0xC3, 2, 999, None),
        utxo(0xD4, 3, 0, Some("z")),
    ];
    let dust = sweeper.get_dust_utxos(&listing);
    assert_eq!(dust.len(), 3);
    assert_eq!(dust[0].txid, [0xA1; 32]);
    assert_eq!(dust[1].txid, [0xC3; 32]);
    assert_eq!(dust[2].txid, [0xD4; 32]);
}

#[test]
fn filter_threshold_is_strict() {
    let sweeper = DustSweeper::new(1000);
    let listing = vec![utxo(0xA1, 0, 1000, Some("x")), utxo(0xB2, 1, 999, Some("x"))];
    let dust = sweeper.get_dust_utxos(&listing);
    assert_eq!(dust.len(), 1);
    assert_eq!(dust[0].amount, 999);
}

#[test]
fn grouping_partitions_by_address_in_first_seen_order() {
    let sweeper = DustSweeper::new(1000);
    let listing = vec![
        utxo(0xA1, 0, 100, Some("addr_x")),
        utxo(0xB2, 1, 200, Some("addr_y")),
        utxo(0xC3, 2, 300, Some("addr_x")),
    ];
    let groups = sweeper.group_utxos_by_address(&listing);
    assert_eq!(groups.len(), 2);
    assert_eq!(groups[0].address, "addr_x");
    assert_eq!(groups[0].utxos.len(), 2);
    assert_eq!(groups[0].utxos[0].txid, [0xA1; 32]);
    assert_eq!(groups[0].utxos[1].txid, [0xC3; 32]);
    assert_eq!(groups[1].address, "addr_y");
    assert_eq!(groups[1].utxos.len(), 1);
    assert_eq!(groups[1].utxos[0].txid, [0xB2; 32]);
}

#[test]
fn grouping_drops_utxos_without_an_address() {
    let sweeper = DustSweeper::new(1000);
    let listing = vec![utxo(0xA1, 0, 100, None), utxo(0xB2, 1, 200, Some("addr_x"))];
    let groups = sweeper.group_utxos_by_address(&listing);
    assert_eq!(groups.len(), 1);
    assert_eq!(groups[0].utxos.len(), 1);
    assert_eq!(groups[0].utxos[0].txid, [0xB2; 32]);
}

#[test]
fn one_dust_utxo_yields_one_transaction_paying_total_minus_fee() {
    // Listing: (A, 0, 500, X), (B, 1, 2000, Y); threshold 1000; fee 100.
    let sweeper = DustSweeper::new(1000);
    let listing = vec![utxo(0xAA, 0, 500, Some("x")), utxo(0xBB, 1, 2000, Some("y"))];
    let txs = sweeper.sweep(&listing, 100, BURN).unwrap();
    assert_eq!(txs.len(), 1);
    let tx = &txs[0];
    assert_eq!(tx.inputs.len(), 1);
    assert_eq!(tx.inputs[0].txid, [0xAA; 32]);
    assert_eq!(tx.inputs[0].vout, 0);
    assert_eq!(tx.outputs.len(), 1);
    assert_eq!(tx.outputs[0].value, 400);
    assert_eq!(tx.outputs[0].script_pubkey, expected_script(BURN));
}

#[test]
fn two_dust_utxos_of_one_address_share_one_transaction() {
    // Listing: (A, 0, 300, X), (C, 2, 400, X); threshold 1000; fee 500.
    let sweeper = DustSweeper::new(1000);
    let listing = vec![utxo(0xAA, 0, 300, Some("x")), utxo(0xCC, 2, 400, Some("x"))];
    let txs = sweeper.sweep(&listing, 500, BURN).unwrap();
    assert_eq!(txs.len(), 1);
    let tx = &txs[0];
    assert_eq!(tx.inputs.len(), 2);
    assert_eq!(tx.inputs[0].txid, [0xAA; 32]);
    assert_eq!(tx.inputs[1].txid, [0xCC; 32]);
    assert_eq!(tx.inputs[1].vout, 2);
    assert_eq!(tx.outputs[0].value, 200);
}

#[test]
fn fee_above_total_floors_the_output_at_zero() {
    // Same group as above, fee 1000 above the 700 total: the chosen policy
    // saturates, the sweep succeeds, and the single output pays zero.
    let sweeper = DustSweeper::new(1000);
    let listing = vec![utxo(0xAA, 0, 300, Some("x")), utxo(0xCC, 2, 400, Some("x"))];
    let txs = sweeper.sweep(&listing, 1000, BURN).unwrap();
    assert_eq!(txs.len(), 1);
    assert_eq!(txs[0].outputs[0].value, 0);
}

#[test]
fn fee_equal_to_total_also_floors_at_zero() {
    let sweeper = DustSweeper::new(1000);
    let listing = vec![utxo(0xAA, 0, 300, Some("x")), utxo(0xCC, 2, 400, Some("x"))];
    let txs = sweeper.sweep(&listing, 700, BURN).unwrap();
    assert_eq!(txs[0].outputs[0].value, 0);
}

#[test]
fn empty_listing_sweeps_to_zero_transactions() {
    let sweeper = DustSweeper::new(1000);
    let listing: Vec<Utxo> = Vec::new();
    let txs = sweeper.sweep(&listing, 100, BURN).unwrap();
    assert_eq!(txs.len(), 0);
}

#[test]
fn invalid_destination_aborts_before_any_transaction() {
    let sweeper = DustSweeper::new(1000);
    let listing = vec![utxo(0xAA, 0, 500, Some("x"))];
    let r = sweeper.sweep(&listing, 100, "not a bitcoin address");
    assert_eq!(r, Err(SweepError::InvalidAddress));
}

#[test]
fn invalid_destination_with_no_dust_is_still_a_success() {
    // With nothing to build, the destination is never resolved, as in a
    // sweep that stops at an empty dust set.
    let sweeper = DustSweeper::new(1000);
    let listing = vec![utxo(0xBB, 1, 2000, Some("y"))];
    let txs = sweeper.sweep(&listing, 100, "not a bitcoin address").unwrap();
    assert_eq!(txs.len(), 0);
}

#[test]
fn addressless_utxo_never_reaches_any_transaction_input() {
    let sweeper = DustSweeper::new(1000);
    let listing = vec![utxo(0xAA, 0, 500, None), utxo(0xBB, 1, 600, Some("x"))];
    let txs = sweeper.sweep(&listing, 100, BURN).unwrap();
    assert_eq!(txs.len(), 1);
    for tx in &txs {
        for input in &tx.inputs {
            assert_ne!(input.txid, [0xAA; 32]);
        }
    }
}

#[test]
fn empty_group_is_rejected_as_invalid_shape() {
    let sweeper = DustSweeper::new(1000);
    let empty: Vec<Utxo> = Vec::new();
    let r = sweeper.build_psbt(&empty, 100, BURN);
    assert_eq!(r, Err(SweepError::PsbtConstruction));
}

#[test]
fn build_psbt_reports_invalid_address_first() {
    let group = vec![utxo(0xAA, 0, 500, Some("x"))];
    let sweeper = DustSweeper::new(1000);
    let r = sweeper.build_psbt(&group, 100, "");
    assert_eq!(r, Err(SweepError::InvalidAddress));
}

#[test]
fn transaction_metadata_is_version_two_locktime_zero_rbf() {
    let sweeper = DustSweeper::new(1000);
    let group = vec![utxo(0xAA, 0, 500, Some("x")), utxo(0xBB, 3, 40, Some("x"))];
    let tx = sweeper.build_psbt(&group, 10, BURN_SEGWIT).unwrap();
    assert_eq!(tx.version, 2);
    assert_eq!(tx.lock_time, 0);
    for input in &tx.inputs {
        assert_eq!(input.sequence, 0xFFFF_FFFD);
    }
    assert_eq!(tx.outputs[0].value, 530);
    assert_eq!(tx.outputs[0].script_pubkey, expected_script(BURN_SEGWIT));
}

#[test]
fn repeated_sweeps_agree() {
    let sweeper = DustSweeper::new(1000);
    let listing = vec![
        utxo(0xAA, 0, 500, Some("addr_x")),
        utxo(0xBB, 1, 700, Some("addr_y")),
        utxo(0xCC, 2, 100, Some("addr_x")),
        utxo(0xDD, 3, 2000, Some("addr_y")),
        utxo(0xEE, 4, 50, None),
    ];
    let first = sweeper.sweep(&listing, 42, BURN).unwrap();
    let second = sweeper.sweep(&listing, 42, BURN).unwrap();
    assert_eq!(first, second);
}

#[test]
fn psbt_base64_round_trips_to_the_same_transaction() {
    let sweeper = DustSweeper::new(1000);
    let listing = vec![
        utxo(0x11, 0, 500, Some("addr_x")),
        utxo(0x22, 7, 300, Some("addr_x")),
    ];
    let txs = sweeper.sweep(&listing, 100, BURN).unwrap();
    assert_eq!(txs.len(), 1);
    let tx: &UnsignedTx = &txs[0];

    let encoded = DustSweeper::psbt_to_base64(tx);
    let bytes = base64::engine::general_purpose::STANDARD
        .decode(encoded.as_bytes())
        .unwrap();
    let psbt = bitcoin::psbt::Psbt::deserialize(&bytes).unwrap();
    let decoded = &psbt.unsigned_tx;

    assert_eq!(decoded.version.0, tx.version);
    assert_eq!(decoded.lock_time.to_consensus_u32(), tx.lock_time);
    assert_eq!(decoded.input.len(), tx.inputs.len());
    for (got, want) in decoded.input.iter().zip(tx.inputs.iter()) {
        let got_txid: [u8; 32] =
            <bitcoin::Txid as bitcoin::hashes::Hash>::to_byte_array(got.previous_output.txid);
        assert_eq!(got_txid, want.txid);
        assert_eq!(got.previous_output.vout, want.vout);
        assert_eq!(got.sequence.0, want.sequence);
        assert!(got.script_sig.is_empty());
        assert!(got.witness.is_empty());
    }
    assert_eq!(decoded.output.len(), 1);
    assert_eq!(decoded.output[0].value.to_sat(), tx.outputs[0].value);
    assert_eq!(decoded.output[0].script_pubkey.as_bytes(), tx.outputs[0].script_pubkey.as_slice());
}
