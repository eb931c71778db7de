use conductor::collector::{
    backoff_delay_ms, default_native_asset_id, derive_rollup_id, handle_send_outcome,
    make_sequence_action, LoopDirective, SendOutcome, Status, BACKOFF_BASE_MS, BACKOFF_MAX_MS,
    MAX_CONNECT_ATTEMPTS, SEND_TIMEOUT_MS,
};

fn hex(bytes: &[u8]) -> String {
    let mut out = String::new();
    for b in bytes {
        out.push_str(&format!("{:02x}", b));
    }
    out
}

#[test]
fn rollup_id_is_sha256_of_chain_name() {
    // SHA-256 of the empty string, a published test vector.
    let id = derive_rollup_id(&Vec::new());
    assert_eq!(
        hex(&id),
        "e3b0c44298fc1c149afbf4c8996fb92427ae41e4649b934ca495991b7852b855"
    );

    // SHA-256 of "abc", a published test vector.
    let id = derive_rollup_id(&vec![b'a', b'b', b'c']);
    assert_eq!(
        hex(&id),
        "ba7816bf8f01cfea414140de5dae2223b00361a396177a9cb410ff61f20015ad"
    );
}

#[test]
fn rollup_id_is_deterministic_and_32_bytes() {
    let name = vec![b'd', b'e', b'm', b'o'];
    let first = derive_rollup_id(&name);
    let second = derive_rollup_id(&name);
    assert_eq!(first, second);
    assert_eq!(first.len(), 32);
    assert_ne!(first, name);
}

#[test]
fn default_fee_asset_is_hash_of_denomination() {
    let asset = default_native_asset_id();
    assert_eq!(asset.len(), 32);
    assert_eq!(asset, derive_rollup_id(&vec![b'n', b'r', b'i', b'a']));
}

#[test]
fn sequence_action_wraps_transaction() {
    let rollup_id = derive_rollup_id(&vec![b'd', b'e', b'm', b'o']);
    let data = vec![0xde, 0xad, 0xbe, 0xef];
    let action = make_sequence_action(&rollup_id, data.clone());
    assert_eq!(action.rollup_id, rollup_id);
    assert_eq!(action.data, data);
    assert_eq!(action.fee_asset_id, default_native_asset_id());
}

#[test]
fn status_starts_disconnected() {
    let mut status = Status::new();
    assert!(!status.is_connected());
    status.set_connected(true);
    assert!(status.is_connected());
    status.set_connected(false);
    assert!(!status.is_connected());
}

#[test]
fn backoff_doubles_from_base_and_caps() {
    assert_eq!(backoff_delay_ms(0), 500);
    assert_eq!(backoff_delay_ms(1), 500);
    assert_eq!(backoff_delay_ms(2), 1000);
    assert_eq!(backoff_delay_ms(3), 2000);
    assert_eq!(backoff_delay_ms(7), 32000);
    assert_eq!(backoff_delay_ms(8), 60000);
    assert_eq!(backoff_delay_ms(100), 60000);
    assert_eq!(backoff_delay_ms(MAX_CONNECT_ATTEMPTS), 60000);
    assert_eq!(BACKOFF_BASE_MS, 500);
    assert_eq!(BACKOFF_MAX_MS, 60000);
}

#[test]
fn send_timeout_drops_and_continues() {
    assert_eq!(SEND_TIMEOUT_MS, 500);
    assert!(matches!(
        handle_send_outcome(&SendOutcome::Sent),
        LoopDirective::Continue
    ));
    assert!(matches!(
        handle_send_outcome(&SendOutcome::TimedOut),
        LoopDirective::Continue
    ));
    assert!(matches!(
        handle_send_outcome(&SendOutcome::Closed),
        LoopDirective::Exit
    ));
}
