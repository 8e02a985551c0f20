//! Agent-side behaviour: the receive-transaction discipline, the argument
//! block that crosses the loadable-module boundary, and the maildrop agent's
//! file naming and selection.

use dandelion::agent::{external_args, parse_args, HostBug, RecvState};
use dandelion::maildrop::{is_matching_name, message_filename, next_counter, parse_config,
    temp_filename, ConfigError};
use dandelion::priority::Priority;

#[test]
fn recv_discipline() {
    let mut state = RecvState::new();
    // No reads or commits outside a transaction.
    assert_eq!(state.check_read(0), Err(HostBug::NotInTxn));
    assert_eq!(state.commit(0), Err(HostBug::NotInTxn));
    // A transaction of two messages.
    assert!(state.begin(2).is_ok());
    assert_eq!(state.begin(1), Err(HostBug::AlreadyInTxn));
    assert!(state.check_read(0).is_ok());
    assert!(state.check_read(1).is_ok());
    assert_eq!(state.check_read(2), Err(HostBug::ReadRange));
    assert_eq!(state.commit(3), Err(HostBug::CommitRange));
    assert!(state.commit(1).is_ok());
    // The transaction is closed: a new one may start.
    assert!(state.begin(0).is_ok());
    // Abort is a no-op outside a transaction.
    state.abort();
    state.abort();
    assert!(state.begin(5).is_ok());
}

#[test]
fn args_round_trip() {
    let args: Vec<Vec<u8>> = vec![b"inbox=/tmp/in".to_vec(), b"outbox=/tmp/out".to_vec()];
    let block = external_args(&args).expect("valid arguments");
    assert_eq!(block, b"inbox=/tmp/in\0outbox=/tmp/out\0\0".to_vec());
    let parsed = parse_args(&block).expect("well-terminated block");
    assert_eq!(parsed, args);
}

#[test]
fn empty_args_encode_to_one_nul() {
    let args: Vec<Vec<u8>> = Vec::new();
    let block = external_args(&args).expect("empty list is fine");
    assert_eq!(block, vec![0]);
    let parsed = parse_args(&block).expect("terminated");
    assert!(parsed.is_empty());
}

#[test]
fn bad_args_are_rejected() {
    assert!(external_args(&vec![Vec::new()]).is_err());
    assert!(external_args(&vec![b"a\0b".to_vec()]).is_err());
    // A block with no terminating empty string cannot be parsed.
    assert!(parse_args(&b"abc".to_vec()).is_err());
}

#[test]
fn maildrop_config_parsing() {
    let ok = parse_config(&vec![b"inbox=/var/in".to_vec(), b"outbox=/var/out".to_vec()])
        .expect("both given");
    assert_eq!(ok.inbox, b"/var/in".to_vec());
    assert_eq!(ok.outbox, b"/var/out".to_vec());

    // The last occurrence wins.
    let last = parse_config(&vec![
        b"inbox=/one".to_vec(),
        b"outbox=/out".to_vec(),
        b"inbox=/two".to_vec(),
    ])
    .expect("both given");
    assert_eq!(last.inbox, b"/two".to_vec());

    assert_eq!(
        parse_config(&vec![b"mailbox=/x".to_vec()]),
        Err(ConfigError::UnknownArgument),
    );
    assert_eq!(
        parse_config(&vec![b"outbox=/out".to_vec()]),
        Err(ConfigError::MissingInbox),
    );
    assert_eq!(
        parse_config(&vec![b"inbox=/in".to_vec()]),
        Err(ConfigError::MissingOutbox),
    );
}

#[test]
fn counter_wraps() {
    assert_eq!(next_counter(0), (0, 1));
    assert_eq!(next_counter(41), (41, 42));
    assert_eq!(next_counter(u32::MAX), (u32::MAX, 0));
}

#[test]
fn outbox_file_names() {
    let name = message_filename(3, 17, 0xab);
    assert_eq!(name, b"000000000003-000000017-000000ab.dmxf".to_vec());
    let temp = temp_filename(3, 17, 0xab);
    assert_eq!(temp, b"000000000003-000000017-000000ab.dmxf.tmp".to_vec());
    // Wide values overflow their fields rather than truncating.
    let wide = message_filename(1234567890123456, 999999999, 0xdeadbeef);
    assert_eq!(wide, b"1234567890123456-999999999-deadbeef.dmxf".to_vec());
}

#[test]
fn inbox_selection() {
    assert!(is_matching_name(&b"000000000003-000000017-000000ab.dmxf".to_vec()));
    assert!(!is_matching_name(&b"000000000003-000000017-000000ab.dmxf.tmp".to_vec()));
    assert!(!is_matching_name(&b".hidden.dmxf".to_vec()));
    assert!(!is_matching_name(&b"notes.txt".to_vec()));
    assert!(!is_matching_name(&b"mxf".to_vec()));
    // A name a maildrop itself produced is always selected.
    let produced = message_filename(99, 5, 7);
    assert!(is_matching_name(&produced));
    let half_written = temp_filename(99, 5, 7);
    assert!(!is_matching_name(&half_written));
}

#[test]
fn priority_ordering() {
    assert!(Priority::Least < Priority::Low);
    assert!(Priority::Low < Priority::Medium);
    assert!(Priority::Medium < Priority::High);
    assert!(Priority::High > Priority::Least);
    assert!(Priority::Medium == Priority::Medium);
}

#[test]
fn base64_rendering() {
    let mut out: Vec<u8> = Vec::new();
    dandelion::printable::print_base64(&mut out, &b"Man".to_vec());
    assert_eq!(out, b"TWFu".to_vec());
    out.clear();
    dandelion::printable::print_base64(&mut out, &b"Ma".to_vec());
    assert_eq!(out, b"TWE=".to_vec());
    out.clear();
    dandelion::printable::print_base64(&mut out, &b"M".to_vec());
    assert_eq!(out, b"TQ==".to_vec());
    out.clear();
    dandelion::printable::print_public_bytes(&mut out, &vec![0u8; 96]);
    assert_eq!(out, b"... 96 bytes omitted".to_vec());
    out.clear();
    dandelion::printable::print_secret_bytes(&mut out);
    assert_eq!(out, b"<redacted>".to_vec());
}
