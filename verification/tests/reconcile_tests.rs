use monero_oracle::errors::OracleError;
use monero_oracle::reconcile::{
    classify_rejection, cycle_submissions, plan_backlog, process_block, SubmissionOutcome,
};
use monero_oracle::rpc::{accept_tx_batch, resolve_rpc_response};

#[test]
fn backlog_is_ascending_range_above_posted() {
    assert_eq!(plan_backlog(2, 5), vec![3, 4, 5]);
    assert_eq!(plan_backlog(0, 1), vec![1]);
}

#[test]
fn backlog_empty_when_up_to_date() {
    assert_eq!(plan_backlog(5, 5), Vec::<u64>::new());
    assert_eq!(plan_backlog(7, 3), Vec::<u64>::new());
}

#[test]
fn cycle_submits_every_height_when_all_accepted() {
    let outcomes = vec![
        SubmissionOutcome::Accepted,
        SubmissionOutcome::Accepted,
        SubmissionOutcome::Accepted,
    ];
    assert_eq!(cycle_submissions(2, 5, &outcomes), vec![3, 4, 5]);
}

#[test]
fn duplicate_rejection_does_not_halt_next_height() {
    let outcomes = vec![
        SubmissionOutcome::Accepted,
        SubmissionOutcome::RejectedDuplicate,
        SubmissionOutcome::Accepted,
    ];
    assert_eq!(cycle_submissions(2, 5, &outcomes), vec![3, 4, 5]);
}

#[test]
fn fatal_rejection_halts_rest_of_cycle() {
    let outcomes = vec![
        SubmissionOutcome::Accepted,
        SubmissionOutcome::RejectedOther,
        SubmissionOutcome::Accepted,
    ];
    assert_eq!(cycle_submissions(2, 5, &outcomes), vec![3, 4]);
}

#[test]
fn duplicate_wording_is_recognized() {
    assert_eq!(
        classify_rejection("server returned an error response: Block already posted"),
        SubmissionOutcome::RejectedDuplicate
    );
    assert_eq!(
        classify_rejection("execution reverted: Block exists"),
        SubmissionOutcome::RejectedDuplicate
    );
}

#[test]
fn other_rejection_wording_is_fatal() {
    assert_eq!(
        classify_rejection("insufficient funds for gas"),
        SubmissionOutcome::RejectedOther
    );
    assert_eq!(classify_rejection(""), SubmissionOutcome::RejectedOther);
}

#[test]
fn rpc_error_field_wins() {
    let r = resolve_rpc_response::<u64>(Some(7), Some("boom".to_string()));
    match r {
        Err(OracleError::Rpc(m)) => assert_eq!(m, "boom"),
        _ => panic!("expected a protocol error"),
    }
}

#[test]
fn rpc_result_handed_out() {
    let r = resolve_rpc_response::<u64>(Some(7), None);
    assert_eq!(r.unwrap(), 7);
}

#[test]
fn rpc_missing_result_is_error() {
    let r = resolve_rpc_response::<u64>(None, None);
    assert!(matches!(r, Err(OracleError::NoResult)));
}

#[test]
fn batch_status_must_be_success_marker() {
    let ok = accept_tx_batch::<u64>("OK".to_string(), Some(vec![1, 2]));
    assert_eq!(ok.unwrap(), vec![1, 2]);
    let empty = accept_tx_batch::<u64>("OK".to_string(), None);
    assert_eq!(empty.unwrap(), Vec::<u64>::new());
    let bad = accept_tx_batch::<u64>("BUSY".to_string(), Some(vec![1]));
    match bad {
        Err(OracleError::BadStatus(m)) => assert_eq!(m, "BUSY"),
        _ => panic!("expected a status error"),
    }
}

#[test]
fn process_block_of_empty_block_gives_zero_roots() {
    let hash_hex = "c".repeat(64);
    let post = process_block(42, &hash_hex, &vec![], &vec![]).unwrap();
    assert_eq!(post.height, 42);
    assert_eq!(post.block_hash, vec![0xcc; 32]);
    assert_eq!(post.tx_root, vec![0u8; 32]);
    assert_eq!(post.output_root, vec![0u8; 32]);
}

#[test]
fn process_block_rejects_malformed_tx_hash_entry() {
    let hash_hex = "c".repeat(64);
    let tx_hashes = vec!["a".repeat(64), "bad".to_string()];
    assert!(matches!(
        process_block(7, &hash_hex, &tx_hashes, &vec![]),
        Err(OracleError::Encoding)
    ));
}

#[test]
fn process_block_rejects_malformed_header_hash() {
    let bad = "zz".repeat(32);
    assert!(matches!(
        process_block(1, &bad, &vec![], &vec![]),
        Err(OracleError::Encoding)
    ));
}
