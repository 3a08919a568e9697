use exonum_neo4j::api::ApiError;
use exonum_neo4j::api::Neo4JApi;
use exonum_neo4j::api::TestApi;
use exonum_neo4j::hash;
use exonum_neo4j::hash::HexError;
use exonum_neo4j::neo4j::BlockChangesResponse;
use exonum_neo4j::neo4j::ExecuteResponse;
use exonum_neo4j::neo4j::Modification;
use exonum_neo4j::neo4j::TransactionChanges;
use exonum_neo4j::neo4j::TransactionResult;
use exonum_neo4j::schema::Ledger;
use exonum_neo4j::schema::Schema;
use exonum_neo4j::structures::ErrorMsg;
use exonum_neo4j::structures::Neo4jTransaction;
use exonum_neo4j::structures::NodeChange;
use exonum_neo4j::structures::PublicKey;
use exonum_neo4j::structures::Relation;
use exonum_neo4j::structures::Resolution;
use exonum_neo4j::structures::TransactionStatus;
use exonum_neo4j::transactions::AuditBlocks;
use exonum_neo4j::transactions::CommitQueries;
use exonum_neo4j::transactions::Error;
use exonum_neo4j::transactions::ExecutionError;

fn id(n: u8) -> hash::Hash {
    let mut bytes = [0u8; 32];
    bytes[0] = n;
    bytes[31] = 0xab;
    hash::Hash::new(bytes)
}

fn block(n: u8) -> hash::Hash {
    let mut bytes = [0xb0u8; 32];
    bytes[1] = n;
    hash::Hash::new(bytes)
}

fn submitter() -> PublicKey {
    PublicKey([7u8; 32])
}

fn ledger_with(ids: &[hash::Hash]) -> Schema {
    let mut schema = Schema::new(Ledger::new());
    for (i, h) in ids.iter().enumerate() {
        let tx = CommitQueries::new(&format!("CREATE (n{})", i), submitter(), *h);
        assert!(tx.execute(&mut schema).is_ok());
    }
    schema
}

fn success(h: &hash::Hash, nodes: &[&str]) -> TransactionChanges {
    TransactionChanges {
        transaction_id: h.to_hex(),
        result: TransactionResult::Success {
            modifications: vec![Modification {
                node_uuids: nodes.iter().map(|s| s.to_string()).collect(),
                description: "created".to_string(),
            }],
        },
    }
}

fn failure(h: &hash::Hash) -> TransactionChanges {
    TransactionChanges {
        transaction_id: h.to_hex(),
        result: TransactionResult::Failure {
            message: "syntax error".to_string(),
            failed_query: "CREATE (n".to_string(),
            error: "unexpected EOF".to_string(),
        },
    }
}

fn reply(transactions: Vec<TransactionChanges>) -> ExecuteResponse {
    ExecuteResponse::ChangeResponse(BlockChangesResponse { transactions })
}

fn unreachable_store() -> ExecuteResponse {
    ExecuteResponse::Error(ErrorMsg::new("connection refused"))
}

#[test]
fn submission_is_recorded_as_pending() {
    let mut schema = Schema::new(Ledger::new());
    let h = id(1);
    let tx = CommitQueries::new("CREATE (n)", submitter(), h);
    assert!(tx.verify());
    assert_eq!(tx.hash(), h);
    assert_eq!(tx.execute(&mut schema), Ok(()));
    let record = schema.neo4j_transaction(&h).expect("recorded");
    assert_eq!(record.status(), TransactionStatus::Pending);
    assert_eq!(record.queries(), "CREATE (n)");
    assert_eq!(record.pub_key(), submitter());
    assert_eq!(record.error_msg(), "");
    assert_eq!(record.result(), "");
    assert_eq!(schema.neo4j_transaction_ids(), vec![h]);
    assert_eq!(schema.neo4j_transaction(&id(2)), None);
}

#[test]
fn duplicate_submission_changes_nothing() {
    let mut schema = Schema::new(Ledger::new());
    let h = id(1);
    assert!(CommitQueries::new("CREATE (n)", submitter(), h).execute(&mut schema).is_ok());
    assert!(CommitQueries::new("CREATE (m)", PublicKey([9u8; 32]), h).execute(&mut schema).is_ok());
    let all = schema.neo4j_transactions();
    assert_eq!(all.len(), 1);
    assert_eq!(all[0].queries(), "CREATE (n)");
    assert_eq!(all[0].pub_key(), submitter());
    assert!(!schema.add_neo4j_transaction(Neo4jTransaction::new("x", submitter()), &h));
    assert!(schema.add_neo4j_transaction(Neo4jTransaction::new("x", submitter()), &id(2)));
    assert_eq!(schema.neo4j_transaction_ids(), vec![h, id(2)]);
}

#[test]
fn submissions_are_listed_in_insertion_order() {
    let schema = ledger_with(&[id(3), id(1), id(2)]);
    let all = Neo4JApi::get_queries(&schema);
    assert_eq!(all.len(), 3);
    assert_eq!(all[0].queries(), "CREATE (n0)");
    assert_eq!(all[1].queries(), "CREATE (n1)");
    assert_eq!(all[2].queries(), "CREATE (n2)");
    assert_eq!(schema.neo4j_transaction_ids(), vec![id(3), id(1), id(2)]);
}

#[test]
fn audit_records_success_and_history() {
    let h = id(1);
    let mut schema = ledger_with(&[h]);
    let chain = vec![block(1)];
    let replies = vec![reply(vec![success(&h, &["n1"])])];
    let report = AuditBlocks::new(100).execute(&mut schema, &chain, &replies).expect("no fault");
    assert_eq!(report.first_block, 0);
    assert_eq!(report.blocks_reconciled, 1);
    assert_eq!(report.interrupted, None);
    let record = schema.neo4j_transaction(&h).expect("recorded");
    assert_eq!(record.status(), TransactionStatus::Success);
    assert_eq!(record.result(), "SUCCESS");
    assert_eq!(record.error_msg(), "");
    assert_eq!(record.queries(), "CREATE (n0)");
    let log = schema.node_history("n1");
    assert_eq!(log.len(), 1);
    assert_eq!(log[0].get_transaction_id(), h);
    assert_eq!(log[0].description(), "created");
    assert_eq!(schema.node_history("n2").len(), 0);
    assert_eq!(schema.get_last_confirmed_block(), Some(block(1)));
}

#[test]
fn audit_records_failure_with_diagnostic() {
    let h2 = id(2);
    let mut schema = ledger_with(&[h2]);
    let chain = vec![block(1)];
    let replies = vec![reply(vec![failure(&h2)])];
    AuditBlocks::new(100).execute(&mut schema, &chain, &replies).expect("no fault");
    let record = schema.neo4j_transaction(&h2).expect("recorded");
    assert_eq!(record.status(), TransactionStatus::Error);
    let msg = record.error_msg();
    assert!(msg.contains("syntax error"));
    assert!(msg.contains("CREATE (n"));
    assert!(msg.contains("unexpected EOF"));
    assert_eq!(msg, "syntax error\nHappened in query: CREATE (n\nunexpected EOF");
    assert_eq!(record.result(), "");
    assert_eq!(schema.node_history("n1").len(), 0);
}

#[test]
fn store_failure_stops_the_run_at_the_last_good_block() {
    let mut schema = Schema::new(Ledger::new());
    let chain: Vec<hash::Hash> = (1..=10).map(block).collect();
    let audit = AuditBlocks::new(100);
    assert_eq!(audit.blocks_to_audit(&schema, &chain), Ok(chain.clone()));
    let mut replies: Vec<ExecuteResponse> = (0..5).map(|_| reply(vec![])).collect();
    replies.push(unreachable_store());
    let report = audit.execute(&mut schema, &chain, &replies).expect("no fault");
    assert_eq!(report.first_block, 0);
    assert_eq!(report.blocks_reconciled, 5);
    assert_eq!(
        report.interrupted,
        Some(Error::PossibleConnectionError(ErrorMsg::new("connection refused")))
    );
    assert_eq!(schema.get_last_confirmed_block(), Some(block(5)));
    assert_eq!(audit.first_block_to_audit(&schema, &chain), Ok(5));
    assert_eq!(audit.blocks_to_audit(&schema, &chain), Ok(chain[5..].to_vec()));
    let replies: Vec<ExecuteResponse> = (0..5).map(|_| reply(vec![])).collect();
    let report = audit.execute(&mut schema, &chain, &replies).expect("no fault");
    assert_eq!(report.first_block, 5);
    assert_eq!(report.blocks_reconciled, 5);
    assert_eq!(report.interrupted, None);
    assert_eq!(schema.get_last_confirmed_block(), Some(block(10)));
}

#[test]
fn store_failure_on_the_first_block_leaves_the_checkpoint() {
    let h = id(1);
    let mut schema = ledger_with(&[h]);
    let chain = vec![block(1), block(2)];
    let replies = vec![unreachable_store(), reply(vec![success(&h, &["n1"])])];
    let report = AuditBlocks::new(100).execute(&mut schema, &chain, &replies).expect("no fault");
    assert_eq!(report.blocks_reconciled, 0);
    assert!(report.interrupted.is_some());
    assert_eq!(schema.get_last_confirmed_block(), None);
    assert_eq!(schema.neo4j_transaction(&h).unwrap().status(), TransactionStatus::Pending);
}

#[test]
fn applying_a_result_twice_is_applying_it_once() {
    let h = id(1);
    let mut schema = ledger_with(&[h]);
    let chain = vec![block(1), block(2)];
    let replies = vec![
        reply(vec![success(&h, &["n1"]), success(&h, &["n1"])]),
        reply(vec![success(&h, &["n1"]), failure(&h)]),
    ];
    AuditBlocks::new(100).execute(&mut schema, &chain, &replies).expect("no fault");
    let record = schema.neo4j_transaction(&h).unwrap();
    assert_eq!(record.status(), TransactionStatus::Success);
    assert_eq!(record.result(), "SUCCESS");
    assert_eq!(schema.node_history("n1").len(), 1);
}

#[test]
fn reprocessing_a_block_changes_nothing() {
    let (a, b) = (id(1), id(2));
    let mut schema = ledger_with(&[a, b]);
    let changes = vec![BlockChangesResponse { transactions: vec![success(&a, &["n1", "n2"]), failure(&b)] }];
    let audit = AuditBlocks::new(100);
    audit.add_changes_to_exonum(&mut schema, &changes);
    let once = (schema.neo4j_transactions(), schema.node_history("n1"), schema.node_history("n2"));
    audit.add_changes_to_exonum(&mut schema, &changes);
    let twice = (schema.neo4j_transactions(), schema.node_history("n1"), schema.node_history("n2"));
    assert_eq!(once, twice);
    assert_eq!(once.1.len(), 1);
    assert_eq!(once.2.len(), 1);
}

#[test]
fn resolved_records_are_never_changed() {
    let (a, b) = (id(1), id(2));
    let mut schema = ledger_with(&[a, b]);
    let chain = vec![block(1), block(2)];
    let audit = AuditBlocks::new(1);
    audit.execute(&mut schema, &chain, &vec![reply(vec![failure(&a)])]).expect("no fault");
    let before = schema.neo4j_transaction(&a).unwrap();
    assert_eq!(before.status(), TransactionStatus::Error);
    audit
        .execute(&mut schema, &chain, &vec![reply(vec![success(&a, &["n1"]), success(&b, &["n2"])])])
        .expect("no fault");
    assert_eq!(schema.neo4j_transaction(&a).unwrap(), before);
    assert_eq!(schema.node_history("n1").len(), 0);
    assert_eq!(schema.neo4j_transaction(&b).unwrap().status(), TransactionStatus::Success);
    assert_eq!(schema.node_history("n2").len(), 1);
    assert!(!schema.update_neo4j_transaction(&a, Resolution::Success));
    assert!(!schema.update_neo4j_transaction(&id(9), Resolution::Success));
    assert_eq!(schema.neo4j_transaction(&a).unwrap(), before);
}

#[test]
fn audit_without_new_blocks_leaves_the_checkpoint() {
    let mut schema = Schema::new(Ledger::new());
    let chain = vec![block(1), block(2), block(3)];
    let audit = AuditBlocks::new(100);
    let all: Vec<ExecuteResponse> = (0..3).map(|_| reply(vec![])).collect();
    audit.execute(&mut schema, &chain, &all).expect("no fault");
    assert_eq!(schema.get_last_confirmed_block(), Some(block(3)));
    assert_eq!(audit.blocks_to_audit(&schema, &chain), Ok(vec![]));
    let report = audit.execute(&mut schema, &chain, &all).expect("no fault");
    assert_eq!(report.first_block, 3);
    assert_eq!(report.blocks_reconciled, 0);
    assert_eq!(report.interrupted, None);
    assert_eq!(schema.get_last_confirmed_block(), Some(block(3)));
    let empty_chain: Vec<hash::Hash> = vec![];
    let mut fresh = Schema::new(Ledger::new());
    let report = audit.execute(&mut fresh, &empty_chain, &all).expect("no fault");
    assert_eq!(report.blocks_reconciled, 0);
    assert_eq!(fresh.get_last_confirmed_block(), None);
}

#[test]
fn cold_start_resolves_every_confirmed_submission() {
    let ids: Vec<hash::Hash> = (1..=6).map(id).collect();
    let mut schema = ledger_with(&ids);
    let chain: Vec<hash::Hash> = (1..=3).map(block).collect();
    let replies = vec![
        reply(vec![success(&ids[0], &["n1"]), failure(&ids[1])]),
        reply(vec![success(&ids[2], &["n1", "n3"])]),
        reply(vec![failure(&ids[3]), success(&ids[4], &[]), success(&ids[5], &["n3"])]),
    ];
    let report = AuditBlocks::new(3).execute(&mut schema, &chain, &replies).expect("no fault");
    assert_eq!(report.blocks_reconciled, 3);
    assert_eq!(schema.get_last_confirmed_block(), Some(block(3)));
    let statuses: Vec<TransactionStatus> =
        schema.neo4j_transactions().iter().map(|t| t.status()).collect();
    assert_eq!(
        statuses,
        vec![
            TransactionStatus::Success,
            TransactionStatus::Error,
            TransactionStatus::Success,
            TransactionStatus::Error,
            TransactionStatus::Success,
            TransactionStatus::Success,
        ]
    );
    let n1: Vec<hash::Hash> =
        schema.node_history("n1").iter().map(|c| c.get_transaction_id()).collect();
    assert_eq!(n1, vec![ids[0], ids[2]]);
    let n3: Vec<hash::Hash> =
        schema.node_history("n3").iter().map(|c| c.get_transaction_id()).collect();
    assert_eq!(n3, vec![ids[2], ids[5]]);
}

#[test]
fn a_run_reconciles_no_more_blocks_than_its_cap() {
    let mut schema = Schema::new(Ledger::new());
    let chain: Vec<hash::Hash> = (1..=10).map(block).collect();
    let audit = AuditBlocks::new(4);
    assert_eq!(audit.blocks_to_audit(&schema, &chain), Ok(chain[..4].to_vec()));
    let replies: Vec<ExecuteResponse> = (0..10).map(|_| reply(vec![])).collect();
    let report = audit.execute(&mut schema, &chain, &replies).expect("no fault");
    assert_eq!(report.blocks_reconciled, 4);
    assert_eq!(report.interrupted, None);
    assert_eq!(schema.get_last_confirmed_block(), Some(block(4)));
    assert_eq!(audit.blocks_to_audit(&schema, &chain), Ok(chain[4..8].to_vec()));
    audit.execute(&mut schema, &chain, &replies).expect("no fault");
    audit.execute(&mut schema, &chain, &replies).expect("no fault");
    assert_eq!(schema.get_last_confirmed_block(), Some(block(10)));
    let none = AuditBlocks::new(0);
    let mut fresh = Schema::new(Ledger::new());
    assert_eq!(none.execute(&mut fresh, &chain, &replies).unwrap().blocks_reconciled, 0);
    assert_eq!(fresh.get_last_confirmed_block(), None);
}

#[test]
fn missing_replies_end_the_run_without_a_fault() {
    let mut schema = Schema::new(Ledger::new());
    let chain: Vec<hash::Hash> = (1..=4).map(block).collect();
    let replies = vec![reply(vec![]), reply(vec![])];
    let report = AuditBlocks::new(100).execute(&mut schema, &chain, &replies).expect("no fault");
    assert_eq!(report.blocks_reconciled, 2);
    assert_eq!(report.interrupted, None);
    assert_eq!(schema.get_last_confirmed_block(), Some(block(2)));
}

#[test]
fn unknown_checkpoint_is_an_integrity_fault() {
    let h = id(1);
    let mut schema = ledger_with(&[h]);
    schema.set_last_confirmed_block(block(77));
    let chain = vec![block(1), block(2)];
    let replies = vec![reply(vec![success(&h, &["n1"])])];
    let audit = AuditBlocks::new(100);
    let fault = Error::DataBaseError(ErrorMsg::new("the last confirmed block is not in the ledger"));
    assert_eq!(audit.first_block_to_audit(&schema, &chain), Err(Error::DataBaseError(ErrorMsg::new("the last confirmed block is not in the ledger"))));
    assert_eq!(audit.blocks_to_audit(&schema, &chain).err(), Some(Error::DataBaseError(ErrorMsg::new("the last confirmed block is not in the ledger"))));
    assert_eq!(audit.retrieve_changes_from_neo4j(&schema, &chain, &replies).err(), Some(fault));
    let err = audit.execute(&mut schema, &chain, &replies).expect_err("fault");
    assert_eq!(err.code, 1);
    assert_eq!(err.description, "Database error: the last confirmed block is not in the ledger");
    assert_eq!(schema.get_last_confirmed_block(), Some(block(77)));
    assert_eq!(schema.neo4j_transaction(&h).unwrap().status(), TransactionStatus::Pending);
    assert_eq!(schema.node_history("n1").len(), 0);
}

#[test]
fn malformed_transaction_id_skips_only_that_result() {
    let (a, b) = (id(1), id(2));
    let mut schema = ledger_with(&[a, b]);
    let chain = vec![block(1)];
    let mut bad = success(&a, &["n1"]);
    bad.transaction_id = "not a hash".to_string();
    let mut short = success(&a, &["n1"]);
    short.transaction_id = "abcd".to_string();
    let unknown = success(&id(9), &["n9"]);
    let replies = vec![reply(vec![bad, short, unknown, success(&b, &["n2"])])];
    let report = AuditBlocks::new(100).execute(&mut schema, &chain, &replies).expect("no fault");
    assert_eq!(report.blocks_reconciled, 1);
    assert_eq!(schema.neo4j_transaction(&a).unwrap().status(), TransactionStatus::Pending);
    assert_eq!(schema.neo4j_transaction(&b).unwrap().status(), TransactionStatus::Success);
    assert_eq!(schema.node_history("n1").len(), 0);
    assert_eq!(schema.node_history("n9").len(), 0);
    assert_eq!(schema.node_history("n2").len(), 1);
    assert_eq!(schema.get_last_confirmed_block(), Some(block(1)));
}

#[test]
fn upper_case_transaction_id_is_accepted() {
    let a = id(0xe1);
    let mut schema = ledger_with(&[a]);
    let mut tc = success(&a, &["n1"]);
    tc.transaction_id = tc.transaction_id.to_uppercase();
    AuditBlocks::new(100).add_changes_to_exonum(
        &mut schema,
        &vec![BlockChangesResponse { transactions: vec![tc] }],
    );
    assert_eq!(schema.neo4j_transaction(&a).unwrap().status(), TransactionStatus::Success);
}

#[test]
fn a_change_is_filed_once_under_each_node_it_touched() {
    let a = id(1);
    let mut schema = ledger_with(&[a]);
    let chain = vec![block(1)];
    let replies = vec![reply(vec![success(&a, &["n1", "n2", "n1"])])];
    AuditBlocks::new(100).execute(&mut schema, &chain, &replies).expect("no fault");
    assert_eq!(schema.node_history("n1").len(), 1);
    assert_eq!(schema.node_history("n2").len(), 1);
    let change = NodeChange::new(
        vec!["b".to_string(), "a".to_string(), "b".to_string(), "c".to_string(), "a".to_string()],
        "d",
        a,
    );
    assert_eq!(change.get_uuis(), vec!["b".to_string(), "a".to_string(), "c".to_string()]);
}

#[test]
fn retrieve_takes_replies_up_to_the_first_fault() {
    let a = id(1);
    let schema = ledger_with(&[a]);
    let chain: Vec<hash::Hash> = (1..=4).map(block).collect();
    let replies = vec![
        reply(vec![success(&a, &["n1"])]),
        reply(vec![]),
        unreachable_store(),
        reply(vec![failure(&a)]),
    ];
    let changes = AuditBlocks::new(100).retrieve_changes_from_neo4j(&schema, &chain, &replies).unwrap();
    assert_eq!(
        changes,
        vec![
            BlockChangesResponse { transactions: vec![success(&a, &["n1"])] },
            BlockChangesResponse { transactions: vec![] },
        ]
    );
    let capped = AuditBlocks::new(1).retrieve_changes_from_neo4j(&schema, &chain, &replies).unwrap();
    assert_eq!(capped.len(), 1);
}

#[test]
fn update_last_block_moves_over_the_reconciled_blocks() {
    let mut schema = Schema::new(Ledger::new());
    let chain: Vec<hash::Hash> = (1..=4).map(block).collect();
    let audit = AuditBlocks::new(100);
    audit.update_last_block(&mut schema, &chain, 0);
    assert_eq!(schema.get_last_confirmed_block(), None);
    audit.update_last_block(&mut schema, &chain, 5);
    assert_eq!(schema.get_last_confirmed_block(), None);
    audit.update_last_block(&mut schema, &chain, 2);
    assert_eq!(schema.get_last_confirmed_block(), Some(block(2)));
    audit.update_last_block(&mut schema, &chain, 3);
    assert_eq!(schema.get_last_confirmed_block(), Some(block(2)));
    audit.update_last_block(&mut schema, &chain, 2);
    assert_eq!(schema.get_last_confirmed_block(), Some(block(4)));
}

#[test]
fn hash_round_trips_through_hex() {
    let mut bytes = [0u8; 32];
    for (i, b) in bytes.iter_mut().enumerate() {
        *b = (i as u8) * 8 + 1;
    }
    let h = hash::Hash::new(bytes);
    let text = h.to_hex();
    assert_eq!(text, "0109111921293139414951596169717981899199a1a9b1b9c1c9d1d9e1e9f1f9");
    assert_eq!(hash::Hash::from_hex(&text), Ok(h));
    assert_eq!(hash::Hash::from_hex(&text.to_uppercase()), Ok(h));
    assert_eq!(hash::Hash::zero().to_hex(), "0".repeat(64));
    assert_eq!(hash::Hash::from_hex(&"0".repeat(64)), Ok(hash::Hash::zero()));
    assert!(h.same(&hash::Hash::new(bytes)));
    assert!(!h.same(&hash::Hash::zero()));
    assert_eq!(hash::Hash::from_slice(&bytes), Some(h));
    assert_eq!(hash::Hash::from_slice(&bytes[1..]), None);
    assert_eq!(hash::HASH_SIZE, 32);
}

#[test]
fn malformed_hex_is_refused_with_its_fault() {
    assert_eq!(hash::Hash::from_hex("abc"), Err(HexError::OddLength));
    assert_eq!(
        hash::Hash::from_hex("12g4"),
        Err(HexError::InvalidHexCharacter { c: 'g', index: 2 })
    );
    assert_eq!(
        hash::Hash::from_hex("zz"),
        Err(HexError::InvalidHexCharacter { c: 'z', index: 0 })
    );
    assert_eq!(hash::Hash::from_hex("abcd"), Err(HexError::InvalidStringLength));
    assert_eq!(hash::Hash::from_hex(""), Err(HexError::InvalidStringLength));
    assert_eq!(hash::Hash::from_hex(&"0".repeat(66)), Err(HexError::InvalidStringLength));
    assert_eq!(hash::Hash::from_hex(&"0".repeat(63)), Err(HexError::OddLength));
}

#[test]
fn transaction_lookup_by_hex_text() {
    let h = id(1);
    let schema = ledger_with(&[h]);
    let found = Neo4JApi::get_transaction(&schema, &h.to_hex()).expect("found");
    assert_eq!(found.queries(), "CREATE (n0)");
    assert_eq!(found.status(), TransactionStatus::Pending);
    assert_eq!(Neo4JApi::get_transaction(&schema, &id(2).to_hex()), Err(ApiError::NoQueryFound));
    assert_eq!(
        Neo4JApi::get_transaction(&schema, "xyz"),
        Err(ApiError::BadHash(HexError::OddLength))
    );
    assert_eq!(
        Neo4JApi::get_transaction(&schema, "ab"),
        Err(ApiError::BadHash(HexError::InvalidStringLength))
    );
    assert_eq!(ApiError::NoQueryFound.message(), "No query found");
    assert_eq!(ApiError::BadHash(HexError::OddLength).message(), "Error unpacking hash");
}

#[test]
fn node_history_lines_show_the_causing_transaction() {
    let (a, b) = (id(1), id(2));
    let mut schema = ledger_with(&[a, b]);
    let chain = vec![block(1)];
    let replies = vec![reply(vec![success(&a, &["n1"]), success(&b, &["n1", "n2"])])];
    AuditBlocks::new(100).execute(&mut schema, &chain, &replies).expect("no fault");
    let lines = Neo4JApi::get_node_history(&schema, "n1");
    assert_eq!(lines.len(), 2);
    assert_eq!(lines[0].transaction_id, a.to_hex());
    assert_eq!(lines[0].description, "created");
    assert_eq!(lines[1].transaction_id, b.to_hex());
    assert_eq!(Neo4JApi::get_node_history(&schema, "n2").len(), 1);
    assert!(Neo4JApi::get_node_history(&schema, "nobody").is_empty());
}

#[test]
fn post_transaction_reports_the_identifier_and_the_fault() {
    let h = id(5);
    let ok = Neo4JApi::post_transaction(h, Ok(()));
    assert_eq!(ok.tx_hash, h);
    assert_eq!(ok.error_msg, "");
    let failed = Neo4JApi::post_transaction(h, Err("queue full".to_string()));
    assert_eq!(failed.tx_hash, h);
    assert_eq!(failed.error_msg, "got error: queue full");
    assert_eq!(TestApi::post_transaction(h, Ok(())).map(|r| r.tx_hash), Ok(h));
    assert_eq!(
        TestApi::post_transaction(h, Err("queue full".to_string())),
        Err("queue full".to_string())
    );
}

#[test]
fn faults_are_reported_with_code_and_description() {
    let db = ExecutionError::from(Error::DataBaseError(ErrorMsg::new("broken")));
    assert_eq!(db.code, 1);
    assert_eq!(db.description, "Database error: broken");
    let conn = ExecutionError::from(Error::PossibleConnectionError(ErrorMsg::new("timeout")));
    assert_eq!(conn.code, 2);
    assert_eq!(conn.description, "Possible connection error: timeout");
    let plain = ExecutionError::from_msg(ErrorMsg::new("plain"));
    assert_eq!(plain.code, 1);
    assert_eq!(plain.description, "plain");
    assert_eq!(ErrorMsg::new("m").msg(), "m");
}

#[test]
fn relations_are_replaced_wholesale() {
    let mut schema = Schema::new(Ledger::new());
    let (k1, k2) = (id(1), id(2));
    assert_eq!(schema.relation(&k1), None);
    schema.add_relation(Relation::new("r1", "KNOWS", "n1", "n2"), k1);
    schema.add_relation(Relation::new("r2", "LIKES", "n2", "n3"), k2);
    assert_eq!(schema.relation(&k1), Some(Relation::new("r1", "KNOWS", "n1", "n2")));
    schema.add_relation(Relation::new("r1", "OWNS", "n4", "n5"), k1);
    assert_eq!(schema.relation(&k1), Some(Relation::new("r1", "OWNS", "n4", "n5")));
    assert_eq!(
        schema.relations(),
        vec![Relation::new("r1", "OWNS", "n4", "n5"), Relation::new("r2", "LIKES", "n2", "n3")]
    );
}

#[test]
fn history_and_audited_blocks_are_append_only() {
    let mut schema = Schema::new(Ledger::new());
    let c1 = NodeChange::new(vec!["n1".to_string()], "first", id(1));
    let c2 = NodeChange::new(vec!["n1".to_string()], "second", id(2));
    schema.add_node_history("n1", &c1);
    schema.add_node_history("n2", &c1);
    schema.add_node_history("n1", &c2);
    assert_eq!(schema.node_history("n1"), vec![c1.clone(), c2.clone()]);
    assert_eq!(schema.node_history("n2"), vec![c1.clone()]);
    schema.add_audited_block(&id(7), block(1));
    schema.add_audited_block(&id(8), block(2));
    schema.add_audited_block(&id(7), block(3));
    assert_eq!(schema.audited_blocks(&id(7)), vec![block(1), block(3)]);
    assert_eq!(schema.audited_blocks(&id(8)), vec![block(2)]);
    assert_eq!(schema.audited_blocks(&id(9)), Vec::<hash::Hash>::new());
    let log: Vec<(String, hash::Hash)> =
        schema.history().into_iter().map(|l| (l.node, l.change.get_transaction_id())).collect();
    assert_eq!(
        log,
        vec![("n1".to_string(), id(1)), ("n2".to_string(), id(1)), ("n1".to_string(), id(2))]
    );
    let ledger = schema.into_view();
    let schema = Schema::new(ledger);
    assert_eq!(schema.node_history("n1").len(), 2);
}
