use trx_engine::{EventStore, ProjectionStore};

fn run_engine_from_csv(input: &str) -> ProjectionStore {
    let mut event_store = EventStore::default();
    let mut projection_store = ProjectionStore::default();
    trx_engine::process_csv_reader(input.as_bytes(), &mut event_store, &mut projection_store);
    projection_store
}

#[test]
fn simple_flow_simple_deposit_withdraw_dispute_resolve_matches_expected_balances() {
    let input = "type,client,tx,amount\n\
                 deposit,101,1,10.0\n\
                 deposit,101,2,3.1002\n\
                 withdrawal,101,3,5.6548\n\
                 dispute,101,2\n\
                 resolve,101,2\n";

    let projection_store = run_engine_from_csv(input);
    let output = projection_store.output();
    let row = output
        .iter()
        .find(|r| r.client_id == 101)
        .expect("expected client not in the output");

    assert_eq!(row.available, 74454);
    assert_eq!(row.held, 0);
    assert_eq!(row.total, 74454);
    assert_eq!(row.locked, false);
}
