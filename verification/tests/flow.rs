use trx_engine::{ClientAccountDto, EventStore, ProjectionStore};

fn run_engine_from_csv(input: &str) -> ProjectionStore {
    let mut event_store = EventStore::default();
    let mut projection_store = ProjectionStore::default();
    trx_engine::process_csv_reader(input.as_bytes(), &mut event_store, &mut projection_store);
    projection_store
}

fn find_client(rows: &[ClientAccountDto], client_id: u16) -> &ClientAccountDto {
    rows.iter()
        .find(|r| r.client_id == client_id)
        .expect("expected client not in the output")
}

// Balances are fixed-point integers in ten-thousandths of a unit:
// 74454 stands for 7.4454.

#[test]
fn flow_simple_deposit_withdraw_dispute_resolve_matches_expected_balances() {
    let input = "type,client,tx,amount\n\
                 deposit,101,1,10.0\n\
                 deposit,101,2,3.1002\n\
                 withdrawal,101,3,5.6548\n\
                 dispute,101,2\n\
                 resolve,101,2\n";

    let projection_store = run_engine_from_csv(input);
    let output = projection_store.output();
    let row = find_client(&output, 101);

    assert_eq!(row.available, 74454);
    assert_eq!(row.held, 0);
    assert_eq!(row.total, 74454);
    assert_eq!(row.locked, false);
}

#[test]
fn simple_deposit_withdraw_dispute_chargeback_gets_locked() {
    let input = "type,client,tx,amount\n\
                 deposit,101,1,10.0\n\
                 deposit,101,2,3.1002\n\
                 withdrawal,101,3,5.6548\n\
                 dispute,101,2\n\
                 chargeback,101,2\n";

    let projection_store = run_engine_from_csv(input);
    let output = projection_store.output();
    let row = find_client(&output, 101);

    assert_eq!(row.available, 43452);
    assert_eq!(row.held, 0);
    assert_eq!(row.total, 43452);
    assert_eq!(row.locked, true);
}

#[test]
fn dispute_without_resolve_matches_expected_balances() {
    let input = "type,client,tx,amount\n\
                 deposit,101,1,2.6319\n\
                 deposit,101,2,3.4001\n\
                 dispute,101,2\n";

    let projection_store = run_engine_from_csv(input);
    let output = projection_store.output();
    let row = find_client(&output, 101);

    assert_eq!(row.available, 26319);
    assert_eq!(row.held, 34001);
    assert_eq!(row.total, 60320);
    assert_eq!(row.locked, false);
}

#[test]
fn multiple_disputes_matches_expected_balances() {
    let input = "type,client,tx,amount\n\
                 deposit,101,1,5.0\n\
                 deposit,101,2,1.0\n\
                 dispute,101,2\n\
                 resolve,101,2\n\
                 dispute,101,2\n";

    let projection_store = run_engine_from_csv(input);
    let output = projection_store.output();
    let row = find_client(&output, 101);

    assert_eq!(row.available, 50000);
    assert_eq!(row.held, 10000);
    assert_eq!(row.total, 60000);
    assert_eq!(row.locked, false);
}

#[test]
fn no_trx_for_dispute_matches_expected_balances() {
    let input = "type,client,tx,amount\n\
                 deposit,101,1,9.0\n\
                 dispute,101,42\n";

    let projection_store = run_engine_from_csv(input);
    let output = projection_store.output();
    let row = find_client(&output, 101);

    assert_eq!(row.available, 90000);
    assert_eq!(row.held, 0);
    assert_eq!(row.total, 90000);
    assert_eq!(row.locked, false);
}

#[test]
fn error_in_input_matches_expected_balances() {
    let input = "type,client,tx,amount\n\
                 deposit,101,1,20.0\n\
                 not_a_command,101,9,1.0\n\
                 deposit,101,2,7.0\n\
                 deposit,abc,3,5.0\n\
                 withdrawal,101,4,\n";

    let projection_store = run_engine_from_csv(input);
    let output = projection_store.output();
    let row = find_client(&output, 101);

    assert_eq!(row.available, 270000);
    assert_eq!(row.held, 0);
    assert_eq!(row.total, 270000);
    assert_eq!(row.locked, false);
}
