use trx_engine::{
    ClientAccount, Command, CommandHandler, EventStore, Outcome, ProjectionStore, Reason,
};

fn stores() -> (EventStore, ProjectionStore) {
    (EventStore::default(), ProjectionStore::default())
}

fn handle(es: &mut EventStore, ps: &mut ProjectionStore, cmd: Command) -> Outcome {
    CommandHandler::handle_command(es, ps, cmd)
}

fn balances(ps: &ProjectionStore, client_id: u16) -> (i64, i64, i64, bool) {
    let rows = ps.output();
    let row = rows
        .iter()
        .find(|r| r.client_id == client_id)
        .expect("expected client not in the output");
    (row.available, row.held, row.total, row.locked)
}

#[test]
fn deposit_is_accepted_and_credited() {
    let (mut es, mut ps) = stores();
    let outcome = handle(
        &mut es,
        &mut ps,
        Command::Deposit { client_id: 7, trx_id: 1, amount: 25_000 },
    );
    assert_eq!(outcome, Outcome::Accepted);
    assert_eq!(balances(&ps, 7), (25_000, 0, 25_000, false));
}

#[test]
fn duplicate_deposit_is_rejected_and_credited_once() {
    let (mut es, mut ps) = stores();
    let cmd = Command::Deposit { client_id: 7, trx_id: 1, amount: 25_000 };
    assert_eq!(handle(&mut es, &mut ps, cmd), Outcome::Accepted);
    assert_eq!(
        handle(&mut es, &mut ps, cmd),
        Outcome::Rejected(Reason::DuplicateTransaction)
    );
    assert_eq!(balances(&ps, 7), (25_000, 0, 25_000, false));
    assert_eq!(es.stream(7).len(), 1);
}

#[test]
fn duplicate_withdrawal_is_rejected_and_debited_once() {
    let (mut es, mut ps) = stores();
    handle(&mut es, &mut ps, Command::Deposit { client_id: 7, trx_id: 1, amount: 50_000 });
    let cmd = Command::Withdrawal { client_id: 7, trx_id: 2, amount: 10_000 };
    assert_eq!(handle(&mut es, &mut ps, cmd), Outcome::Accepted);
    assert_eq!(
        handle(&mut es, &mut ps, cmd),
        Outcome::Rejected(Reason::DuplicateTransaction)
    );
    assert_eq!(balances(&ps, 7), (40_000, 0, 40_000, false));
}

#[test]
fn withdrawal_with_insufficient_funds_changes_nothing() {
    let (mut es, mut ps) = stores();
    handle(&mut es, &mut ps, Command::Deposit { client_id: 7, trx_id: 1, amount: 25_000 });
    let outcome = handle(
        &mut es,
        &mut ps,
        Command::Withdrawal { client_id: 7, trx_id: 2, amount: 25_001 },
    );
    assert_eq!(outcome, Outcome::Rejected(Reason::InsufficientFunds));
    assert_eq!(balances(&ps, 7), (25_000, 0, 25_000, false));
    assert_eq!(es.stream(7).len(), 1);
}

#[test]
fn first_withdrawal_materializes_an_empty_account() {
    let (mut es, mut ps) = stores();
    let outcome = handle(
        &mut es,
        &mut ps,
        Command::Withdrawal { client_id: 9, trx_id: 1, amount: 1 },
    );
    assert_eq!(outcome, Outcome::Rejected(Reason::InsufficientFunds));
    assert_eq!(balances(&ps, 9), (0, 0, 0, false));
}

#[test]
fn dispute_family_on_unknown_transaction_is_rejected() {
    let (mut es, mut ps) = stores();
    handle(&mut es, &mut ps, Command::Deposit { client_id: 7, trx_id: 1, amount: 25_000 });
    for cmd in [
        Command::Dispute { client_id: 7, trx_id: 99 },
        Command::Resolve { client_id: 7, trx_id: 99 },
        Command::Chargeback { client_id: 7, trx_id: 99 },
    ] {
        assert_eq!(
            handle(&mut es, &mut ps, cmd),
            Outcome::Rejected(Reason::UnknownTransaction)
        );
    }
    assert_eq!(balances(&ps, 7), (25_000, 0, 25_000, false));
    assert_eq!(es.stream(7).len(), 1);
}

#[test]
fn oversized_deposit_is_rejected_as_out_of_range() {
    let (mut es, mut ps) = stores();
    let outcome = handle(
        &mut es,
        &mut ps,
        Command::Deposit { client_id: 7, trx_id: 1, amount: u64::MAX },
    );
    assert_eq!(outcome, Outcome::Rejected(Reason::AmountOutOfRange));
    assert_eq!(balances(&ps, 7), (0, 0, 0, false));
}

#[test]
fn locked_flag_stays_set_after_later_commands() {
    let (mut es, mut ps) = stores();
    handle(&mut es, &mut ps, Command::Deposit { client_id: 7, trx_id: 1, amount: 30_000 });
    handle(&mut es, &mut ps, Command::Dispute { client_id: 7, trx_id: 1 });
    handle(&mut es, &mut ps, Command::Chargeback { client_id: 7, trx_id: 1 });
    assert_eq!(balances(&ps, 7), (0, 0, 0, true));
    handle(&mut es, &mut ps, Command::Deposit { client_id: 7, trx_id: 2, amount: 5_000 });
    let (available, held, total, locked) = balances(&ps, 7);
    assert_eq!((available, held, total), (5_000, 0, 5_000));
    assert_eq!(locked, true);
}

#[test]
fn resolve_without_dispute_drives_held_negative() {
    // The dispute family deliberately does not check that the
    // transaction is currently under dispute.
    let (mut es, mut ps) = stores();
    handle(&mut es, &mut ps, Command::Deposit { client_id: 7, trx_id: 1, amount: 10_000 });
    handle(&mut es, &mut ps, Command::Resolve { client_id: 7, trx_id: 1 });
    assert_eq!(balances(&ps, 7), (20_000, -10_000, 10_000, false));
}

#[test]
fn available_equals_total_minus_held_at_every_step() {
    let (mut es, mut ps) = stores();
    let commands = [
        Command::Deposit { client_id: 3, trx_id: 1, amount: 70_000 },
        Command::Deposit { client_id: 3, trx_id: 2, amount: 5_500 },
        Command::Dispute { client_id: 3, trx_id: 2 },
        Command::Withdrawal { client_id: 3, trx_id: 3, amount: 40_000 },
        Command::Resolve { client_id: 3, trx_id: 2 },
        Command::Dispute { client_id: 3, trx_id: 1 },
        Command::Chargeback { client_id: 3, trx_id: 1 },
    ];
    for cmd in commands {
        handle(&mut es, &mut ps, cmd);
        let (available, held, total, _) = balances(&ps, 3);
        assert_eq!(available, total - held);
    }
}

#[test]
fn replaying_the_stream_reproduces_the_live_account() {
    let (mut es, mut ps) = stores();
    let commands = [
        Command::Deposit { client_id: 3, trx_id: 1, amount: 70_000 },
        Command::Deposit { client_id: 3, trx_id: 2, amount: 5_500 },
        Command::Dispute { client_id: 3, trx_id: 2 },
        Command::Withdrawal { client_id: 3, trx_id: 3, amount: 40_000 },
        Command::Resolve { client_id: 3, trx_id: 2 },
    ];
    for cmd in commands {
        handle(&mut es, &mut ps, cmd);
    }
    let stream = es.stream(3);
    assert_eq!(stream.len(), 5);
    let replayed = trx_engine::projections::replay_account(&stream);
    let (available, held, total, locked) = balances(&ps, 3);
    assert_eq!(
        replayed,
        ClientAccount { total, held, available, locked }
    );
}

#[test]
fn events_are_recorded_only_for_accepted_commands() {
    let (mut es, mut ps) = stores();
    handle(&mut es, &mut ps, Command::Deposit { client_id: 5, trx_id: 1, amount: 10_000 });
    handle(&mut es, &mut ps, Command::Withdrawal { client_id: 5, trx_id: 2, amount: 99_000 });
    handle(&mut es, &mut ps, Command::Dispute { client_id: 5, trx_id: 1 });
    let stream = es.stream(5);
    assert_eq!(stream.len(), 2);
    assert_eq!(stream[0], trx_engine::Event::AmountDeposited { amount: 10_000 });
    assert_eq!(stream[1], trx_engine::Event::DisputeRaised { amount: 10_000 });
    assert_eq!(es.stream(77).len(), 0);
}
