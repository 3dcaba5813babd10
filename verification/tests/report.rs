use trx_engine::{Command, CommandHandler, EventStore, ProjectionStore};

fn handle(es: &mut EventStore, ps: &mut ProjectionStore, cmd: Command) {
    CommandHandler::handle_command(es, ps, cmd);
}

fn render(ps: &ProjectionStore) -> String {
    String::from_utf8(trx_engine::render_accounts_csv(ps)).expect("report is ASCII")
}

#[test]
fn empty_store_renders_header_only() {
    let ps = ProjectionStore::default();
    assert_eq!(render(&ps), "client,available,held,total,locked\n");
}

#[test]
fn report_renders_four_decimal_places_in_first_seen_order() {
    let mut es = EventStore::default();
    let mut ps = ProjectionStore::default();
    handle(&mut es, &mut ps, Command::Deposit { client_id: 2, trx_id: 1, amount: 25_000 });
    handle(&mut es, &mut ps, Command::Deposit { client_id: 1, trx_id: 1, amount: 1 });
    handle(&mut es, &mut ps, Command::Deposit { client_id: 2, trx_id: 2, amount: 100_000 });
    handle(&mut es, &mut ps, Command::Dispute { client_id: 2, trx_id: 2 });
    assert_eq!(
        render(&ps),
        "client,available,held,total,locked\n\
         2,2.5000,10.0000,12.5000,false\n\
         1,0.0001,0.0000,0.0001,false\n"
    );
}

#[test]
fn report_renders_negative_held_and_locked_accounts() {
    let mut es = EventStore::default();
    let mut ps = ProjectionStore::default();
    // Resolve without a prior dispute drives held negative.
    handle(&mut es, &mut ps, Command::Deposit { client_id: 5, trx_id: 1, amount: 10_000 });
    handle(&mut es, &mut ps, Command::Resolve { client_id: 5, trx_id: 1 });
    // A chargeback locks the other account.
    handle(&mut es, &mut ps, Command::Deposit { client_id: 6, trx_id: 9, amount: 30_000 });
    handle(&mut es, &mut ps, Command::Dispute { client_id: 6, trx_id: 9 });
    handle(&mut es, &mut ps, Command::Chargeback { client_id: 6, trx_id: 9 });
    assert_eq!(
        render(&ps),
        "client,available,held,total,locked\n\
         5,2.0000,-1.0000,1.0000,false\n\
         6,0.0000,0.0000,0.0000,true\n"
    );
}
