use trx_engine::{Command, CommandParser, EventStore, ProjectionStore};

fn record(fields: &[&str]) -> Vec<Vec<u8>> {
    fields.iter().map(|f| f.as_bytes().to_vec()).collect()
}

#[test]
fn parses_each_command_kind() {
    assert_eq!(
        CommandParser::parse_command(&record(&["deposit", "101", "1", "10.0"])),
        Some(Command::Deposit { client_id: 101, trx_id: 1, amount: 100_000 })
    );
    assert_eq!(
        CommandParser::parse_command(&record(&["withdrawal", "101", "3", "5.6548"])),
        Some(Command::Withdrawal { client_id: 101, trx_id: 3, amount: 56_548 })
    );
    assert_eq!(
        CommandParser::parse_command(&record(&["dispute", "101", "2"])),
        Some(Command::Dispute { client_id: 101, trx_id: 2 })
    );
    assert_eq!(
        CommandParser::parse_command(&record(&["resolve", "101", "2"])),
        Some(Command::Resolve { client_id: 101, trx_id: 2 })
    );
    assert_eq!(
        CommandParser::parse_command(&record(&["chargeback", "101", "2"])),
        Some(Command::Chargeback { client_id: 101, trx_id: 2 })
    );
}

#[test]
fn trims_whitespace_in_every_field() {
    assert_eq!(
        CommandParser::parse_command(&record(&[" deposit ", " 101", "1 ", "\t2.5\r"])),
        Some(Command::Deposit { client_id: 101, trx_id: 1, amount: 25_000 })
    );
}

#[test]
fn amount_shapes() {
    let amount = |s: &str| match CommandParser::parse_command(&record(&["deposit", "1", "1", s])) {
        Some(Command::Deposit { amount, .. }) => Some(amount),
        _ => None,
    };
    assert_eq!(amount("3"), Some(30_000));
    assert_eq!(amount("3."), Some(30_000));
    assert_eq!(amount(".5"), Some(5_000));
    assert_eq!(amount("0.0001"), Some(1));
    assert_eq!(amount("3.1002"), Some(31_002));
    assert_eq!(amount("007"), Some(70_000));
    // rejected shapes
    assert_eq!(amount(""), None);
    assert_eq!(amount("."), None);
    assert_eq!(amount("-3"), None);
    assert_eq!(amount("+3"), None);
    assert_eq!(amount("1.00001"), None);
    assert_eq!(amount("1.2.3"), None);
    assert_eq!(amount("1e3"), None);
    assert_eq!(amount("abc"), None);
}

#[test]
fn rejects_malformed_records() {
    // unknown command kind
    assert_eq!(CommandParser::parse_command(&record(&["transfer", "1", "1", "2.0"])), None);
    // missing fields
    assert_eq!(CommandParser::parse_command(&record(&[])), None);
    assert_eq!(CommandParser::parse_command(&record(&["deposit", "1"])), None);
    assert_eq!(CommandParser::parse_command(&record(&["deposit", "1", "1"])), None);
    // dispute needs no amount field
    assert_eq!(
        CommandParser::parse_command(&record(&["dispute", "1", "1"])),
        Some(Command::Dispute { client_id: 1, trx_id: 1 })
    );
    // ids out of range or not numeric
    assert_eq!(CommandParser::parse_command(&record(&["deposit", "65536", "1", "2.0"])), None);
    assert_eq!(CommandParser::parse_command(&record(&["deposit", "abc", "1", "2.0"])), None);
    assert_eq!(
        CommandParser::parse_command(&record(&["deposit", "1", "4294967296", "2.0"])),
        None
    );
    assert_eq!(CommandParser::parse_command(&record(&["deposit", "-1", "1", "2.0"])), None);
}

#[test]
fn id_boundaries_parse() {
    assert_eq!(
        CommandParser::parse_command(&record(&["dispute", "65535", "4294967295"])),
        Some(Command::Dispute { client_id: 65535, trx_id: 4294967295 })
    );
    assert_eq!(
        CommandParser::parse_command(&record(&["dispute", "0", "0"])),
        Some(Command::Dispute { client_id: 0, trx_id: 0 })
    );
}

#[test]
fn csv_reader_skips_header_and_unquotes_fields() {
    // The first row is a header; a quoted field must be unquoted by the
    // csv reader before it reaches the command parser.
    let input = "type,client,tx,amount\n\
                 deposit,101,1,\"2.5\"\n";
    let mut event_store = EventStore::default();
    let mut projection_store = ProjectionStore::default();
    trx_engine::process_csv_reader(input.as_bytes(), &mut event_store, &mut projection_store);
    let rows = projection_store.output();
    assert_eq!(rows.len(), 1);
    assert_eq!(rows[0].client_id, 101);
    assert_eq!(rows[0].total, 25_000);

    // A header alone yields no command at all.
    let mut event_store = EventStore::default();
    let mut projection_store = ProjectionStore::default();
    trx_engine::process_csv_reader(
        "deposit,101,1,2.5\n".as_bytes(),
        &mut event_store,
        &mut projection_store,
    );
    assert_eq!(projection_store.output().len(), 0);
}
