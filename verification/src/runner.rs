use vstd::prelude::*;

use crate::command_parser::CommandParser;
use crate::command_parser::spec_parse_command;
use crate::event_store::EventStore;
use crate::events::Event;
use crate::handlers::CommandHandler;
use crate::handlers::lemma_step_preserves_inv;
use crate::handlers::lemma_step_preserves_replay_consistency;
use crate::handlers::replay_consistent;
use crate::handlers::step_projection;
use crate::handlers::step_streams;
use crate::projections::ClientAccountDto;
use crate::projections::ProjectionStore;
use crate::projections::ProjectionView;
use crate::projections::dto_at;

verus! {

/// The rows the csv reader extracts from `input`: for each data row,
/// the bytes of each of its fields. A function of the bytes alone.
pub uninterp spec fn csv_rows_of(input: Seq<u8>) -> Seq<Seq<Seq<u8>>>;

/// Relies on csv::Reader, built with trimmed fields and flexible row
/// lengths: reading from a byte slice is a pure function of the bytes.
/// The first row is consumed as a header, every field is trimmed of
/// ASCII whitespace, and rows the reader cannot decode are skipped.
#[verifier::external_body]
fn read_rows(input: &[u8]) -> (rows: Vec<Vec<Vec<u8>>>)
    ensures
        rows.deep_view() == csv_rows_of(input@),
{
    let mut reader = csv::ReaderBuilder::new().trim(csv::Trim::All).flexible(true).from_reader(
        input,
    );
    let mut rows: Vec<Vec<Vec<u8>>> = Vec::new();
    for record in reader.records() {
        if let Ok(record) = record {
            rows.push(record.iter().map(|field| field.as_bytes().to_vec()).collect());
        }
    }
    rows
}

/// The engine state after running every row in order: each row that
/// denotes a command is stepped through the decision engine, and every
/// other row is ignored.
pub open spec fn run_rows(
    p: ProjectionView,
    streams: Map<u64, Seq<Event>>,
    rows: Seq<Seq<Seq<u8>>>,
) -> (ProjectionView, Map<u64, Seq<Event>>)
    decreases rows.len(),
{
    if rows.len() == 0 {
        (p, streams)
    } else {
        let rest = rows.subrange(1, rows.len() as int);
        match spec_parse_command(rows[0]) {
            Some(cmd) => run_rows(step_projection(p, cmd), step_streams(p, streams, cmd), rest),
            None => run_rows(p, streams, rest),
        }
    }
}

/// Running rows preserves the store's well-formedness and replay
/// consistency: after any input, every live account is still the
/// replay of its event stream.
pub proof fn lemma_run_rows_preserves_consistency(
    p: ProjectionView,
    streams: Map<u64, Seq<Event>>,
    rows: Seq<Seq<Seq<u8>>>,
)
    requires
        p.inv(),
        replay_consistent(p, streams),
    ensures
        run_rows(p, streams, rows).0.inv(),
        replay_consistent(run_rows(p, streams, rows).0, run_rows(p, streams, rows).1),
    decreases rows.len(),
{
    if rows.len() > 0 {
        let rest = rows.subrange(1, rows.len() as int);
        match spec_parse_command(rows[0]) {
            Some(cmd) => {
                lemma_step_preserves_inv(p, cmd);
                lemma_step_preserves_replay_consistency(p, streams, cmd);
                lemma_run_rows_preserves_consistency(
                    step_projection(p, cmd),
                    step_streams(p, streams, cmd),
                    rest,
                );
            },
            None => {
                lemma_run_rows_preserves_consistency(p, streams, rest);
            },
        }
    }
}

/// Feeds a whole csv input through the decision engine: every row that
/// denotes a command is handled in arrival order, every other row is
/// skipped. The stores end exactly as `run_rows` states, and replay
/// consistency is preserved.
pub fn process_csv_reader(
    input: &[u8],
    event_store: &mut EventStore,
    projection_store: &mut ProjectionStore,
)
    requires
        old(projection_store)@.inv(),
    ensures
        final(projection_store)@.inv(),
        (final(projection_store)@, final(event_store)@) == run_rows(
            old(projection_store)@,
            old(event_store)@,
            csv_rows_of(input@),
        ),
        replay_consistent(old(projection_store)@, old(event_store)@) ==> replay_consistent(
            final(projection_store)@,
            final(event_store)@,
        ),
{
    let rows = read_rows(input);
    let ghost all = rows.deep_view();
    let n = rows.len();
    let mut i: usize = 0;
    proof {
        assert(all.subrange(0, n as int) =~= all);
    }
    while i < n
        invariant
            0 <= i <= n,
            n == rows@.len(),
            all == rows.deep_view(),
            projection_store@.inv(),
            run_rows(projection_store@, event_store@, all.subrange(i as int, n as int))
                == run_rows(old(projection_store)@, old(event_store)@, all),
        decreases n - i,
    {
        proof {
            assert(rows[i as int].deep_view() == all[i as int]);
            assert(all.subrange(i as int, n as int)[0] == all[i as int]);
            assert(all.subrange(i as int, n as int).subrange(
                1,
                all.subrange(i as int, n as int).len() as int,
            ) =~= all.subrange(i + 1, n as int));
        }
        match CommandParser::parse_command(&rows[i]) {
            Some(cmd) => {
                CommandHandler::handle_command(event_store, projection_store, cmd);
            },
            None => {},
        }
        i = i + 1;
    }
    proof {
        assert(all.subrange(n as int, n as int) =~= Seq::<Seq<Seq<u8>>>::empty());
        if replay_consistent(old(projection_store)@, old(event_store)@) {
            lemma_run_rows_preserves_consistency(
                old(projection_store)@,
                old(event_store)@,
                all,
            );
        }
    }
}

/// The decimal digit string of `n`, most significant digit first, with
/// no leading zeros (`0` for zero).
pub open spec fn dec_digits(n: nat) -> Seq<u8>
    decreases n,
{
    if n < 10 {
        seq![(0x30 + n) as u8]
    } else {
        dec_digits(n / 10).push((0x30 + n % 10) as u8)
    }
}

/// The last four decimal digits of `n`, zero-padded: the fractional
/// part of a fixed-point amount.
pub open spec fn dec4(n: nat) -> Seq<u8> {
    seq![
        (0x30 + (n / 1000) % 10) as u8,
        (0x30 + (n / 100) % 10) as u8,
        (0x30 + (n / 10) % 10) as u8,
        (0x30 + n % 10) as u8,
    ]
}

/// A fixed-point amount rendered with exactly four decimal places: an
/// optional minus sign, the whole units, a dot, and four fractional
/// digits.
pub open spec fn amount_text(value: i64) -> Seq<u8> {
    let mag = if value >= 0 {
        value as int
    } else {
        -(value as int)
    };
    let sign: Seq<u8> = if value < 0 {
        seq![0x2d]
    } else {
        Seq::<u8>::empty()
    };
    sign + dec_digits((mag / 10000) as nat) + seq![0x2e] + dec4((mag % 10000) as nat)
}

/// `true` or `false`, as bytes.
pub open spec fn bool_text(b: bool) -> Seq<u8> {
    if b {
        seq![116, 114, 117, 101]
    } else {
        seq![102, 97, 108, 115, 101]
    }
}

/// One line of the balance report:
/// `client,available,held,total,locked`.
pub open spec fn row_text(row: ClientAccountDto) -> Seq<u8> {
    dec_digits(row.client_id as nat) + seq![0x2c] + amount_text(row.available) + seq![0x2c]
        + amount_text(row.held) + seq![0x2c] + amount_text(row.total) + seq![0x2c] + bool_text(
        row.locked,
    ) + seq![0x0a]
}

/// The report lines for a sequence of rows, in order.
pub open spec fn rows_text(rows: Seq<ClientAccountDto>) -> Seq<u8>
    decreases rows.len(),
{
    if rows.len() == 0 {
        Seq::<u8>::empty()
    } else {
        rows_text(rows.drop_last()) + row_text(rows.last())
    }
}

/// The header line of the balance report.
pub open spec fn header_text() -> Seq<u8> {
    seq![
        99, 108, 105, 101, 110, 116, 44, 97, 118, 97, 105, 108, 97, 98, 108, 101, 44, 104, 101,
        108, 100, 44, 116, 111, 116, 97, 108, 44, 108, 111, 99, 107, 101, 100, 10,
    ]
}

/// The report rows of a store: one per client, in first-seen order.
pub open spec fn report_rows(v: ProjectionView) -> Seq<ClientAccountDto> {
    Seq::new(v.order.len(), |i: int| dto_at(v, i))
}

/// Appends the decimal digits of `m` to `out`.
fn push_digits(m: u64, out: &mut Vec<u8>)
    ensures
        final(out)@ == old(out)@ + dec_digits(m as nat),
    decreases m,
{
    if m < 10 {
        out.push(0x30 + m as u8);
        proof {
            assert(out@ =~= old(out)@ + dec_digits(m as nat));
        }
    } else {
        assert(m / 10 < m);
        push_digits(m / 10, out);
        out.push(0x30 + (m % 10) as u8);
        proof {
            assert(out@ =~= old(out)@ + dec_digits(m as nat));
        }
    }
}

/// Appends a fixed-point amount with four decimal places to `out`.
fn push_amount(value: i64, out: &mut Vec<u8>)
    ensures
        final(out)@ == old(out)@ + amount_text(value),
{
    let mag: u64 = if value >= 0 {
        value as u64
    } else if value == i64::MIN {
        9223372036854775808
    } else {
        (-value) as u64
    };
    proof {
        assert(mag as int == (if value >= 0 {
            value as int
        } else {
            -(value as int)
        }));
    }
    if value < 0 {
        out.push(0x2d);
    }
    push_digits(mag / 10000, out);
    out.push(0x2e);
    let frac = mag % 10000;
    out.push(0x30 + ((frac / 1000) % 10) as u8);
    out.push(0x30 + ((frac / 100) % 10) as u8);
    out.push(0x30 + ((frac / 10) % 10) as u8);
    out.push(0x30 + (frac % 10) as u8);
    proof {
        assert(out@ =~= old(out)@ + amount_text(value));
    }
}

/// Appends one report line to `out`.
#[verifier::rlimit(100)]
fn push_row(row: &ClientAccountDto, out: &mut Vec<u8>)
    ensures
        final(out)@ == old(out)@ + row_text(*row),
{
    let ghost mut acc: Seq<u8> = Seq::<u8>::empty();
    push_digits(row.client_id as u64, out);
    proof {
        acc = dec_digits(row.client_id as nat);
        assert(out@ =~= old(out)@ + acc);
    }
    out.push(0x2c);
    proof {
        acc = acc + seq![0x2cu8];
        assert(out@ =~= old(out)@ + acc);
    }
    push_amount(row.available, out);
    proof {
        acc = acc + amount_text(row.available);
        assert(out@ =~= old(out)@ + acc);
    }
    out.push(0x2c);
    proof {
        acc = acc + seq![0x2cu8];
        assert(out@ =~= old(out)@ + acc);
    }
    push_amount(row.held, out);
    proof {
        acc = acc + amount_text(row.held);
        assert(out@ =~= old(out)@ + acc);
    }
    out.push(0x2c);
    proof {
        acc = acc + seq![0x2cu8];
        assert(out@ =~= old(out)@ + acc);
    }
    push_amount(row.total, out);
    proof {
        acc = acc + amount_text(row.total);
        assert(out@ =~= old(out)@ + acc);
    }
    out.push(0x2c);
    proof {
        acc = acc + seq![0x2cu8];
        assert(out@ =~= old(out)@ + acc);
    }
    if row.locked {
        out.push(116);
        out.push(114);
        out.push(117);
        out.push(101);
    } else {
        out.push(102);
        out.push(97);
        out.push(108);
        out.push(115);
        out.push(101);
    }
    proof {
        acc = acc + bool_text(row.locked);
        assert(out@ =~= old(out)@ + acc);
    }
    out.push(0x0a);
    proof {
        acc = acc + seq![0x0au8];
        assert(out@ =~= old(out)@ + acc);
        assert(acc =~= row_text(*row));
    }
}

/// Renders the whole balance report as csv bytes: the header line,
/// then one line per client in first-seen order, every amount with
/// exactly four decimal places.
pub fn render_accounts_csv(projection_store: &ProjectionStore) -> (out: Vec<u8>)
    requires
        projection_store@.inv(),
    ensures
        out@ == header_text() + rows_text(report_rows(projection_store@)),
{
    let mut out: Vec<u8> = vec![
        99u8, 108, 105, 101, 110, 116, 44, 97, 118, 97, 105, 108, 97, 98, 108, 101, 44, 104, 101,
        108, 100, 44, 116, 111, 116, 97, 108, 44, 108, 111, 99, 107, 101, 100, 10,
    ];
    proof {
        assert(out@ =~= header_text());
    }
    let rows = projection_store.output();
    let ghost all = rows@;
    let n = rows.len();
    let mut i: usize = 0;
    proof {
        assert(all.subrange(0, 0) =~= Seq::<ClientAccountDto>::empty());
        assert(out@ =~= header_text() + rows_text(all.subrange(0, 0)));
    }
    while i < n
        invariant
            0 <= i <= n,
            n == all.len(),
            all == rows@,
            out@ == header_text() + rows_text(all.subrange(0, i as int)),
        decreases n - i,
    {
        push_row(&rows[i], &mut out);
        proof {
            assert(all.subrange(0, i + 1).drop_last() =~= all.subrange(0, i as int));
            assert(all.subrange(0, i + 1).last() == all[i as int]);
            assert(rows_text(all.subrange(0, i + 1)) == rows_text(all.subrange(0, i as int))
                + row_text(all[i as int]));
            assert(out@ =~= header_text() + rows_text(all.subrange(0, i + 1)));
        }
        i = i + 1;
    }
    proof {
        assert(all.subrange(0, n as int) =~= all);
        assert(all =~= report_rows(projection_store@));
    }
    out
}

} // verus!
