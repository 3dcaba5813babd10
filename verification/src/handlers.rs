use vstd::prelude::*;

use crate::commands::Command;
use crate::event_store::EventStore;
use crate::event_store::stream_of;
use crate::events::Event;
use crate::projections::ClientAccount;
use crate::projections::ProjectionStore;
use crate::projections::ProjectionView;
use crate::projections::Transaction;
use crate::projections::TransactionType;
use crate::projections::account_or_default;
use crate::projections::apply_event;
use crate::projections::event_fits;
use crate::projections::event_fits_check;
use crate::projections::lemma_apply_event_locked_monotonic;
use crate::projections::lemma_apply_event_well_formed;
use crate::projections::replay;
use crate::projections::replay_fits;
use crate::projections::tx_key;

verus! {

/// What the decision engine did with a command. Rejections are soft:
/// the command simply produces no state change.
#[derive(Clone, Copy, Debug, PartialEq, Eq, Structural)]
pub enum Outcome {
    Accepted,
    Rejected(Reason),
}

/// Why a command was rejected.
#[derive(Clone, Copy, Debug, PartialEq, Eq, Structural)]
pub enum Reason {
    /// A deposit or withdrawal reused a transaction id already recorded
    /// for the client.
    DuplicateTransaction,
    /// A withdrawal asked for more than the client's available funds.
    InsufficientFunds,
    /// A dispute, resolve or chargeback referenced a transaction id
    /// never recorded for the client.
    UnknownTransaction,
    /// Applying the command would take a balance outside the range of
    /// the fixed-point representation.
    AmountOutOfRange,
}

/// The event a command emits when it is accepted against projection
/// state `p`. For the dispute family the amount is resolved from the
/// ledger entry, not from the command, which carries none.
pub open spec fn emitted(p: ProjectionView, cmd: Command) -> Event {
    match cmd {
        Command::Deposit { amount, .. } => Event::AmountDeposited { amount },
        Command::Withdrawal { amount, .. } => Event::AmountWithdrawn { amount },
        Command::Dispute { client_id, trx_id } => Event::DisputeRaised {
            amount: p.ledger[tx_key(client_id, trx_id)].amount,
        },
        Command::Resolve { client_id, trx_id } => Event::DisputeResolved {
            amount: p.ledger[tx_key(client_id, trx_id)].amount,
        },
        Command::Chargeback { client_id, trx_id } => Event::ChargebackIssued {
            amount: p.ledger[tx_key(client_id, trx_id)].amount,
        },
    }
}

/// The decision rules, command by command.
///
/// A deposit or withdrawal whose transaction id is already in the ledger
/// is rejected outright: no balance mutation, no event, so that one
/// ledger entry always means exactly one balance mutation. A withdrawal
/// must also be covered by the available funds. The dispute family is
/// accepted exactly when the referenced transaction is in the ledger and
/// the resolved amount keeps every balance in range; whether the
/// transaction is currently under dispute is deliberately not checked,
/// so a resolve without a prior dispute can drive `held` below zero.
pub open spec fn decide(p: ProjectionView, cmd: Command) -> Outcome {
    match cmd {
        Command::Deposit { client_id, trx_id, amount } => {
            let account = account_or_default(p.accounts, client_id as u64);
            if p.ledger.contains_key(tx_key(client_id, trx_id)) {
                Outcome::Rejected(Reason::DuplicateTransaction)
            } else if !event_fits(account, Event::AmountDeposited { amount }) {
                Outcome::Rejected(Reason::AmountOutOfRange)
            } else {
                Outcome::Accepted
            }
        },
        Command::Withdrawal { client_id, trx_id, amount } => {
            let account = account_or_default(p.accounts, client_id as u64);
            if p.ledger.contains_key(tx_key(client_id, trx_id)) {
                Outcome::Rejected(Reason::DuplicateTransaction)
            } else if amount > account.available {
                Outcome::Rejected(Reason::InsufficientFunds)
            } else {
                Outcome::Accepted
            }
        },
        Command::Dispute { client_id, trx_id } => dispute_family_decision(p, client_id, trx_id, cmd),
        Command::Resolve { client_id, trx_id } => dispute_family_decision(p, client_id, trx_id, cmd),
        Command::Chargeback { client_id, trx_id } => dispute_family_decision(
            p,
            client_id,
            trx_id,
            cmd,
        ),
    }
}

/// The shared decision rule of the dispute family: the referenced
/// transaction must be in the ledger, and the event built from its
/// amount must keep the balances in range.
pub open spec fn dispute_family_decision(
    p: ProjectionView,
    client_id: u16,
    trx_id: u32,
    cmd: Command,
) -> Outcome {
    let account = account_or_default(p.accounts, client_id as u64);
    if !p.ledger.contains_key(tx_key(client_id, trx_id)) {
        Outcome::Rejected(Reason::UnknownTransaction)
    } else if !event_fits(account, emitted(p, cmd)) {
        Outcome::Rejected(Reason::AmountOutOfRange)
    } else {
        Outcome::Accepted
    }
}

/// What the projection state becomes under a command.
///
/// An accepted command applies its event to the client's account; an
/// accepted deposit or withdrawal also records its ledger entry. A
/// deposit or withdrawal materializes the client's account even when it
/// is rejected, matching the account lifecycle: an account exists from
/// the first money-moving command that references it. A rejected
/// dispute-family command changes nothing.
pub open spec fn step_projection(p: ProjectionView, cmd: Command) -> ProjectionView {
    let ck = cmd.spec_client_id() as u64;
    let account = account_or_default(p.accounts, ck);
    let order = if p.accounts.contains_key(ck) {
        p.order
    } else {
        p.order.push(ck)
    };
    match cmd {
        Command::Deposit { client_id, trx_id, amount } => {
            if decide(p, cmd) == Outcome::Accepted {
                ProjectionView {
                    accounts: p.accounts.insert(ck, apply_event(account, emitted(p, cmd))),
                    order,
                    ledger: p.ledger.insert(
                        tx_key(client_id, trx_id),
                        Transaction { amount, trx_type: TransactionType::Deposit },
                    ),
                }
            } else {
                ProjectionView { accounts: p.accounts.insert(ck, account), order, ledger: p.ledger }
            }
        },
        Command::Withdrawal { client_id, trx_id, amount } => {
            if decide(p, cmd) == Outcome::Accepted {
                ProjectionView {
                    accounts: p.accounts.insert(ck, apply_event(account, emitted(p, cmd))),
                    order,
                    ledger: p.ledger.insert(
                        tx_key(client_id, trx_id),
                        Transaction { amount, trx_type: TransactionType::Withdrawal },
                    ),
                }
            } else {
                ProjectionView { accounts: p.accounts.insert(ck, account), order, ledger: p.ledger }
            }
        },
        _ => {
            if decide(p, cmd) == Outcome::Accepted {
                ProjectionView {
                    accounts: p.accounts.insert(ck, apply_event(account, emitted(p, cmd))),
                    order,
                    ledger: p.ledger,
                }
            } else {
                p
            }
        },
    }
}

/// What the event streams become under a command: an accepted command
/// appends its event to the client's stream; a rejected one appends
/// nothing.
pub open spec fn step_streams(
    p: ProjectionView,
    streams: Map<u64, Seq<Event>>,
    cmd: Command,
) -> Map<u64, Seq<Event>> {
    if decide(p, cmd) == Outcome::Accepted {
        let ck = cmd.spec_client_id() as u64;
        streams.insert(ck, stream_of(streams, ck).push(emitted(p, cmd)))
    } else {
        streams
    }
}

/// An event accepted against `p` always fits the account it is applied
/// to, provided the stored accounts are well formed: for deposits and
/// the dispute family the fit is part of the decision itself, and for
/// withdrawals it follows from the funds check and the balance
/// invariant.
pub proof fn lemma_accepted_event_fits(p: ProjectionView, cmd: Command)
    requires
        p.inv(),
        decide(p, cmd) == Outcome::Accepted,
    ensures
        event_fits(account_or_default(p.accounts, cmd.spec_client_id() as u64), emitted(p, cmd)),
{
}

/// The locked flag of every account is monotonic under every command:
/// once an account is locked, no later command unlocks or removes it.
pub proof fn lemma_step_locked_monotonic(p: ProjectionView, cmd: Command, k: u64)
    requires
        p.accounts.contains_key(k),
        p.accounts[k].locked,
    ensures
        step_projection(p, cmd).accounts.contains_key(k),
        step_projection(p, cmd).accounts[k].locked,
{
    let ck = cmd.spec_client_id() as u64;
    if k == ck {
        lemma_apply_event_locked_monotonic(account_or_default(p.accounts, ck), emitted(p, cmd));
    }
}

/// Stepping any command preserves the store's well-formedness: the
/// client order still lists each account exactly once and every account
/// still satisfies the balance invariant.
pub proof fn lemma_step_preserves_inv(p: ProjectionView, cmd: Command)
    requires
        p.inv(),
    ensures
        step_projection(p, cmd).inv(),
{
    let ck = cmd.spec_client_id() as u64;
    let account = account_or_default(p.accounts, ck);
    let p2 = step_projection(p, cmd);
    if p2 != p {
        if decide(p, cmd) == Outcome::Accepted {
            lemma_accepted_event_fits(p, cmd);
            lemma_apply_event_well_formed(account, emitted(p, cmd));
        }
        if !p.accounts.contains_key(ck) {
            assert(!p.order.contains(ck));
            assert(p2.order.last() == ck);
            assert forall|i: int, j: int|
                0 <= i < j < p2.order.len() implies p2.order[i] != p2.order[j] by {
                if j == p2.order.len() - 1 {
                    assert(p2.order[i] == p.order[i]);
                }
            }
            assert forall|k: u64| #[trigger]
                p2.accounts.contains_key(k) implies p2.order.contains(k) && k <= u16::MAX by {
                if k != ck {
                    assert(p.accounts.contains_key(k));
                    assert(p.order.contains(k));
                    let i = choose|i: int| 0 <= i < p.order.len() && p.order[i] == k;
                    assert(p2.order[i] == k);
                }
            }
        }
    }
}

/// Replay consistency: every client's live account is exactly the
/// replay of its event stream from the initial state, and every stream
/// belongs to a known client.
pub open spec fn replay_consistent(p: ProjectionView, streams: Map<u64, Seq<Event>>) -> bool {
    &&& forall|k: u64| #[trigger] streams.contains_key(k) ==> p.accounts.contains_key(k)
    &&& forall|k: u64| #[trigger]
        p.accounts.contains_key(k) ==> p.accounts[k] == replay(stream_of(streams, k))
            && replay_fits(stream_of(streams, k))
}

/// Replay determinism: stepping any command keeps every live account
/// equal to the replay of its event stream. Together with the fact that
/// the empty state is trivially consistent, this says that replaying a
/// client's stream from the initial state always reproduces its live
/// account.
pub proof fn lemma_step_preserves_replay_consistency(
    p: ProjectionView,
    streams: Map<u64, Seq<Event>>,
    cmd: Command,
)
    requires
        p.inv(),
        replay_consistent(p, streams),
    ensures
        replay_consistent(step_projection(p, cmd), step_streams(p, streams, cmd)),
{
    let ck = cmd.spec_client_id() as u64;
    let account = account_or_default(p.accounts, ck);
    let p2 = step_projection(p, cmd);
    let s2 = step_streams(p, streams, cmd);
    if !p.accounts.contains_key(ck) {
        assert(!streams.contains_key(ck));
        assert(stream_of(streams, ck) =~= Seq::<Event>::empty());
    }
    if decide(p, cmd) == Outcome::Accepted {
        let ev = emitted(p, cmd);
        let oldstream = stream_of(streams, ck);
        let newstream = oldstream.push(ev);
        lemma_accepted_event_fits(p, cmd);
        assert(newstream.drop_last() =~= oldstream);
        if p.accounts.contains_key(ck) {
            assert(p.accounts[ck] == replay(stream_of(streams, ck)));
        } else {
            assert(replay(Seq::<Event>::empty()) == ClientAccount::initial());
            assert(replay_fits(Seq::<Event>::empty()));
        }
        assert(replay(oldstream) == account);
        assert(replay_fits(oldstream));
        assert(replay(newstream) == apply_event(account, ev));
        assert(replay_fits(newstream));
        assert forall|k: u64| #[trigger]
            p2.accounts.contains_key(k) implies p2.accounts[k] == replay(stream_of(s2, k))
            && replay_fits(stream_of(s2, k)) by {
            if k != ck {
                assert(stream_of(s2, k) == stream_of(streams, k));
            } else {
                assert(stream_of(s2, ck) == newstream);
            }
        }
    } else {
        match cmd {
            Command::Deposit { .. } | Command::Withdrawal { .. } => {
                assert forall|k: u64| #[trigger]
                    p2.accounts.contains_key(k) implies p2.accounts[k] == replay(stream_of(s2, k))
                    && replay_fits(stream_of(s2, k)) by {}
            },
            _ => {},
        }
    }
}

/// Idempotent duplicate rejection: once a deposit or withdrawal has
/// been accepted, replaying the very same command is rejected as a
/// duplicate and changes neither the projection nor the streams, so
/// each (client, transaction) pair yields at most one ledger entry and
/// one balance mutation.
pub proof fn lemma_duplicate_rejected(
    p: ProjectionView,
    streams: Map<u64, Seq<Event>>,
    cmd: Command,
)
    requires
        cmd is Deposit || cmd is Withdrawal,
        decide(p, cmd) == Outcome::Accepted,
    ensures
        decide(step_projection(p, cmd), cmd) == Outcome::Rejected(Reason::DuplicateTransaction),
        step_projection(step_projection(p, cmd), cmd) == step_projection(p, cmd),
        step_streams(step_projection(p, cmd), step_streams(p, streams, cmd), cmd) == step_streams(
            p,
            streams,
            cmd,
        ),
{
    let p1 = step_projection(p, cmd);
    let ck = cmd.spec_client_id() as u64;
    assert(p1.accounts.contains_key(ck));
    assert(step_projection(p1, cmd).accounts =~= p1.accounts);
    assert(step_projection(p1, cmd) =~= p1);
}

/// Insufficient-funds guard: a withdrawal asking for more than the
/// available funds is rejected; it changes no balance, no ledger entry
/// and no stream — at most it materializes a fresh, empty account for a
/// client seen for the first time.
pub proof fn lemma_insufficient_funds_rejected(
    p: ProjectionView,
    streams: Map<u64, Seq<Event>>,
    client_id: u16,
    trx_id: u32,
    amount: u64,
)
    requires
        amount > account_or_default(p.accounts, client_id as u64).available,
    ensures
        decide(p, Command::Withdrawal { client_id, trx_id, amount }) is Rejected,
        step_projection(p, Command::Withdrawal { client_id, trx_id, amount }).ledger == p.ledger,
        step_projection(p, Command::Withdrawal { client_id, trx_id, amount }).accounts
            == p.accounts.insert(
            client_id as u64,
            account_or_default(p.accounts, client_id as u64),
        ),
        forall|k: u64| #[trigger]
            p.accounts.contains_key(k) ==> step_projection(
                p,
                Command::Withdrawal { client_id, trx_id, amount },
            ).accounts[k] == p.accounts[k],
        step_streams(p, streams, Command::Withdrawal { client_id, trx_id, amount }) == streams,
{
}

/// The decision engine.
pub struct CommandHandler;

impl CommandHandler {
    /// Runs one command against the stores: decides whether to accept
    /// it, and on acceptance applies its event to the projection,
    /// records money-moving commands in the ledger, and appends the
    /// event to the client's stream. The returned outcome is exactly
    /// `decide`, and the stores change exactly as `step_projection` and
    /// `step_streams` state.
    pub fn handle_command(
        event_store: &mut EventStore,
        projection_store: &mut ProjectionStore,
        cmd: Command,
    ) -> (outcome: Outcome)
        requires
            old(projection_store)@.inv(),
        ensures
            final(projection_store)@.inv(),
            outcome == decide(old(projection_store)@, cmd),
            final(projection_store)@ == step_projection(old(projection_store)@, cmd),
            final(event_store)@ == step_streams(
                old(projection_store)@,
                old(event_store)@,
                cmd,
            ),
    {
        match cmd {
            Command::Deposit { client_id, trx_id, amount } => {
                let duplicate = projection_store.get_client_transaction(
                    client_id,
                    trx_id,
                ).is_some();
                let account = *projection_store.get_client_account(client_id);
                let event = Event::AmountDeposited { amount };
                if duplicate {
                    proof {
                        assert(projection_store@ =~= step_projection(old(projection_store)@, cmd));
                    }
                    Outcome::Rejected(Reason::DuplicateTransaction)
                } else if !event_fits_check(&account, &event) {
                    proof {
                        assert(projection_store@ =~= step_projection(old(projection_store)@, cmd));
                    }
                    Outcome::Rejected(Reason::AmountOutOfRange)
                } else {
                    projection_store.update_for_client(client_id, &event);
                    projection_store.insert_transaction(
                        client_id,
                        trx_id,
                        amount,
                        TransactionType::Deposit,
                    );
                    event_store.apply(client_id, event);
                    proof {
                        assert(projection_store@ =~= step_projection(old(projection_store)@, cmd));
                    }
                    Outcome::Accepted
                }
            },
            Command::Withdrawal { client_id, trx_id, amount } => {
                let duplicate = projection_store.get_client_transaction(
                    client_id,
                    trx_id,
                ).is_some();
                let account = *projection_store.get_client_account(client_id);
                let event = Event::AmountWithdrawn { amount };
                let insufficient = account.available < 0 || amount > (account.available as u64);
                if duplicate {
                    proof {
                        assert(projection_store@ =~= step_projection(old(projection_store)@, cmd));
                    }
                    Outcome::Rejected(Reason::DuplicateTransaction)
                } else if insufficient {
                    proof {
                        assert(projection_store@ =~= step_projection(old(projection_store)@, cmd));
                    }
                    Outcome::Rejected(Reason::InsufficientFunds)
                } else {
                    proof {
                        assert(projection_store@.accounts.contains_key(client_id as u64));
                        assert(account.well_formed());
                        assert(event_fits(account, event));
                    }
                    projection_store.update_for_client(client_id, &event);
                    projection_store.insert_transaction(
                        client_id,
                        trx_id,
                        amount,
                        TransactionType::Withdrawal,
                    );
                    event_store.apply(client_id, event);
                    proof {
                        assert(projection_store@ =~= step_projection(old(projection_store)@, cmd));
                    }
                    Outcome::Accepted
                }
            },
            Command::Dispute { client_id, trx_id } => Self::handle_dispute_family(
                event_store,
                projection_store,
                cmd,
                client_id,
                trx_id,
            ),
            Command::Resolve { client_id, trx_id } => Self::handle_dispute_family(
                event_store,
                projection_store,
                cmd,
                client_id,
                trx_id,
            ),
            Command::Chargeback { client_id, trx_id } => Self::handle_dispute_family(
                event_store,
                projection_store,
                cmd,
                client_id,
                trx_id,
            ),
        }
    }

    /// The shared path of dispute, resolve and chargeback: resolve the
    /// amount from the ledger, build the matching event, and apply it if
    /// it fits.
    fn handle_dispute_family(
        event_store: &mut EventStore,
        projection_store: &mut ProjectionStore,
        cmd: Command,
        client_id: u16,
        trx_id: u32,
    ) -> (outcome: Outcome)
        requires
            old(projection_store)@.inv(),
            (cmd matches Command::Dispute { client_id: c, trx_id: t } && c == client_id && t
                == trx_id) || (cmd matches Command::Resolve { client_id: c, trx_id: t } && c
                == client_id && t == trx_id) || (cmd matches Command::Chargeback {
                client_id: c,
                trx_id: t,
            } && c == client_id && t == trx_id),
        ensures
            final(projection_store)@.inv(),
            outcome == decide(old(projection_store)@, cmd),
            final(projection_store)@ == step_projection(old(projection_store)@, cmd),
            final(event_store)@ == step_streams(
                old(projection_store)@,
                old(event_store)@,
                cmd,
            ),
    {
        let trx = match projection_store.get_client_transaction(client_id, trx_id) {
            Some(trx) => *trx,
            None => {
                return Outcome::Rejected(Reason::UnknownTransaction);
            },
        };
        let account = projection_store.peek_client_account(client_id);
        let event = match cmd {
            Command::Dispute { .. } => Event::DisputeRaised { amount: trx.amount },
            Command::Resolve { .. } => Event::DisputeResolved { amount: trx.amount },
            _ => Event::ChargebackIssued { amount: trx.amount },
        };
        if !event_fits_check(&account, &event) {
            Outcome::Rejected(Reason::AmountOutOfRange)
        } else {
            projection_store.update_for_client(client_id, &event);
            event_store.apply(client_id, event);
            proof {
                assert(projection_store@ =~= step_projection(old(projection_store)@, cmd));
            }
            Outcome::Accepted
        }
    }
}

} // verus!
