use vstd::prelude::*;

use crate::events::Event;
use std::collections::HashMap;

verus! {

broadcast use vstd::std_specs::hash::group_hash_axioms;

/// Derived, mutable per-client balance state.
///
/// All monetary fields are fixed-point values counted in ten-thousandths
/// of a unit. `available` is kept equal to `total - held` by every
/// mutation. `locked` is set by a chargeback and never reset.
#[derive(Clone, Copy, Debug, PartialEq, Eq, Structural)]
pub struct ClientAccount {
    pub total: i64,
    pub held: i64,
    pub available: i64,
    pub locked: bool,
}

impl ClientAccount {
    /// The state of an account that has just been created: no funds, not
    /// locked.
    pub open spec fn initial() -> ClientAccount {
        ClientAccount { total: 0, held: 0, available: 0, locked: false }
    }

    /// The one balance invariant: the available funds are exactly the
    /// total funds minus the held funds.
    pub open spec fn well_formed(self) -> bool {
        self.available == self.total - self.held
    }
}

/// Whether every balance field that applying `event` to `account` would
/// produce stays within the range of the fixed-point representation.
/// An event that does not fit is never applied.
pub open spec fn event_fits(account: ClientAccount, event: Event) -> bool {
    match event {
        Event::AmountDeposited { amount } => {
            &&& account.total + amount <= i64::MAX
            &&& i64::MIN <= account.total + amount - account.held <= i64::MAX
        },
        Event::AmountWithdrawn { amount } => {
            &&& i64::MIN <= account.total - amount
            &&& i64::MIN <= account.total - amount - account.held <= i64::MAX
        },
        Event::DisputeRaised { amount } => {
            &&& account.held + amount <= i64::MAX
            &&& i64::MIN <= account.total - (account.held + amount) <= i64::MAX
        },
        Event::DisputeResolved { amount } => {
            &&& i64::MIN <= account.held - amount
            &&& i64::MIN <= account.total - (account.held - amount) <= i64::MAX
        },
        Event::ChargebackIssued { amount } => {
            &&& i64::MIN <= account.held - amount
            &&& i64::MIN <= account.total - amount
            &&& i64::MIN <= (account.total - amount) - (account.held - amount) <= i64::MAX
        },
    }
}

/// The authoritative per-event balance formula: what `account` becomes
/// when `event` is applied to it. A deposit adds to the total, a
/// withdrawal subtracts from it, a dispute moves funds from available to
/// held, a resolution moves them back, and a chargeback removes the held
/// funds and locks the account. Meaningful when `event_fits(account,
/// event)` holds.
pub open spec fn apply_event(account: ClientAccount, event: Event) -> ClientAccount {
    match event {
        Event::AmountDeposited { amount } => ClientAccount {
            total: (account.total + amount) as i64,
            available: (account.total + amount - account.held) as i64,
            ..account
        },
        Event::AmountWithdrawn { amount } => ClientAccount {
            total: (account.total - amount) as i64,
            available: (account.total - amount - account.held) as i64,
            ..account
        },
        Event::DisputeRaised { amount } => ClientAccount {
            held: (account.held + amount) as i64,
            available: (account.total - (account.held + amount)) as i64,
            ..account
        },
        Event::DisputeResolved { amount } => ClientAccount {
            held: (account.held - amount) as i64,
            available: (account.total - (account.held - amount)) as i64,
            ..account
        },
        Event::ChargebackIssued { amount } => ClientAccount {
            total: (account.total - amount) as i64,
            held: (account.held - amount) as i64,
            available: ((account.total - amount) - (account.held - amount)) as i64,
            locked: true,
        },
    }
}

/// Applying any event that fits leaves the account well formed: the
/// available funds are recomputed as total minus held by every event.
pub proof fn lemma_apply_event_well_formed(account: ClientAccount, event: Event)
    requires
        event_fits(account, event),
    ensures
        apply_event(account, event).well_formed(),
{
}

/// The locked flag is monotonic under every event: no event resets it.
pub proof fn lemma_apply_event_locked_monotonic(account: ClientAccount, event: Event)
    ensures
        account.locked ==> apply_event(account, event).locked,
{
}

/// The account a client's event history denotes: the fold of
/// `apply_event` over the events in arrival order, starting from the
/// initial account. This is the single definition of the projection
/// semantics; the live engine is proved against it.
pub open spec fn replay(events: Seq<Event>) -> ClientAccount
    decreases events.len(),
{
    if events.len() == 0 {
        ClientAccount::initial()
    } else {
        apply_event(replay(events.drop_last()), events.last())
    }
}

/// Whether every step of replaying `events` from the initial account
/// stays within the fixed-point range.
pub open spec fn replay_fits(events: Seq<Event>) -> bool
    decreases events.len(),
{
    if events.len() == 0 {
        true
    } else {
        replay_fits(events.drop_last()) && event_fits(replay(events.drop_last()), events.last())
    }
}

/// In a history whose every step fits, the event at position `i` fits
/// the account replayed from the events before it.
pub proof fn lemma_replay_fits_at(events: Seq<Event>, i: int)
    requires
        replay_fits(events),
        0 <= i < events.len(),
    ensures
        event_fits(replay(events.subrange(0, i)), events[i]),
    decreases events.len(),
{
    if i == events.len() - 1 {
        assert(events.subrange(0, i) =~= events.drop_last());
    } else {
        lemma_replay_fits_at(events.drop_last(), i);
        assert(events.drop_last().subrange(0, i) =~= events.subrange(0, i));
    }
}

impl ClientAccount {
    /// Applies one event to this account, using the authoritative
    /// formula. Shared by the live engine and by `replay_account`.
    pub fn apply(&mut self, event: &Event)
        requires
            event_fits(*old(self), *event),
        ensures
            *final(self) == apply_event(*old(self), *event),
    {
        match *event {
            Event::AmountDeposited { amount } => self.deposit(amount),
            Event::AmountWithdrawn { amount } => self.withdraw(amount),
            Event::DisputeRaised { amount } => self.freeze(amount),
            Event::DisputeResolved { amount } => self.unfreeze(amount),
            Event::ChargebackIssued { amount } => self.lock(amount),
        }
    }

    /// Adds `amount` to the total funds.
    pub fn deposit(&mut self, amount: u64)
        requires
            event_fits(*old(self), Event::AmountDeposited { amount }),
        ensures
            *final(self) == apply_event(*old(self), Event::AmountDeposited { amount }),
    {
        self.total = self.total.checked_add_unsigned(amount).unwrap();
        self.available = self.total.checked_sub(self.held).unwrap();
    }

    /// Subtracts `amount` from the total funds.
    pub fn withdraw(&mut self, amount: u64)
        requires
            event_fits(*old(self), Event::AmountWithdrawn { amount }),
        ensures
            *final(self) == apply_event(*old(self), Event::AmountWithdrawn { amount }),
    {
        self.total = self.total.checked_sub_unsigned(amount).unwrap();
        self.available = self.total.checked_sub(self.held).unwrap();
    }

    /// Moves `amount` from available to held funds.
    pub fn freeze(&mut self, amount: u64)
        requires
            event_fits(*old(self), Event::DisputeRaised { amount }),
        ensures
            *final(self) == apply_event(*old(self), Event::DisputeRaised { amount }),
    {
        self.held = self.held.checked_add_unsigned(amount).unwrap();
        self.available = self.total.checked_sub(self.held).unwrap();
    }

    /// Moves `amount` from held back to available funds.
    pub fn unfreeze(&mut self, amount: u64)
        requires
            event_fits(*old(self), Event::DisputeResolved { amount }),
        ensures
            *final(self) == apply_event(*old(self), Event::DisputeResolved { amount }),
    {
        self.held = self.held.checked_sub_unsigned(amount).unwrap();
        self.available = self.total.checked_sub(self.held).unwrap();
    }

    /// Removes `amount` from both held and total funds and locks the
    /// account.
    pub fn lock(&mut self, amount: u64)
        requires
            event_fits(*old(self), Event::ChargebackIssued { amount }),
        ensures
            *final(self) == apply_event(*old(self), Event::ChargebackIssued { amount }),
    {
        self.held = self.held.checked_sub_unsigned(amount).unwrap();
        self.total = self.total.checked_sub_unsigned(amount).unwrap();
        self.available = self.total.checked_sub(self.held).unwrap();
        self.locked = true;
    }
}

/// Decides at run time whether `event` fits `account`, exactly as
/// `event_fits` states it.
pub(crate) fn event_fits_check(account: &ClientAccount, event: &Event) -> (fits: bool)
    ensures
        fits == event_fits(*account, *event),
{
    match *event {
        Event::AmountDeposited { amount } => match account.total.checked_add_unsigned(amount) {
            Some(total) => total.checked_sub(account.held).is_some(),
            None => false,
        },
        Event::AmountWithdrawn { amount } => match account.total.checked_sub_unsigned(amount) {
            Some(total) => total.checked_sub(account.held).is_some(),
            None => false,
        },
        Event::DisputeRaised { amount } => match account.held.checked_add_unsigned(amount) {
            Some(held) => account.total.checked_sub(held).is_some(),
            None => false,
        },
        Event::DisputeResolved { amount } => match account.held.checked_sub_unsigned(amount) {
            Some(held) => account.total.checked_sub(held).is_some(),
            None => false,
        },
        Event::ChargebackIssued { amount } => match (
            account.held.checked_sub_unsigned(amount),
            account.total.checked_sub_unsigned(amount),
        ) {
            (Some(held), Some(total)) => total.checked_sub(held).is_some(),
            _ => false,
        },
    }
}

impl Default for ClientAccount {
    /// A freshly created account: no funds, not locked.
    fn default() -> (account: ClientAccount)
        ensures
            account == ClientAccount::initial(),
    {
        ClientAccount { total: 0, held: 0, available: 0, locked: false }
    }
}

/// Reconstructs an account by replaying its whole event history from the
/// initial state, one event at a time, through the same `apply` used by
/// the live engine.
pub fn replay_account(events: &Vec<Event>) -> (account: ClientAccount)
    requires
        replay_fits(events@),
    ensures
        account == replay(events@),
{
    let mut account = ClientAccount::default();
    let n = events.len();
    let mut i: usize = 0;
    assert(events@.subrange(0, 0) =~= Seq::<Event>::empty());
    while i < n
        invariant
            0 <= i <= n,
            n == events@.len(),
            replay_fits(events@),
            account == replay(events@.subrange(0, i as int)),
        decreases n - i,
    {
        proof {
            lemma_replay_fits_at(events@, i as int);
        }
        account.apply(&events[i]);
        proof {
            assert(events@.subrange(0, i + 1).drop_last() =~= events@.subrange(0, i as int));
        }
        i = i + 1;
    }
    proof {
        assert(events@.subrange(0, n as int) =~= events@);
    }
    account
}

/// One row of the final balance report.
#[derive(Clone, Copy, Debug, PartialEq, Eq, Structural)]
pub struct ClientAccountDto {
    pub client_id: u16,
    pub available: i64,
    pub held: i64,
    pub total: i64,
    pub locked: bool,
}

/// The original money-moving transaction behind a ledger entry, kept to
/// resolve later disputes.
#[derive(Clone, Copy, Debug, PartialEq, Eq, Structural)]
pub struct Transaction {
    pub amount: u64,
    pub trx_type: TransactionType,
}

/// The kind of a money-moving transaction.
#[derive(Clone, Copy, Debug, PartialEq, Eq, Structural)]
pub enum TransactionType {
    Deposit,
    Withdrawal,
}

/// The ledger key of transaction `trx_id` of client `client_id`.
/// Transaction ids are unique per client, not globally, so the key pairs
/// the two ids into one integer.
pub open spec fn tx_key(client_id: u16, trx_id: u32) -> u64 {
    (client_id as u64 * 0x1_0000_0000 + trx_id as u64) as u64
}

/// Ledger keys are injective: distinct (client, transaction) pairs get
/// distinct keys.
pub proof fn lemma_tx_key_injective(c1: u16, t1: u32, c2: u16, t2: u32)
    requires
        tx_key(c1, t1) == tx_key(c2, t2),
    ensures
        c1 == c2 && t1 == t2,
{
    assert(c1 == c2 && t1 == t2) by (nonlinear_arith)
        requires
            c1 as u64 * 0x1_0000_0000 + t1 as u64 == c2 as u64 * 0x1_0000_0000 + t2 as u64,
            t1 < 0x1_0000_0000,
            t2 < 0x1_0000_0000,
    ;
}

/// The account stored under `key`, or a fresh account if none is.
pub open spec fn account_or_default(accounts: Map<u64, ClientAccount>, key: u64) -> ClientAccount {
    if accounts.contains_key(key) {
        accounts[key]
    } else {
        ClientAccount::initial()
    }
}

/// The mathematical content of a `ProjectionStore`: the accounts by
/// client key, the order in which clients were first seen, and the
/// ledger of money-moving transactions by combined key.
#[verifier::ext_equal]
pub struct ProjectionView {
    pub accounts: Map<u64, ClientAccount>,
    pub order: Seq<u64>,
    pub ledger: Map<u64, Transaction>,
}

impl ProjectionView {
    /// Well-formedness of the store: the client order lists each account
    /// key exactly once, every key is a client id, and every account
    /// satisfies the balance invariant.
    pub open spec fn inv(self) -> bool {
        &&& forall|i: int, j: int|
            0 <= i < j < self.order.len() ==> self.order[i] != self.order[j]
        &&& forall|i: int|
            0 <= i < self.order.len() ==> self.accounts.contains_key(#[trigger] self.order[i])
        &&& forall|k: u64| #[trigger]
            self.accounts.contains_key(k) ==> self.order.contains(k) && k <= u16::MAX
        &&& forall|k: u64| #[trigger]
            self.accounts.contains_key(k) ==> self.accounts[k].well_formed()
    }
}

/// Owned lookup tables for the account projections and the transaction
/// ledger of one engine run.
pub struct ProjectionStore {
    clients: HashMap<u64, ClientAccount>,
    client_order: Vec<u64>,
    client_transactions: HashMap<u64, Transaction>,
}

impl View for ProjectionStore {
    type V = ProjectionView;

    closed spec fn view(&self) -> ProjectionView {
        ProjectionView {
            accounts: self.clients@,
            order: self.client_order@,
            ledger: self.client_transactions@,
        }
    }
}

impl Default for ProjectionStore {
    /// An empty store: no accounts, no ledger entries.
    fn default() -> (store: ProjectionStore)
        ensures
            store@.accounts == Map::<u64, ClientAccount>::empty(),
            store@.order == Seq::<u64>::empty(),
            store@.ledger == Map::<u64, Transaction>::empty(),
            store@.inv(),
    {
        let store = ProjectionStore {
            clients: HashMap::new(),
            client_order: Vec::new(),
            client_transactions: HashMap::new(),
        };
        proof {
            assert(store@.order =~= Seq::<u64>::empty());
        }
        store
    }
}

/// The report row for the account stored at position `i` of the client
/// order.
pub open spec fn dto_at(v: ProjectionView, i: int) -> ClientAccountDto {
    let key = v.order[i];
    let account = v.accounts[key];
    ClientAccountDto {
        client_id: key as u16,
        available: account.available,
        held: account.held,
        total: account.total,
        locked: account.locked,
    }
}

impl ProjectionStore {
    /// Returns the client's account, creating a fresh one on the fly if
    /// the client has not been seen before.
    pub fn get_client_account(&mut self, client_id: u16) -> (account: &ClientAccount)
        requires
            old(self)@.inv(),
        ensures
            final(self)@.inv(),
            final(self)@.accounts == old(self)@.accounts.insert(
                client_id as u64,
                account_or_default(old(self)@.accounts, client_id as u64),
            ),
            final(self)@.order == (if old(self)@.accounts.contains_key(client_id as u64) {
                old(self)@.order
            } else {
                old(self)@.order.push(client_id as u64)
            }),
            final(self)@.ledger == old(self)@.ledger,
            *account == final(self)@.accounts[client_id as u64],
    {
        let key = client_id as u64;
        if !self.clients.contains_key(&key) {
            self.clients.insert(key, ClientAccount::default());
            self.client_order.push(key);
            proof {
                assert forall|k: u64| #[trigger]
                    self.clients@.contains_key(k) implies self.client_order@.contains(k)
                    && k <= u16::MAX by {
                    if k == key {
                        assert(self.client_order@.last() == key);
                    } else {
                        assert(old(self)@.accounts.contains_key(k));
                        assert(old(self)@.order.contains(k));
                        let i = choose|i: int|
                            0 <= i < old(self)@.order.len() && old(self)@.order[i] == k;
                        assert(self.client_order@[i] == k);
                    }
                }
            }
        } else {
            proof {
                assert(self.clients@ =~= old(self)@.accounts.insert(
                    key,
                    account_or_default(old(self)@.accounts, key),
                ));
            }
        }
        match self.clients.get(&key) {
            Some(account) => account,
            None => vstd::pervasive::unreached(),
        }
    }

    /// Reads the client's account without materializing it: the stored
    /// account, or a fresh one if the client has not been seen.
    pub(crate) fn peek_client_account(&self, client_id: u16) -> (account: ClientAccount)
        ensures
            account == account_or_default(self@.accounts, client_id as u64),
    {
        let key = client_id as u64;
        match self.clients.get(&key) {
            Some(account) => *account,
            None => ClientAccount::default(),
        }
    }

    /// Looks up the original money-moving transaction recorded for
    /// (`client_id`, `trx_id`), if any.
    pub fn get_client_transaction(&self, client_id: u16, trx_id: u32) -> (trx: Option<&Transaction>)
        ensures
            (trx is Some) == self@.ledger.contains_key(tx_key(client_id, trx_id)),
            trx is Some ==> *trx->Some_0 == self@.ledger[tx_key(client_id, trx_id)],
    {
        let key = (client_id as u64) * 0x1_0000_0000 + (trx_id as u64);
        self.client_transactions.get(&key)
    }

    /// Records a money-moving transaction in the ledger. A transaction id
    /// already recorded for the client is never overwritten: the call
    /// then changes nothing and reports the duplicate by returning
    /// `false`.
    pub fn insert_transaction(
        &mut self,
        client_id: u16,
        trx_id: u32,
        amount: u64,
        trx_type: TransactionType,
    ) -> (fresh: bool)
        ensures
            fresh == !old(self)@.ledger.contains_key(tx_key(client_id, trx_id)),
            final(self)@.ledger == (if fresh {
                old(self)@.ledger.insert(tx_key(client_id, trx_id), Transaction { amount, trx_type })
            } else {
                old(self)@.ledger
            }),
            final(self)@.accounts == old(self)@.accounts,
            final(self)@.order == old(self)@.order,
    {
        let key = (client_id as u64) * 0x1_0000_0000 + (trx_id as u64);
        if self.client_transactions.contains_key(&key) {
            false
        } else {
            self.client_transactions.insert(key, Transaction { amount, trx_type });
            true
        }
    }

    /// Applies an event to the client's account, creating the account on
    /// the fly if needed. No validation happens here: the event is taken
    /// as a statement of fact.
    pub fn update_for_client(&mut self, client_id: u16, event: &Event)
        requires
            old(self)@.inv(),
            event_fits(account_or_default(old(self)@.accounts, client_id as u64), *event),
        ensures
            final(self)@.inv(),
            final(self)@.accounts == old(self)@.accounts.insert(
                client_id as u64,
                apply_event(account_or_default(old(self)@.accounts, client_id as u64), *event),
            ),
            final(self)@.order == (if old(self)@.accounts.contains_key(client_id as u64) {
                old(self)@.order
            } else {
                old(self)@.order.push(client_id as u64)
            }),
            final(self)@.ledger == old(self)@.ledger,
    {
        let mut account = *self.get_client_account(client_id);
        account.apply(event);
        let key = client_id as u64;
        self.clients.insert(key, account);
        proof {
            lemma_apply_event_well_formed(
                account_or_default(old(self)@.accounts, key),
                *event,
            );
            assert(self.clients@ =~= old(self)@.accounts.insert(
                key,
                apply_event(account_or_default(old(self)@.accounts, key), *event),
            ));
        }
    }

    /// The final balance report: one row per client, in the order in
    /// which the clients were first seen.
    pub fn output(&self) -> (rows: Vec<ClientAccountDto>)
        requires
            self@.inv(),
        ensures
            rows@.len() == self@.order.len(),
            forall|i: int| 0 <= i < rows@.len() ==> rows@[i] == dto_at(self@, i),
    {
        let mut rows: Vec<ClientAccountDto> = Vec::new();
        let n = self.client_order.len();
        let mut i: usize = 0;
        while i < n
            invariant
                0 <= i <= n,
                n == self.client_order@.len(),
                self@.inv(),
                rows@.len() == i,
                forall|j: int| 0 <= j < i ==> rows@[j] == dto_at(self@, j),
            decreases n - i,
        {
            let key = self.client_order[i];
            proof {
                assert(self@.accounts.contains_key(self@.order[i as int]));
                assert(key <= u16::MAX);
            }
            let account = match self.clients.get(&key) {
                Some(account) => *account,
                None => vstd::pervasive::unreached(),
            };
            rows.push(
                ClientAccountDto {
                    client_id: key as u16,
                    available: account.available,
                    held: account.held,
                    total: account.total,
                    locked: account.locked,
                },
            );
            i = i + 1;
        }
        rows
    }
}

} // verus!
