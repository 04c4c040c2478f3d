//! Client accounts, the lifecycle of their transactions, and the routing of
//! each row of the input to its client's account.

use vstd::prelude::*;

use std::collections::BTreeMap;

use crate::amount::{funding_units, representable, Amount, DecimalValue};
use crate::domain::{ClientId, Row, TxId};

verus! {

broadcast use {vstd::std_specs::btree::group_btree_axioms, vstd::laws_cmp::group_laws_cmp};

/// Whether a recorded transaction added funds or took them.
#[derive(Clone, Copy, Debug, PartialEq, Eq, Structural)]
pub enum ClientTxType {
    Deposit,
    Withdrawal,
}

/// Where a recorded transaction stands in its dispute lifecycle:
/// `Accounted -> Disputed -> Resolved` or `Accounted -> Disputed -> ChargedBack`.
#[derive(Clone, Copy, Debug, PartialEq, Eq, Structural)]
pub enum TxState {
    Accounted,
    Disputed,
    Resolved,
    ChargedBack,
}

/// Why a transaction was rejected.
#[derive(Clone, Copy, Debug, PartialEq, Eq, Structural)]
pub enum Rejection {
    /// The account is frozen by an earlier chargeback.
    AccountLocked,
    /// A withdrawal asks for more than the available funds.
    InsufficientFunds,
    /// The amount is negative or has more than four fractional places.
    InvalidAmount,
    /// A balance would leave the values that a decimal can hold exactly.
    Unrepresentable,
}

/// A rejected transaction: its client, its transaction and the cause.
#[derive(Clone, Copy, Debug, PartialEq, Eq, Structural)]
pub struct TransactionError {
    pub client_id: ClientId,
    pub tx_id: TxId,
    pub cause: Rejection,
}

/// An account's balances, in ten-thousandths. The total is derived:
/// `available + held`.
pub struct Balances {
    pub available: int,
    pub held: int,
    pub locked: bool,
}

/// A recorded deposit or withdrawal: its amount, in ten-thousandths, and
/// where it stands.
pub struct TxRecord {
    pub amount: int,
    pub state: TxState,
}

/// A client's account: balances and the successful deposits and
/// withdrawals, by transaction identifier.
pub struct AccountState {
    pub balances: Balances,
    pub txs: Map<u32, TxRecord>,
}

impl Balances {
    /// `available + held`.
    pub open spec fn total(self) -> int {
        self.available + self.held
    }

    /// The available, held and total funds are all values that a decimal
    /// holds exactly.
    pub open spec fn valid(self) -> bool {
        &&& representable(self.available)
        &&& representable(self.held)
        &&& representable(self.total())
    }
}

impl AccountState {
    /// The account of a client seen for the first time.
    pub open spec fn empty() -> AccountState {
        AccountState {
            balances: Balances { available: 0, held: 0, locked: false },
            txs: Map::empty(),
        }
    }

    pub open spec fn valid(self) -> bool {
        self.balances.valid()
    }
}

/// The balances `(available, held, locked)`, where all of them, and the
/// total, are decimals.
pub open spec fn settled(available: int, held: int, locked: bool) -> Option<Balances> {
    let b = Balances { available, held, locked };
    if b.valid() {
        Some(b)
    } else {
        None
    }
}

/// Records a deposit or withdrawal of `amount` against the balances `b`:
/// a deposit adds it to the available funds; a withdrawal takes it from them
/// and needs both the available and the total funds to cover it.
pub open spec fn open_tx(b: Balances, amount: int, tx_type: ClientTxType) -> Result<
    (Balances, TxRecord),
    Rejection,
> {
    if tx_type is Withdrawal && (b.available < amount || b.total() < amount) {
        Err(Rejection::InsufficientFunds)
    } else {
        let available = if tx_type is Deposit {
            b.available + amount
        } else {
            b.available - amount
        };
        match settled(available, b.held, b.locked) {
            Some(nb) => Ok((nb, TxRecord { amount, state: TxState::Accounted })),
            None => Err(Rejection::Unrepresentable),
        }
    }
}

/// A dispute moves an accounted transaction's amount from available to held.
pub open spec fn dispute_tx(b: Balances, t: TxRecord) -> Result<(Balances, TxRecord), Rejection> {
    if t.state is Accounted {
        match settled(b.available - t.amount, b.held + t.amount, b.locked) {
            Some(nb) => Ok((nb, TxRecord { amount: t.amount, state: TxState::Disputed })),
            None => Err(Rejection::Unrepresentable),
        }
    } else {
        Ok((b, t))
    }
}

/// A resolution moves a disputed transaction's amount back from held to
/// available, and ends its dispute lifecycle.
pub open spec fn resolve_tx(b: Balances, t: TxRecord) -> Result<(Balances, TxRecord), Rejection> {
    if t.state is Disputed {
        match settled(b.available + t.amount, b.held - t.amount, b.locked) {
            Some(nb) => Ok((nb, TxRecord { amount: t.amount, state: TxState::Resolved })),
            None => Err(Rejection::Unrepresentable),
        }
    } else {
        Ok((b, t))
    }
}

/// A chargeback removes a disputed transaction's amount from the held funds
/// and freezes the account.
pub open spec fn chargeback_tx(b: Balances, t: TxRecord) -> Result<(Balances, TxRecord), Rejection> {
    if t.state is Disputed {
        match settled(b.available, b.held - t.amount, true) {
            Some(nb) => Ok((nb, TxRecord { amount: t.amount, state: TxState::ChargedBack })),
            None => Err(Rejection::Unrepresentable),
        }
    } else {
        Ok((b, t))
    }
}

/// The account after a change to its balances and to the record of `tx`.
pub open spec fn apply_to_tx(
    a: AccountState,
    tx: u32,
    r: Result<(Balances, TxRecord), Rejection>,
) -> Result<AccountState, Rejection> {
    match r {
        Ok((b, t)) => Ok(AccountState { balances: b, txs: a.txs.insert(tx, t) }),
        Err(e) => Err(e),
    }
}

/// A deposit or withdrawal of the decimal `amount` as transaction `tx`.
pub open spec fn funding_step(
    a: AccountState,
    tx: u32,
    amount: DecimalValue,
    tx_type: ClientTxType,
) -> Result<AccountState, Rejection> {
    match funding_units(amount) {
        None => Err(Rejection::InvalidAmount),
        Some(x) => apply_to_tx(a, tx, open_tx(a.balances, x, tx_type)),
    }
}

/// Which change a reference to an earlier transaction asks for.
#[derive(Clone, Copy, Debug, PartialEq, Eq, Structural)]
pub enum ReferenceKind {
    Dispute,
    Resolve,
    Chargeback,
}

/// A dispute, resolution or chargeback of transaction `tx`: a reference to a
/// transaction that the account has not recorded changes nothing.
pub open spec fn reference_step(a: AccountState, tx: u32, kind: ReferenceKind) -> Result<
    AccountState,
    Rejection,
> {
    if a.txs.contains_key(tx) {
        let t = a.txs[tx];
        apply_to_tx(
            a,
            tx,
            match kind {
                ReferenceKind::Dispute => dispute_tx(a.balances, t),
                ReferenceKind::Resolve => resolve_tx(a.balances, t),
                ReferenceKind::Chargeback => chargeback_tx(a.balances, t),
            },
        )
    } else {
        Ok(a)
    }
}

/// What a row does to its client's account: the new account, or why it was
/// rejected (the account then stays as it was). A frozen account rejects
/// every row.
pub open spec fn account_step(a: AccountState, row: Row) -> Result<AccountState, Rejection> {
    if a.balances.locked {
        Err(Rejection::AccountLocked)
    } else {
        match row {
            Row::Deposit { tx_id, amount, .. } => funding_step(
                a,
                tx_id.0,
                amount,
                ClientTxType::Deposit,
            ),
            Row::Withdrawal { tx_id, amount, .. } => funding_step(
                a,
                tx_id.0,
                amount,
                ClientTxType::Withdrawal,
            ),
            Row::Dispute { tx_id, .. } => reference_step(a, tx_id.0, ReferenceKind::Dispute),
            Row::Resolve { tx_id, .. } => reference_step(a, tx_id.0, ReferenceKind::Resolve),
            Row::Chargeback { tx_id, .. } => reference_step(a, tx_id.0, ReferenceKind::Chargeback),
        }
    }
}

/// What a row does to all accounts, keyed by client: a deposit or withdrawal
/// opens an account for a client seen for the first time, even where it is
/// rejected; a dispute, resolution or chargeback for a client without an
/// account is ignored. The result says whether the row was rejected, and why.
pub open spec fn processor_step(accounts: Map<u16, AccountState>, row: Row) -> (
    Map<u16, AccountState>,
    Result<(), TransactionError>,
) {
    let (client_id, tx_id) = row.spec_ids();
    let c = client_id.0;
    if !accounts.contains_key(c) && !row.is_funding() {
        (accounts, Ok(()))
    } else {
        let before = if accounts.contains_key(c) {
            accounts[c]
        } else {
            AccountState::empty()
        };
        match account_step(before, row) {
            Ok(after) => (accounts.insert(c, after), Ok(())),
            Err(cause) => (
                accounts.insert(c, before),
                Err(TransactionError { client_id, tx_id, cause }),
            ),
        }
    }
}

/// What a transaction record holds back: its amount while disputed, and
/// nothing otherwise.
pub open spec fn disputed_amount(t: TxRecord) -> int {
    if t.state is Disputed {
        t.amount
    } else {
        0
    }
}

/// The sum, over the transactions of `m` whose identifiers are in `s`, of
/// what they hold back.
pub open spec fn disputed_sum_over(s: Set<u32>, m: Map<u32, TxRecord>) -> int {
    s.fold(0int, |acc: int, k: u32| acc + disputed_amount(m[k]))
}

/// The sum of the amounts of the account's disputed transactions.
pub open spec fn disputed_sum(txs: Map<u32, TxRecord>) -> int {
    disputed_sum_over(txs.dom(), txs)
}

/// The held funds cover every disputed transaction: recorded amounts are
/// never negative, and the held funds are at least the sum of the disputed
/// ones.
pub open spec fn held_covers_disputes(a: AccountState) -> bool {
    &&& a.txs.dom().finite()
    &&& forall|k: u32| #[trigger] a.txs.contains_key(k) ==> a.txs[k].amount >= 0
    &&& a.balances.held >= disputed_sum(a.txs)
}

/// The accounts after applying `rows`, in order, to no accounts.
pub open spec fn process_rows(rows: Seq<Row>) -> Map<u16, AccountState>
    decreases rows.len(),
{
    if rows.len() == 0 {
        Map::empty()
    } else {
        processor_step(process_rows(rows.drop_last()), rows.last()).0
    }
}

/// All accounts' balances are decimals.
pub open spec fn accounts_valid(accounts: Map<u16, AccountState>) -> bool {
    forall|c: u16| #[trigger] accounts.contains_key(c) ==> accounts[c].valid()
}

/// A recorded transaction.
#[derive(Clone, Copy, Debug)]
struct ClientTx {
    amount: Amount,
    state: TxState,
}

impl View for ClientTx {
    type V = TxRecord;

    closed spec fn view(&self) -> TxRecord {
        TxRecord { amount: self.amount@, state: self.state }
    }
}

/// An account's balances.
#[derive(Clone, Copy, Debug)]
struct ClientBalances {
    available: Amount,
    held: Amount,
    locked: bool,
}

impl View for ClientBalances {
    type V = Balances;

    closed spec fn view(&self) -> Balances {
        Balances { available: self.available@, held: self.held@, locked: self.locked }
    }
}

impl ClientBalances {
    /// The balances `(available, held, locked)`, where their total is a decimal.
    fn settle(available: Amount, held: Amount, locked: bool) -> (r: Option<ClientBalances>)
        ensures
            match settled(available@, held@, locked) {
                Some(b) => r matches Some(nb) && nb@ == b,
                None => r is None,
            },
    {
        proof {
            use_type_invariant(&available);
            use_type_invariant(&held);
            available.lemma_inv();
            held.lemma_inv();
        }
        match available.checked_add(held) {
            Some(_) => Some(ClientBalances { available, held, locked }),
            None => None,
        }
    }
}

impl ClientTx {
    /// Records a deposit or withdrawal of `amount`, changing the balances;
    /// where it is rejected the balances stay as they were.
    fn new_accounted(amount: Amount, tx_type: ClientTxType, balances: &mut ClientBalances) -> (r:
        Result<ClientTx, Rejection>)
        requires
            old(balances)@.valid(),
        ensures
            final(balances)@.valid(),
            match open_tx(old(balances)@, amount@, tx_type) {
                Ok((b, t)) => r matches Ok(tx) && tx@ == t && final(balances)@ == b,
                Err(e) => r matches Err(re) && re == e && final(balances)@ == old(balances)@,
            },
    {
        let available = match tx_type {
            ClientTxType::Deposit => balances.available.checked_add(amount),
            ClientTxType::Withdrawal => {
                proof {
                    use_type_invariant(&balances.available);
                    use_type_invariant(&balances.held);
                }
                let total = match balances.available.checked_add(balances.held) {
                    Some(t) => t,
                    None => return Err(Rejection::Unrepresentable),
                };
                if !balances.available.at_least(&amount) || !total.at_least(&amount) {
                    return Err(Rejection::InsufficientFunds);
                }
                balances.available.checked_sub(amount)
            },
        };
        let available = match available {
            Some(a) => a,
            None => return Err(Rejection::Unrepresentable),
        };
        match ClientBalances::settle(available, balances.held, balances.locked) {
            Some(nb) => {
                *balances = nb;
                Ok(ClientTx { amount, state: TxState::Accounted })
            },
            None => Err(Rejection::Unrepresentable),
        }
    }

    /// Disputes the transaction, where it is accounted.
    fn dispute(&mut self, balances: &mut ClientBalances) -> (r: Result<(), Rejection>)
        requires
            old(balances)@.valid(),
        ensures
            final(balances)@.valid(),
            match dispute_tx(old(balances)@, old(self)@) {
                Ok((b, t)) => r is Ok && final(balances)@ == b && final(self)@ == t,
                Err(e) => r matches Err(re) && re == e && final(balances)@ == old(balances)@
                    && final(self)@ == old(self)@,
            },
    {
        if self.state != TxState::Accounted {
            return Ok(());
        }
        let available = match balances.available.checked_sub(self.amount) {
            Some(a) => a,
            None => return Err(Rejection::Unrepresentable),
        };
        let held = match balances.held.checked_add(self.amount) {
            Some(h) => h,
            None => return Err(Rejection::Unrepresentable),
        };
        match ClientBalances::settle(available, held, balances.locked) {
            Some(nb) => {
                *balances = nb;
                self.state = TxState::Disputed;
                Ok(())
            },
            None => Err(Rejection::Unrepresentable),
        }
    }

    /// Resolves the transaction, where it is disputed.
    fn resolve(&mut self, balances: &mut ClientBalances) -> (r: Result<(), Rejection>)
        requires
            old(balances)@.valid(),
        ensures
            final(balances)@.valid(),
            match resolve_tx(old(balances)@, old(self)@) {
                Ok((b, t)) => r is Ok && final(balances)@ == b && final(self)@ == t,
                Err(e) => r matches Err(re) && re == e && final(balances)@ == old(balances)@
                    && final(self)@ == old(self)@,
            },
    {
        if self.state != TxState::Disputed {
            return Ok(());
        }
        let available = match balances.available.checked_add(self.amount) {
            Some(a) => a,
            None => return Err(Rejection::Unrepresentable),
        };
        let held = match balances.held.checked_sub(self.amount) {
            Some(h) => h,
            None => return Err(Rejection::Unrepresentable),
        };
        match ClientBalances::settle(available, held, balances.locked) {
            Some(nb) => {
                *balances = nb;
                self.state = TxState::Resolved;
                Ok(())
            },
            None => Err(Rejection::Unrepresentable),
        }
    }

    /// Charges the transaction back, where it is disputed, and freezes the
    /// account.
    fn chargeback(&mut self, balances: &mut ClientBalances) -> (r: Result<(), Rejection>)
        requires
            old(balances)@.valid(),
        ensures
            final(balances)@.valid(),
            match chargeback_tx(old(balances)@, old(self)@) {
                Ok((b, t)) => r is Ok && final(balances)@ == b && final(self)@ == t,
                Err(e) => r matches Err(re) && re == e && final(balances)@ == old(balances)@
                    && final(self)@ == old(self)@,
            },
    {
        if self.state != TxState::Disputed {
            return Ok(());
        }
        let held = match balances.held.checked_sub(self.amount) {
            Some(h) => h,
            None => return Err(Rejection::Unrepresentable),
        };
        match ClientBalances::settle(balances.available, held, true) {
            Some(nb) => {
                *balances = nb;
                self.state = TxState::ChargedBack;
                Ok(())
            },
            None => Err(Rejection::Unrepresentable),
        }
    }
}

/// A client's account: its balances and its successful deposits and
/// withdrawals by transaction identifier.
struct ClientAccount {
    txs: BTreeMap<u32, ClientTx>,
    balances: ClientBalances,
}

impl View for ClientAccount {
    type V = AccountState;

    closed spec fn view(&self) -> AccountState {
        AccountState {
            balances: self.balances@,
            txs: self.txs@.map_values(|t: ClientTx| t@),
        }
    }
}

impl ClientAccount {
    /// The account of a client seen for the first time.
    fn new() -> (r: ClientAccount)
        ensures
            r@ == AccountState::empty(),
            r@.valid(),
    {
        let r = ClientAccount {
            txs: BTreeMap::new(),
            balances: ClientBalances { available: Amount::zero(), held: Amount::zero(), locked: false },
        };
        proof {
            assert(r@.txs =~= Map::empty());
            assert(representable(0)) by {
                reveal_with_fuel(crate::amount::pow10, 1);
            }
        }
        r
    }

    /// Applies a row to the account; a rejected row leaves it unchanged.
    fn process_row(&mut self, row: Row) -> (r: Result<(), Rejection>)
        requires
            old(self)@.valid(),
        ensures
            final(self)@.valid(),
            match account_step(old(self)@, row) {
                Ok(a) => r is Ok && final(self)@ == a,
                Err(e) => r matches Err(re) && re == e && final(self)@ == old(self)@,
            },
    {
        if self.balances.locked {
            return Err(Rejection::AccountLocked);
        }
        match row {
            Row::Deposit { tx_id, amount, .. } => self.deposit(tx_id, amount),
            Row::Withdrawal { tx_id, amount, .. } => self.withdraw(tx_id, amount),
            Row::Dispute { tx_id, .. } => self.dispute(tx_id),
            Row::Resolve { tx_id, .. } => self.resolve(tx_id),
            Row::Chargeback { tx_id, .. } => self.chargeback(tx_id),
        }
    }

    /// Records a deposit or withdrawal of the decimal `amount`.
    fn fund(&mut self, tx_id: TxId, amount: DecimalValue, tx_type: ClientTxType) -> (r: Result<
        (),
        Rejection,
    >)
        requires
            old(self)@.valid(),
        ensures
            final(self)@.valid(),
            match funding_step(old(self)@, tx_id.0, amount, tx_type) {
                Ok(a) => r is Ok && final(self)@ == a,
                Err(e) => r matches Err(re) && re == e && final(self)@ == old(self)@,
            },
    {
        let amount = match Amount::from_funding(amount) {
            Some(a) => a,
            None => return Err(Rejection::InvalidAmount),
        };
        match ClientTx::new_accounted(amount, tx_type, &mut self.balances) {
            Ok(tx) => {
                self.txs.insert(tx_id.0, tx);
                proof {
                    assert(self@.txs =~= old(self)@.txs.insert(tx_id.0, tx@));
                }
                Ok(())
            },
            Err(e) => Err(e),
        }
    }

    /// Records a deposit.
    fn deposit(&mut self, tx_id: TxId, amount: DecimalValue) -> (r: Result<(), Rejection>)
        requires
            old(self)@.valid(),
        ensures
            final(self)@.valid(),
            match funding_step(old(self)@, tx_id.0, amount, ClientTxType::Deposit) {
                Ok(a) => r is Ok && final(self)@ == a,
                Err(e) => r matches Err(re) && re == e && final(self)@ == old(self)@,
            },
    {
        self.fund(tx_id, amount, ClientTxType::Deposit)
    }

    /// Records a withdrawal.
    fn withdraw(&mut self, tx_id: TxId, amount: DecimalValue) -> (r: Result<(), Rejection>)
        requires
            old(self)@.valid(),
        ensures
            final(self)@.valid(),
            match funding_step(old(self)@, tx_id.0, amount, ClientTxType::Withdrawal) {
                Ok(a) => r is Ok && final(self)@ == a,
                Err(e) => r matches Err(re) && re == e && final(self)@ == old(self)@,
            },
    {
        self.fund(tx_id, amount, ClientTxType::Withdrawal)
    }

    /// Applies a dispute, resolution or chargeback of transaction `tx_id`.
    fn refer(&mut self, tx_id: TxId, kind: ReferenceKind) -> (r: Result<(), Rejection>)
        requires
            old(self)@.valid(),
        ensures
            final(self)@.valid(),
            match reference_step(old(self)@, tx_id.0, kind) {
                Ok(a) => r is Ok && final(self)@ == a,
                Err(e) => r matches Err(re) && re == e && final(self)@ == old(self)@,
            },
    {
        let mut tx = match self.txs.get(&tx_id.0) {
            Some(t) => *t,
            None => return Ok(()),
        };
        let r = match kind {
            ReferenceKind::Dispute => tx.dispute(&mut self.balances),
            ReferenceKind::Resolve => tx.resolve(&mut self.balances),
            ReferenceKind::Chargeback => tx.chargeback(&mut self.balances),
        };
        match r {
            Ok(()) => {
                self.txs.insert(tx_id.0, tx);
                proof {
                    assert(self@.txs =~= old(self)@.txs.insert(tx_id.0, tx@));
                }
                Ok(())
            },
            Err(e) => Err(e),
        }
    }

    /// Disputes transaction `tx_id`.
    fn dispute(&mut self, tx_id: TxId) -> (r: Result<(), Rejection>)
        requires
            old(self)@.valid(),
        ensures
            final(self)@.valid(),
            match reference_step(old(self)@, tx_id.0, ReferenceKind::Dispute) {
                Ok(a) => r is Ok && final(self)@ == a,
                Err(e) => r matches Err(re) && re == e && final(self)@ == old(self)@,
            },
    {
        self.refer(tx_id, ReferenceKind::Dispute)
    }

    /// Resolves transaction `tx_id`.
    fn resolve(&mut self, tx_id: TxId) -> (r: Result<(), Rejection>)
        requires
            old(self)@.valid(),
        ensures
            final(self)@.valid(),
            match reference_step(old(self)@, tx_id.0, ReferenceKind::Resolve) {
                Ok(a) => r is Ok && final(self)@ == a,
                Err(e) => r matches Err(re) && re == e && final(self)@ == old(self)@,
            },
    {
        self.refer(tx_id, ReferenceKind::Resolve)
    }

    /// Charges transaction `tx_id` back.
    fn chargeback(&mut self, tx_id: TxId) -> (r: Result<(), Rejection>)
        requires
            old(self)@.valid(),
        ensures
            final(self)@.valid(),
            match reference_step(old(self)@, tx_id.0, ReferenceKind::Chargeback) {
                Ok(a) => r is Ok && final(self)@ == a,
                Err(e) => r matches Err(re) && re == e && final(self)@ == old(self)@,
            },
    {
        self.refer(tx_id, ReferenceKind::Chargeback)
    }
}

/// One client's balances as they are reported: the total is
/// `available + held`.
#[derive(Clone, Copy, Debug)]
pub struct ClientBalancesOutput {
    pub client_id: ClientId,
    pub available: Amount,
    pub held: Amount,
    pub total: Amount,
    pub locked: bool,
}

impl ClientBalancesOutput {
    /// The report reads the account `a` of client `c`.
    pub open spec fn reports(self, c: u16, a: AccountState) -> bool {
        &&& self.client_id == ClientId(c)
        &&& self.available@ == a.balances.available
        &&& self.held@ == a.balances.held
        &&& self.total@ == a.balances.total()
        &&& self.locked == a.balances.locked
    }

    /// The report of one account's balances.
    fn new(client_id: ClientId, balances: &ClientBalances) -> (r: ClientBalancesOutput)
        requires
            balances@.valid(),
        ensures
            r.reports(client_id.0, AccountState { balances: balances@, txs: Map::empty() }),
    {
        let total = balances.available.checked_add(balances.held).unwrap();
        ClientBalancesOutput {
            client_id,
            available: balances.available,
            held: balances.held,
            total,
            locked: balances.locked,
        }
    }
}

/// `out` reports every account of `accounts` once, in increasing order of
/// client.
pub open spec fn reports_all(accounts: Map<u16, AccountState>, out: Seq<ClientBalancesOutput>) -> bool {
    &&& out.len() == accounts.dom().len()
    &&& forall|i: int|
        0 <= i < out.len() ==> {
            let c = (#[trigger] out[i]).client_id.0;
            accounts.contains_key(c) && out[i].reports(c, accounts[c])
        }
    &&& forall|i: int, j: int|
        0 <= i < j < out.len() ==> (#[trigger] out[i]).client_id.0 < (#[trigger] out[j]).client_id.0
    &&& forall|c: u16|
        #[trigger] accounts.contains_key(c) ==> exists|i: int|
            0 <= i < out.len() && (#[trigger] out[i]).client_id.0 == c
}

/// The accounts of all clients seen so far, keyed by client.
pub struct TransactionsProcessor {
    client_accounts: BTreeMap<u16, ClientAccount>,
}

impl View for TransactionsProcessor {
    type V = Map<u16, AccountState>;

    closed spec fn view(&self) -> Map<u16, AccountState> {
        self.client_accounts@.map_values(|a: ClientAccount| a@)
    }
}

impl TransactionsProcessor {
    /// Every account's balances are decimals, and its held funds cover its
    /// disputed transactions.
    pub closed spec fn wf(&self) -> bool {
        &&& accounts_valid(self@)
        &&& forall|c: u16| #[trigger] self@.contains_key(c) ==> held_covers_disputes(self@[c])
    }

    /// A processor with no accounts.
    pub fn new() -> (r: TransactionsProcessor)
        ensures
            r.wf(),
            r@ == Map::<u16, AccountState>::empty(),
    {
        let r = TransactionsProcessor { client_accounts: BTreeMap::new() };
        proof {
            assert(r@ =~= Map::<u16, AccountState>::empty());
        }
        r
    }

    /// Applies one row of the input to its client's account. A rejected row
    /// changes no balance and no transaction history; it is answered with the
    /// client, the transaction and the cause.
    pub fn process_row(&mut self, row: Row) -> (r: Result<(), TransactionError>)
        requires
            old(self).wf(),
        ensures
            final(self).wf(),
            final(self)@ == processor_step(old(self)@, row).0,
            r == processor_step(old(self)@, row).1,
    {
        let (client_id, tx_id) = row.ids();
        let c = client_id.0;
        let ghost before_map = self.client_accounts@;
        let mut account = match self.client_accounts.remove(&c) {
            Some(a) => a,
            None => {
                if !row.moves_funds() {
                    proof {
                        assert(self.client_accounts@ =~= before_map);
                    }
                    return Ok(());
                }
                ClientAccount::new()
            },
        };
        proof {
            assert(self.client_accounts@ == before_map.remove(c));
            assert(old(self)@.contains_key(c) ==> old(self)@[c] == account@);
            assert(account@.valid());
            crate::laws::lemma_held_never_negative(old(self)@, row);
        }
        let r = account.process_row(row);
        self.client_accounts.insert(c, account);
        proof {
            assert(self@ =~= old(self)@.insert(c, account@));
            assert forall|k: u16| #[trigger] self@.contains_key(k) implies self@[k].valid() by {
                if k != c {
                    assert(old(self)@.contains_key(k));
                }
            }
            assert(self@ == processor_step(old(self)@, row).0);
        }
        match r {
            Ok(()) => Ok(()),
            Err(cause) => Err(TransactionError { client_id, tx_id, cause }),
        }
    }

    /// The balances of every account, in increasing order of client.
    pub fn get_output(self) -> (out: Vec<ClientBalancesOutput>)
        requires
            self.wf(),
        ensures
            reports_all(self@, out@),
            forall|i: int| 0 <= i < out.len() ==> (#[trigger] out@[i]).held@ >= 0,
    {
        let mut out: Vec<ClientBalancesOutput> = Vec::new();
        let iter = self.client_accounts.iter();
        let ghost s = vstd::std_specs::iter::IteratorSpec::remaining(&iter);
        proof {
            assert(vstd::std_specs::btree::increasing_seq(s.map_values(|kv: (&u16, &ClientAccount)| *kv.0)));
            assert(s == vstd::std_specs::iter::IteratorSpec::remaining(&vstd::std_specs::btree::spec_btree_map_iter(&self.client_accounts)));
            assert forall|i: int| 0 <= i < s.len() implies self.client_accounts@.contains_key(*s[i].0)
                && self.client_accounts@[*s[i].0] == *s[i].1 by {
                assert(self.client_accounts@.contains_key(*s[i].0));
            }
        }
        for entry in it: iter
            invariant
                self.wf(),
                it.seq() == s,
                forall|i: int|
                    0 <= i < s.len() ==> self.client_accounts@.contains_key(*(#[trigger] s[i]).0)
                        && self.client_accounts@[*s[i].0] == *s[i].1,
                out.len() == it.index(),
                forall|i: int|
                    0 <= i < it.index() ==> (#[trigger] out@[i]).reports(
                        *it.seq()[i].0,
                        (*it.seq()[i].1)@,
                    ) && out@[i].held@ >= 0,
        {
            let (k, account) = entry;
            proof {
                assert(entry == s[it.index()]);
                assert(self@.contains_key(*k));
                crate::laws::lemma_covered_held_nonnegative(self@[*k]);
            }
            out.push(ClientBalancesOutput::new(ClientId(*k), &account.balances));
        }
        proof {
            let keys = s.map_values(|kv: (&u16, &ClientAccount)| *kv.0);
            assert(self@.dom() =~= self.client_accounts@.dom());
            assert forall|i: int, j: int|
                0 <= i < j < out.len() implies (#[trigger] out@[i]).client_id.0 < (
            #[trigger] out@[j]).client_id.0 by {
                assert(keys[i] == *s[i].0);
                assert(keys[j] == *s[j].0);
                assert(vstd::laws_cmp::obeys_cmp::<u16>());
                assert(vstd::std_specs::cmp::OrdSpec::cmp_spec(&keys[i], &keys[j]) is Less);
            }
            assert forall|c: u16| #[trigger] self@.contains_key(c) implies exists|i: int|
                0 <= i < out.len() && (#[trigger] out@[i]).client_id.0 == c by {
                assert(self.client_accounts@.contains_key(c));
                assert(s.contains((&c, &self.client_accounts@[c])));
                let i = choose|i: int| 0 <= i < s.len() && s[i] == (&c, &self.client_accounts@[c]);
                assert(out@[i].client_id.0 == c);
            }
        }
        out
    }
}

} // verus!
