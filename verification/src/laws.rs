//! What holds of every row and every state of the accounts.

use vstd::prelude::*;

use crate::amount::{funding_units, pow10, representable, DecimalValue};
use crate::domain::{count_named, header_problem, ClientId, Column, Row, TxId};
use crate::tx_processor::{
    account_step, accounts_valid, dispute_tx, resolve_tx, disputed_amount, disputed_sum, disputed_sum_over,
    held_covers_disputes, process_rows, processor_step, AccountState, Balances, Rejection, TransactionError,
    TxRecord, TxState,
};

verus! {

proof fn lemma_zero_representable()
    ensures
        representable(0),
{
}

/// Every row keeps every account's available, held and total funds values
/// that a decimal holds exactly.
pub proof fn lemma_step_keeps_accounts_valid(accounts: Map<u16, AccountState>, row: Row)
    requires
        accounts_valid(accounts),
    ensures
        accounts_valid(processor_step(accounts, row).0),
{
    lemma_zero_representable();
    let c = row.spec_ids().0.0;
    let after = processor_step(accounts, row).0;
    assert forall|k: u16| #[trigger] after.contains_key(k) implies after[k].valid() by {
        if k != c {
            assert(accounts.contains_key(k));
        } else {
            let before = if accounts.contains_key(c) {
                accounts[c]
            } else {
                AccountState::empty()
            };
            assert(before.valid());
        }
    }
}

/// A rejected row changes no balance and no transaction history; the only
/// trace it can leave is the empty account of a client seen for the first
/// time.
pub proof fn lemma_rejection_is_atomic(accounts: Map<u16, AccountState>, row: Row)
    requires
        processor_step(accounts, row).1 is Err,
    ensures
        processor_step(accounts, row).0 == if accounts.contains_key(row.spec_ids().0.0) {
            accounts
        } else {
            accounts.insert(row.spec_ids().0.0, AccountState::empty())
        },
{
    let c = row.spec_ids().0.0;
    if accounts.contains_key(c) {
        assert(accounts.insert(c, accounts[c]) =~= accounts);
    }
}

/// A row changes only the account of the client it names: every other
/// client's account stays as it was, and no other account is opened.
pub proof fn lemma_other_clients_untouched(accounts: Map<u16, AccountState>, row: Row, other: u16)
    requires
        other != row.spec_ids().0.0,
    ensures
        processor_step(accounts, row).0.contains_key(other) == accounts.contains_key(other),
        accounts.contains_key(other) ==> processor_step(accounts, row).0[other] == accounts[other],
{
}

/// A deposit or withdrawal opens an account for its client where there is
/// none, whether it succeeds or not.
pub proof fn lemma_funding_opens_account(accounts: Map<u16, AccountState>, row: Row)
    requires
        row.is_funding(),
    ensures
        processor_step(accounts, row).0.contains_key(row.spec_ids().0.0),
        !accounts.contains_key(row.spec_ids().0.0) && processor_step(accounts, row).1 is Err
            ==> processor_step(accounts, row).0[row.spec_ids().0.0] == AccountState::empty(),
{
}

/// Rows of different clients can be applied in either order with the same
/// accounts and the same answers: each client's accounts depend on its own
/// rows alone.
pub proof fn lemma_rows_of_different_clients_commute(
    accounts: Map<u16, AccountState>,
    first: Row,
    second: Row,
)
    requires
        first.spec_ids().0 != second.spec_ids().0,
    ensures
        ({
            let (a1, r1) = processor_step(accounts, first);
            let (a12, r2) = processor_step(a1, second);
            let (b2, s2) = processor_step(accounts, second);
            let (b21, s1) = processor_step(b2, first);
            a12 == b21 && r1 == s1 && r2 == s2
        }),
{
    let c1 = first.spec_ids().0.0;
    let c2 = second.spec_ids().0.0;
    let (a1, r1) = processor_step(accounts, first);
    let (a12, r2) = processor_step(a1, second);
    let (b2, s2) = processor_step(accounts, second);
    let (b21, s1) = processor_step(b2, first);
    lemma_other_clients_untouched(accounts, first, c2);
    lemma_other_clients_untouched(accounts, second, c1);
    lemma_other_clients_untouched(a1, second, c1);
    lemma_other_clients_untouched(b2, first, c2);
    assert forall|k: u16| k != c1 && k != c2 implies (a12.contains_key(k) == b21.contains_key(k))
        && (a12.contains_key(k) ==> a12[k] == b21[k]) by {
        lemma_other_clients_untouched(accounts, first, k);
        lemma_other_clients_untouched(accounts, second, k);
        lemma_other_clients_untouched(a1, second, k);
        lemma_other_clients_untouched(b2, first, k);
    }
    assert(a12 =~= b21);
}

/// A frozen account rejects every row with `AccountLocked` and stays as it
/// was.
pub proof fn lemma_locked_account_rejects_everything(accounts: Map<u16, AccountState>, row: Row)
    requires
        accounts.contains_key(row.spec_ids().0.0),
        accounts[row.spec_ids().0.0].balances.locked,
    ensures
        processor_step(accounts, row) == (
            accounts,
            Err::<(), TransactionError>(
                TransactionError {
                    client_id: row.spec_ids().0,
                    tx_id: row.spec_ids().1,
                    cause: Rejection::AccountLocked,
                },
            ),
        ),
{
    let c = row.spec_ids().0.0;
    assert(accounts.insert(c, accounts[c]) =~= accounts);
}

/// Once frozen, an account stays frozen and unchanged, whatever rows follow.
pub proof fn lemma_lock_is_permanent(accounts: Map<u16, AccountState>, row: Row, c: u16)
    requires
        accounts.contains_key(c),
        accounts[c].balances.locked,
    ensures
        processor_step(accounts, row).0.contains_key(c),
        processor_step(accounts, row).0[c] == accounts[c],
{
    if c == row.spec_ids().0.0 {
        lemma_locked_account_rejects_everything(accounts, row);
    }
}

/// A dispute, resolution or chargeback that names a client without an
/// account, or a transaction that the client's account has not recorded
/// (an unknown one, or another client's), is ignored: nothing changes, no
/// account is opened and nothing is rejected, unless the account is frozen.
pub proof fn lemma_unknown_reference_ignored(accounts: Map<u16, AccountState>, row: Row)
    requires
        !row.is_funding(),
        !accounts.contains_key(row.spec_ids().0.0) || (!accounts[row.spec_ids().0.0].balances.locked
            && !accounts[row.spec_ids().0.0].txs.contains_key(row.spec_ids().1.0)),
    ensures
        processor_step(accounts, row) == (accounts, Ok::<(), TransactionError>(())),
{
    let c = row.spec_ids().0.0;
    if accounts.contains_key(c) {
        assert(accounts.insert(c, accounts[c]) =~= accounts);
    }
}

/// A deposit of a valid amount adds it to the available funds and records
/// the transaction as accounted; it is rejected only where the amount is
/// invalid, the account frozen, or the new balances would leave the decimals.
pub proof fn lemma_deposit(a: AccountState, client_id: ClientId, tx_id: TxId, amount: DecimalValue)
    requires
        !a.balances.locked,
    ensures
        ({
            let r = account_step(a, Row::Deposit { client_id, tx_id, amount });
            match funding_units(amount) {
                None => r == Err::<AccountState, Rejection>(Rejection::InvalidAmount),
                Some(x) => if representable(a.balances.available + x) && representable(
                    a.balances.held,
                ) && representable(a.balances.total() + x) {
                    r == Ok::<AccountState, Rejection>(
                        AccountState {
                            balances: Balances {
                                available: a.balances.available + x,
                                held: a.balances.held,
                                locked: false,
                            },
                            txs: a.txs.insert(
                                tx_id.0,
                                TxRecord { amount: x, state: TxState::Accounted },
                            ),
                        },
                    )
                } else {
                    r == Err::<AccountState, Rejection>(Rejection::Unrepresentable)
                },
            }
        }),
{
}

/// A withdrawal takes a valid amount from the available funds where both the
/// available and the total funds cover it (withdrawing all of them is
/// allowed), and never leaves either negative; where they do not cover it, it
/// is rejected with `InsufficientFunds`.
pub proof fn lemma_withdrawal(a: AccountState, client_id: ClientId, tx_id: TxId, amount: DecimalValue)
    requires
        !a.balances.locked,
    ensures
        ({
            let r = account_step(a, Row::Withdrawal { client_id, tx_id, amount });
            match funding_units(amount) {
                None => r == Err::<AccountState, Rejection>(Rejection::InvalidAmount),
                Some(x) => if a.balances.available < x || a.balances.total() < x {
                    r == Err::<AccountState, Rejection>(Rejection::InsufficientFunds)
                } else if representable(a.balances.available - x) && representable(
                    a.balances.held,
                ) && representable(a.balances.total() - x) {
                    &&& r == Ok::<AccountState, Rejection>(
                        AccountState {
                            balances: Balances {
                                available: a.balances.available - x,
                                held: a.balances.held,
                                locked: false,
                            },
                            txs: a.txs.insert(
                                tx_id.0,
                                TxRecord { amount: x, state: TxState::Accounted },
                            ),
                        },
                    )
                    &&& r->Ok_0.balances.available >= 0
                    &&& r->Ok_0.balances.total() >= 0
                } else {
                    r == Err::<AccountState, Rejection>(Rejection::Unrepresentable)
                },
            }
        }),
{
}

/// Negative amounts, and amounts with more than four fractional places, are
/// rejected with `InvalidAmount`; zero is a valid amount.
pub proof fn lemma_invalid_amounts(d: DecimalValue)
    ensures
        d.mantissa < 0 ==> funding_units(d) is None,
        d.scale > 4 && (d.mantissa as int) % pow10((d.scale - 4) as nat) != 0 ==> funding_units(d) is None,
        d.mantissa == 0 ==> funding_units(d) == Some(0int),
{
    if d.mantissa == 0 {
        crate::amount::lemma_pow10_positive((d.scale - 4) as nat);
        lemma_zero_representable();
        if d.scale <= 4 {
            assert(0 * pow10((4 - d.scale) as nat) == 0);
        }
    }
}

/// A dispute of an accounted transaction moves its amount from the available
/// funds to the held ones and leaves the total as it was; a resolution then
/// moves it back, restoring the balances that the account had before the
/// dispute, and ends the transaction's dispute lifecycle.
pub proof fn lemma_dispute_then_resolve_restores(
    a: AccountState,
    client_id: ClientId,
    tx_id: TxId,
)
    requires
        a.valid(),
        !a.balances.locked,
        a.txs.contains_key(tx_id.0),
        a.txs[tx_id.0].state is Accounted,
        account_step(a, Row::Dispute { client_id, tx_id }) is Ok,
    ensures
        ({
            let x = a.txs[tx_id.0].amount;
            let d = account_step(a, Row::Dispute { client_id, tx_id })->Ok_0;
            let r = account_step(d, Row::Resolve { client_id, tx_id });
            &&& d.balances.available == a.balances.available - x
            &&& d.balances.held == a.balances.held + x
            &&& d.balances.total() == a.balances.total()
            &&& d.txs == a.txs.insert(tx_id.0, TxRecord { amount: x, state: TxState::Disputed })
            &&& r == Ok::<AccountState, Rejection>(
                AccountState {
                    balances: a.balances,
                    txs: a.txs.insert(tx_id.0, TxRecord { amount: x, state: TxState::Resolved }),
                },
            )
        }),
{
    let x = a.txs[tx_id.0].amount;
    let d = account_step(a, Row::Dispute { client_id, tx_id })->Ok_0;
    assert(d.txs.contains_key(tx_id.0));
    assert(d.txs[tx_id.0] == TxRecord { amount: x, state: TxState::Disputed });
    assert(a.balances.available - x + x == a.balances.available);
    assert(a.balances.held + x - x == a.balances.held);
    assert(d.txs.insert(tx_id.0, TxRecord { amount: x, state: TxState::Resolved })
        =~= a.txs.insert(tx_id.0, TxRecord { amount: x, state: TxState::Resolved }));
}

/// Disputes and resolutions never change an account's total funds nor
/// whether it is frozen.
pub proof fn lemma_disputes_keep_total(a: AccountState, row: Row)
    requires
        row is Dispute || row is Resolve,
        account_step(a, row) is Ok,
    ensures
        account_step(a, row)->Ok_0.balances.total() == a.balances.total(),
        account_step(a, row)->Ok_0.balances.locked == a.balances.locked,
{
}

/// A chargeback of a disputed transaction removes its amount from the held
/// and the total funds, leaves the available funds as they were, and freezes
/// the account.
pub proof fn lemma_chargeback(a: AccountState, client_id: ClientId, tx_id: TxId)
    requires
        !a.balances.locked,
        a.txs.contains_key(tx_id.0),
        a.txs[tx_id.0].state is Disputed,
        account_step(a, Row::Chargeback { client_id, tx_id }) is Ok,
    ensures
        ({
            let x = a.txs[tx_id.0].amount;
            let c = account_step(a, Row::Chargeback { client_id, tx_id })->Ok_0;
            &&& c.balances.locked
            &&& c.balances.available == a.balances.available
            &&& c.balances.held == a.balances.held - x
            &&& c.balances.total() == a.balances.total() - x
            &&& c.txs == a.txs.insert(tx_id.0, TxRecord { amount: x, state: TxState::ChargedBack })
        }),
{
}

/// A transaction only moves along its lifecycle: a dispute of one that is
/// not accounted, or a resolution or chargeback of one that is not disputed,
/// changes nothing. In particular, once resolved or charged back, a
/// transaction cannot be disputed again.
pub proof fn lemma_invalid_transitions_ignored(a: AccountState, row: Row)
    requires
        !a.balances.locked,
        a.txs.contains_key(row.spec_ids().1.0),
        row is Dispute ==> !(a.txs[row.spec_ids().1.0].state is Accounted),
        row is Resolve ==> !(a.txs[row.spec_ids().1.0].state is Disputed),
        row is Chargeback ==> !(a.txs[row.spec_ids().1.0].state is Disputed),
        !row.is_funding(),
    ensures
        account_step(a, row) == Ok::<AccountState, Rejection>(a),
{
    let t = row.spec_ids().1.0;
    assert(a.txs.insert(t, a.txs[t]) =~= a.txs);
}

proof fn lemma_sum_step_commutes(m: Map<u32, TxRecord>)
    ensures
        vstd::set::fold::is_fun_commutative(|acc: int, k: u32| acc + disputed_amount(m[k])),
{
    let f = |acc: int, k: u32| acc + disputed_amount(m[k]);
    assert forall|a1: u32, a2: u32, b: int| #[trigger] f(f(b, a2), a1) == f(f(b, a1), a2) by {}
}

/// Adding one identifier to the summed set adds what its record holds back.
proof fn lemma_sum_over_insert(s: Set<u32>, m: Map<u32, TxRecord>, k: u32)
    requires
        s.finite(),
        !s.contains(k),
    ensures
        disputed_sum_over(s.insert(k), m) == disputed_sum_over(s, m) + disputed_amount(m[k]),
{
    lemma_sum_step_commutes(m);
    vstd::set::fold::lemma_fold_insert(
        s,
        0int,
        |acc: int, k: u32| acc + disputed_amount(m[k]),
        k,
    );
}

/// The sum over a set only reads the records of the identifiers in it.
proof fn lemma_sum_over_agree(s: Set<u32>, m1: Map<u32, TxRecord>, m2: Map<u32, TxRecord>)
    requires
        s.finite(),
        forall|k: u32| s.contains(k) ==> disputed_amount(m1[k]) == disputed_amount(m2[k]),
    ensures
        disputed_sum_over(s, m1) == disputed_sum_over(s, m2),
    decreases s.len(),
{
    if s.len() == 0 {
        assert(s =~= Set::empty());
        vstd::set::fold::lemma_fold_empty(0int, |acc: int, k: u32| acc + disputed_amount(m1[k]));
        vstd::set::fold::lemma_fold_empty(0int, |acc: int, k: u32| acc + disputed_amount(m2[k]));
    } else {
        let k = s.choose();
        let r = s.remove(k);
        lemma_sum_over_agree(r, m1, m2);
        lemma_sum_over_insert(r, m1, k);
        lemma_sum_over_insert(r, m2, k);
        assert(r.insert(k) =~= s);
    }
}

/// A sum of amounts that are never negative is not negative.
proof fn lemma_sum_over_nonnegative(s: Set<u32>, m: Map<u32, TxRecord>)
    requires
        s.finite(),
        forall|k: u32| s.contains(k) ==> disputed_amount(m[k]) >= 0,
    ensures
        disputed_sum_over(s, m) >= 0,
    decreases s.len(),
{
    if s.len() == 0 {
        assert(s =~= Set::empty());
        vstd::set::fold::lemma_fold_empty(0int, |acc: int, k: u32| acc + disputed_amount(m[k]));
    } else {
        let k = s.choose();
        let r = s.remove(k);
        lemma_sum_over_nonnegative(r, m);
        lemma_sum_over_insert(r, m, k);
        assert(r.insert(k) =~= s);
    }
}

/// Replacing the record of `k` replaces what it holds back in the sum.
proof fn lemma_disputed_sum_insert(m: Map<u32, TxRecord>, k: u32, t: TxRecord)
    requires
        m.dom().finite(),
    ensures
        disputed_sum(m.insert(k, t)) == disputed_sum(m.remove(k)) + disputed_amount(t),
        m.contains_key(k) ==> disputed_sum(m) == disputed_sum(m.remove(k)) + disputed_amount(
            m[k],
        ),
{
    let r = m.remove(k);
    let n = m.insert(k, t);
    assert(n.dom() =~= r.dom().insert(k));
    lemma_sum_over_insert(r.dom(), n, k);
    lemma_sum_over_agree(r.dom(), n, r);
    if m.contains_key(k) {
        assert(m.dom() =~= r.dom().insert(k));
        lemma_sum_over_insert(r.dom(), m, k);
        lemma_sum_over_agree(r.dom(), m, r);
    }
}

/// Held funds that cover the disputes are never negative.
pub proof fn lemma_covered_held_nonnegative(a: AccountState)
    requires
        held_covers_disputes(a),
    ensures
        a.balances.held >= 0,
{
    lemma_sum_over_nonnegative(a.txs.dom(), a.txs);
}

/// The account of a client seen for the first time holds nothing back.
pub proof fn lemma_empty_account_covers_disputes()
    ensures
        held_covers_disputes(AccountState::empty()),
{
    let m = Map::<u32, TxRecord>::empty();
    assert(m.dom() =~= Set::empty());
    vstd::set::fold::lemma_fold_empty(0int, |acc: int, k: u32| acc + disputed_amount(m[k]));
}

/// Replacing one transaction record keeps the held funds covering the
/// disputes, where the held funds change at least as much as what the record
/// holds back.
proof fn lemma_replace_record(a: AccountState, tx: u32, t: TxRecord, b: Balances)
    requires
        held_covers_disputes(a),
        t.amount >= 0,
        b.held - disputed_amount(t) >= a.balances.held - if a.txs.contains_key(tx) {
            disputed_amount(a.txs[tx])
        } else {
            0
        },
    ensures
        held_covers_disputes(AccountState { balances: b, txs: a.txs.insert(tx, t) }),
{
    lemma_disputed_sum_insert(a.txs, tx, t);
    if !a.txs.contains_key(tx) {
        assert(a.txs.remove(tx) =~= a.txs);
    }
    let n = a.txs.insert(tx, t);
    assert(n.dom() =~= a.txs.dom().insert(tx));
    assert(forall|k: u32| #[trigger] n.contains_key(k) ==> n[k].amount >= 0);
}

/// Every row keeps the held funds covering the account's disputed
/// transactions.
pub proof fn lemma_account_step_covers_disputes(a: AccountState, row: Row)
    requires
        held_covers_disputes(a),
    ensures
        account_step(a, row) matches Ok(b) ==> held_covers_disputes(b),
{
    if !a.balances.locked {
        match row {
            Row::Deposit { tx_id, amount, .. } | Row::Withdrawal { tx_id, amount, .. } => {
                if let Some(x) = funding_units(amount) {
                    crate::amount::lemma_funding_units_nonnegative(amount);
                    if let Ok(b) = account_step(a, row) {
                        if a.txs.contains_key(tx_id.0) {
                            assert(a.txs[tx_id.0].amount >= 0);
                        }
                        lemma_replace_record(
                            a,
                            tx_id.0,
                            TxRecord { amount: x, state: TxState::Accounted },
                            b.balances,
                        );
                    }
                }
            },
            Row::Dispute { tx_id, .. } | Row::Resolve { tx_id, .. } | Row::Chargeback {
                tx_id,
                ..
            } => {
                if a.txs.contains_key(tx_id.0) {
                    if let Ok(b) = account_step(a, row) {
                        let t = b.txs[tx_id.0];
                        assert(b.txs == a.txs.insert(tx_id.0, t));
                        assert(a.txs[tx_id.0].amount >= 0);
                        lemma_replace_record(a, tx_id.0, t, b.balances);
                    }
                }
            },
        }
    }
}

/// In every state of the accounts that rows can lead to, the held funds of
/// each account cover the sum of its disputed transactions, and so are never
/// negative.
pub proof fn lemma_held_never_negative(accounts: Map<u16, AccountState>, row: Row)
    requires
        forall|c: u16| #[trigger] accounts.contains_key(c) ==> held_covers_disputes(accounts[c]),
    ensures
        forall|c: u16| #[trigger]
            processor_step(accounts, row).0.contains_key(c) ==> held_covers_disputes(
                processor_step(accounts, row).0[c],
            ),
        forall|c: u16| #[trigger]
            processor_step(accounts, row).0.contains_key(c) ==> processor_step(
                accounts,
                row,
            ).0[c].balances.held >= 0,
{
    lemma_empty_account_covers_disputes();
    let c = row.spec_ids().0.0;
    let before = if accounts.contains_key(c) {
        accounts[c]
    } else {
        AccountState::empty()
    };
    lemma_account_step_covers_disputes(before, row);
    let after = processor_step(accounts, row).0;
    assert forall|k: u16| #[trigger] after.contains_key(k) implies held_covers_disputes(after[k])
        && after[k].balances.held >= 0 by {
        lemma_covered_held_nonnegative(after[k]);
    }
}

/// Whatever rows come in, every account's available, held and total funds
/// stay values that a decimal holds exactly, and its held funds cover its
/// disputed transactions and are never negative.
pub proof fn lemma_every_reachable_state_is_sound(rows: Seq<Row>)
    ensures
        accounts_valid(process_rows(rows)),
        forall|c: u16| #[trigger]
            process_rows(rows).contains_key(c) ==> held_covers_disputes(process_rows(rows)[c])
                && process_rows(rows)[c].balances.held >= 0,
    decreases rows.len(),
{
    if rows.len() > 0 {
        lemma_every_reachable_state_is_sound(rows.drop_last());
        lemma_step_keeps_accounts_valid(process_rows(rows.drop_last()), rows.last());
        lemma_held_never_negative(process_rows(rows.drop_last()), rows.last());
    }
}

/// The balance that a deposit or withdrawal row leaves on a balance `b` of
/// its client when nothing has been disputed, or `None` where the row is
/// rejected: its amount is invalid, or a withdrawal exceeds `b`.
pub open spec fn funding_change(b: int, row: Row) -> Option<int> {
    match row {
        Row::Deposit { amount, .. } => match funding_units(amount) {
            Some(x) => Some(b + x),
            None => None,
        },
        Row::Withdrawal { amount, .. } => match funding_units(amount) {
            Some(x) => if x <= b {
                Some(b - x)
            } else {
                None
            },
            None => None,
        },
        _ => Some(b),
    }
}

/// The balance of client `c` after the deposits and withdrawals `rows`,
/// applied in order from zero, where rejected rows change nothing.
pub open spec fn funding_balance(rows: Seq<Row>, c: u16) -> int
    decreases rows.len(),
{
    if rows.len() == 0 {
        0
    } else {
        let b = funding_balance(rows.drop_last(), c);
        if rows.last().spec_ids().0.0 != c {
            b
        } else {
            match funding_change(b, rows.last()) {
                Some(n) => n,
                None => b,
            }
        }
    }
}

/// Some row of `rows` names client `c`.
pub open spec fn names_client(rows: Seq<Row>, c: u16) -> bool
    decreases rows.len(),
{
    rows.len() > 0 && (names_client(rows.drop_last(), c) || rows.last().spec_ids().0.0 == c)
}

/// Each account of `accounts` is that of a client that `rows` name, holds
/// nothing, is not frozen, and has the balance that the rows give it; every
/// client that the rows name has one.
pub open spec fn funding_accounts(accounts: Map<u16, AccountState>, rows: Seq<Row>) -> bool {
    forall|c: u16|
        {
            &&& #[trigger] accounts.contains_key(c) == names_client(rows, c)
            &&& accounts.contains_key(c) ==> accounts[c].balances == Balances {
                available: funding_balance(rows, c),
                held: 0,
                locked: false,
            }
        }
}

/// Every balance that the deposits and withdrawals `rows` give, after each
/// prefix of them, is a value that a decimal holds exactly.
pub open spec fn funding_balances_in_range(rows: Seq<Row>) -> bool {
    forall|k: int, c: u16|
        0 <= k <= rows.len() ==> #[trigger] representable(funding_balance(rows.take(k), c))
}

/// One deposit or withdrawal keeps the accounts as the funding history
/// gives them, and is rejected exactly where its amount is invalid or a
/// withdrawal exceeds the balance.
proof fn lemma_funding_step(accounts: Map<u16, AccountState>, rows: Seq<Row>, row: Row)
    requires
        funding_accounts(accounts, rows),
        row.is_funding(),
        representable(funding_balance(rows.push(row), row.spec_ids().0.0)),
    ensures
        funding_accounts(processor_step(accounts, row).0, rows.push(row)),
        processor_step(accounts, row).1 is Err <==> funding_change(
            funding_balance(rows, row.spec_ids().0.0),
            row,
        ) is None,
{
    let next = rows.push(row);
    let c0 = row.spec_ids().0.0;
    assert(next.drop_last() =~= rows);
    assert(next.last() == row);
    lemma_zero_representable();
    let b = funding_balance(rows, c0);
    if !accounts.contains_key(c0) {
        lemma_unnamed_client_has_zero(rows, c0);
    }
    let before = if accounts.contains_key(c0) {
        accounts[c0]
    } else {
        AccountState::empty()
    };
    assert(before.balances == Balances { available: b, held: 0, locked: false });
    assert(b + 0 == b);
    let after = processor_step(accounts, row).0;
    assert forall|c: u16|
        {
            &&& #[trigger] after.contains_key(c) == names_client(next, c)
            &&& after.contains_key(c) ==> after[c].balances == Balances {
                available: funding_balance(next, c),
                held: 0,
                locked: false,
            }
        } by {
        assert(accounts.contains_key(c) == names_client(rows, c));
        if c != c0 {
            lemma_other_clients_untouched(accounts, row, c);
        }
    }
}

/// A client that no row names has a balance of zero.
proof fn lemma_unnamed_client_has_zero(rows: Seq<Row>, c: u16)
    requires
        !names_client(rows, c),
    ensures
        funding_balance(rows, c) == 0,
    decreases rows.len(),
{
    if rows.len() > 0 {
        lemma_unnamed_client_has_zero(rows.drop_last(), c);
    }
}

/// Deposits and withdrawals alone, applied in order from no accounts: each
/// client that they name ends with an account that holds nothing, is not
/// frozen, and whose available and total funds are the exact integer sums of
/// its accepted deposits less its accepted withdrawals; a row is rejected
/// exactly where its amount is negative or has more than four fractional
/// places, or where a withdrawal exceeds the client's balance. This holds
/// wherever those balances stay values that a decimal holds exactly.
pub proof fn lemma_funding_histories(rows: Seq<Row>)
    requires
        forall|i: int| 0 <= i < rows.len() ==> (#[trigger] rows[i]).is_funding(),
        funding_balances_in_range(rows),
    ensures
        funding_accounts(process_rows(rows), rows),
        forall|i: int|
            0 <= i < rows.len() ==> (processor_step(process_rows(rows.take(i)), #[trigger] rows[i]).1
                is Err <==> funding_change(
                funding_balance(rows.take(i), rows[i].spec_ids().0.0),
                rows[i],
            ) is None),
    decreases rows.len(),
{
    if rows.len() == 0 {
        assert(process_rows(rows) =~= Map::empty());
    } else {
        let prefix = rows.drop_last();
        assert forall|k: int, c: u16| 0 <= k <= prefix.len() implies #[trigger] representable(
            funding_balance(prefix.take(k), c),
        ) by {
            assert(prefix.take(k) =~= rows.take(k));
        }
        lemma_funding_histories(prefix);
        assert(rows =~= prefix.push(rows.last()));
        assert(rows.take(rows.len() as int) =~= rows);
        assert(representable(funding_balance(rows.take(rows.len() as int), rows.last().spec_ids().0.0)));
        lemma_funding_step(process_rows(prefix), prefix, rows.last());
        assert forall|i: int|
            0 <= i < rows.len() implies (processor_step(
            process_rows(rows.take(i)),
            #[trigger] rows[i],
        ).1 is Err <==> funding_change(
            funding_balance(rows.take(i), rows[i].spec_ids().0.0),
            rows[i],
        ) is None) by {
            if i < prefix.len() {
                assert(prefix.take(i) =~= rows.take(i));
                assert(prefix[i] == rows[i]);
            } else {
                assert(rows.take(i) =~= prefix);
            }
        }
    }
}

/// A chargeback of a disputed transaction is the only row that freezes an
/// account, and a frozen account stays frozen.
pub proof fn lemma_only_chargebacks_freeze(a: AccountState, row: Row)
    ensures
        account_step(a, row) matches Ok(b) ==> {
            &&& a.balances.locked ==> b.balances.locked
            &&& !a.balances.locked && b.balances.locked ==> {
                &&& row is Chargeback
                &&& a.txs.contains_key(row.spec_ids().1.0)
                &&& a.txs[row.spec_ids().1.0].state is Disputed
            }
        },
{
}

/// On one transaction record: a dispute of an accounted transaction, then
/// its resolution, give back the balances from before the dispute and leave
/// the transaction resolved.
pub proof fn lemma_tx_dispute_then_resolve(b: Balances, t: TxRecord)
    requires
        b.valid(),
        t.state is Accounted,
        dispute_tx(b, t) is Ok,
    ensures
        resolve_tx(dispute_tx(b, t)->Ok_0.0, dispute_tx(b, t)->Ok_0.1) == Ok::<
            (Balances, TxRecord),
            Rejection,
        >((b, TxRecord { amount: t.amount, state: TxState::Resolved })),
{
}

/// `10^n`, by the power function of the arithmetic library.
proof fn lemma_pow10_is_power(n: nat)
    ensures
        pow10(n) == vstd::arithmetic::power::pow(10, n),
    decreases n,
{
    reveal(vstd::arithmetic::power::pow);
    if n > 0 {
        lemma_pow10_is_power((n - 1) as nat);
    }
}

/// `10^(a + b) == 10^a * 10^b`.
proof fn lemma_pow10_adds(a: nat, b: nat)
    ensures
        pow10(a + b) == pow10(a) * pow10(b),
    decreases a,
{
    if a > 0 {
        lemma_pow10_adds((a - 1) as nat, b);
        assert(pow10(a + b) == 10 * pow10((a - 1 + b) as nat));
        assert(10 * (pow10((a - 1) as nat) * pow10(b)) == (10 * pow10((a - 1) as nat)) * pow10(b))
            by (nonlinear_arith);
    }
}

/// A deposit or withdrawal moves exactly the value of its decimal amount:
/// it moves `u` ten-thousandths exactly where the amount is not negative and
/// `u / 10^4` equals `mantissa / 10^scale`, and `u` is a value that a
/// decimal holds.
pub proof fn lemma_funding_amount_is_exact_value(d: DecimalValue, u: int)
    ensures
        funding_units(d) == Some(u) <==> (d.mantissa >= 0 && u * vstd::arithmetic::power::pow(
            10,
            d.scale as nat,
        ) == d.mantissa * 10000 && representable(u)),
{
    let m = d.mantissa as int;
    let s = d.scale as nat;
    lemma_pow10_is_power(s);
    crate::amount::lemma_pow10_positive(s);
    reveal_with_fuel(pow10, 5);
    assert(pow10(4) == 10000);
    if s <= 4 {
        let q = pow10((4 - s) as nat);
        let p = pow10(s);
        lemma_pow10_adds(s, (4 - s) as nat);
        assert(p * q == 10000);
        assert((u * p == m * 10000) <==> (u == m * q)) by (nonlinear_arith)
            requires
                p * q == 10000,
                p >= 1,
        ;
    } else {
        let n = (s - 4) as nat;
        let p = pow10(n);
        crate::amount::lemma_pow10_positive(n);
        lemma_pow10_adds(4, n);
        assert(pow10(s) == 10000 * p);
        assert((u * pow10(s) == m * 10000) <==> (u * p == m)) by (nonlinear_arith)
            requires
                pow10(s) == 10000 * p,
        ;
        if u * p == m {
            vstd::arithmetic::div_mod::lemma_mod_multiples_basic(u, p);
            vstd::arithmetic::div_mod::lemma_div_multiples_vanish(u, p);
            assert(p * u == u * p) by (nonlinear_arith);
        }
        if m % p == 0 {
            vstd::arithmetic::div_mod::lemma_fundamental_div_mod(m, p);
            assert((m / p) * p == p * (m / p)) by (nonlinear_arith);
        }
    }
}

/// The account that a client has, or the empty one of a client seen for the
/// first time.
pub open spec fn account_of(accounts: Map<u16, AccountState>, c: u16) -> AccountState {
    if accounts.contains_key(c) {
        accounts[c]
    } else {
        AccountState::empty()
    }
}

/// A deposit on an account that is not frozen: with a valid amount of `x`
/// ten-thousandths it is accepted and adds `x` to the available funds,
/// whatever the held funds or the account's disputes, where the new
/// balances are decimals; with an invalid amount it is rejected with
/// `InvalidAmount` and changes no balance.
pub proof fn lemma_processed_deposit(
    accounts: Map<u16, AccountState>,
    client_id: ClientId,
    tx_id: TxId,
    amount: DecimalValue,
)
    requires
        !account_of(accounts, client_id.0).balances.locked,
        account_of(accounts, client_id.0).valid(),
    ensures
        ({
            let a = account_of(accounts, client_id.0);
            let (after, r) = processor_step(accounts, Row::Deposit { client_id, tx_id, amount });
            match funding_units(amount) {
                None => after == accounts.insert(client_id.0, a) && r == Err::<(), TransactionError>(
                    TransactionError { client_id, tx_id, cause: Rejection::InvalidAmount },
                ),
                Some(x) => representable(a.balances.available + x) && representable(
                    a.balances.total() + x,
                ) ==> r is Ok && after == accounts.insert(
                    client_id.0,
                    AccountState {
                        balances: Balances {
                            available: a.balances.available + x,
                            held: a.balances.held,
                            locked: false,
                        },
                        txs: a.txs.insert(tx_id.0, TxRecord { amount: x, state: TxState::Accounted }),
                    },
                ),
            }
        }),
{
    lemma_zero_representable();
}

/// A withdrawal on an account that is not frozen, of a valid amount of `x`
/// ten-thousandths: it is rejected with `InsufficientFunds`, changing no
/// balance, exactly where the available or the total funds are below `x`;
/// otherwise it takes `x` from the available funds, whatever the held funds,
/// where the new balances are decimals.
pub proof fn lemma_processed_withdrawal(
    accounts: Map<u16, AccountState>,
    client_id: ClientId,
    tx_id: TxId,
    amount: DecimalValue,
    x: int,
)
    requires
        !account_of(accounts, client_id.0).balances.locked,
        account_of(accounts, client_id.0).valid(),
        funding_units(amount) == Some(x),
    ensures
        ({
            let a = account_of(accounts, client_id.0);
            let (after, r) = processor_step(accounts, Row::Withdrawal { client_id, tx_id, amount });
            &&& a.balances.available < x || a.balances.total() < x ==> after == accounts.insert(
                client_id.0,
                a,
            ) && r == Err::<(), TransactionError>(
                TransactionError { client_id, tx_id, cause: Rejection::InsufficientFunds },
            )
            &&& a.balances.available >= x && a.balances.total() >= x && representable(
                a.balances.available - x,
            ) && representable(a.balances.total() - x) ==> r is Ok && after == accounts.insert(
                client_id.0,
                AccountState {
                    balances: Balances {
                        available: a.balances.available - x,
                        held: a.balances.held,
                        locked: false,
                    },
                    txs: a.txs.insert(tx_id.0, TxRecord { amount: x, state: TxState::Accounted }),
                },
            )
        }),
{
    lemma_zero_representable();
}

/// A dispute of an accounted transaction of `x` ten-thousandths, on an
/// account that is not frozen, moves `x` from the available to the held
/// funds, whatever other disputes are open, where the new balances are
/// decimals.
pub proof fn lemma_processed_dispute(
    accounts: Map<u16, AccountState>,
    client_id: ClientId,
    tx_id: TxId,
)
    requires
        accounts.contains_key(client_id.0),
        accounts[client_id.0].valid(),
        !accounts[client_id.0].balances.locked,
        accounts[client_id.0].txs.contains_key(tx_id.0),
        accounts[client_id.0].txs[tx_id.0].state is Accounted,
        representable(
            accounts[client_id.0].balances.available - accounts[client_id.0].txs[tx_id.0].amount,
        ),
        representable(
            accounts[client_id.0].balances.held + accounts[client_id.0].txs[tx_id.0].amount,
        ),
    ensures
        ({
            let a = accounts[client_id.0];
            let x = a.txs[tx_id.0].amount;
            processor_step(accounts, Row::Dispute { client_id, tx_id }) == (
                accounts.insert(
                    client_id.0,
                    AccountState {
                        balances: Balances {
                            available: a.balances.available - x,
                            held: a.balances.held + x,
                            locked: false,
                        },
                        txs: a.txs.insert(tx_id.0, TxRecord { amount: x, state: TxState::Disputed }),
                    },
                ),
                Ok::<(), TransactionError>(()),
            )
        }),
{
    let a = accounts[client_id.0];
    let x = a.txs[tx_id.0].amount;
    assert(a.balances.available - x + (a.balances.held + x) == a.balances.total());
}

/// A resolution of a disputed transaction of `x` ten-thousandths, on an
/// account that is not frozen, moves `x` from the held funds back to the
/// available ones and marks the transaction resolved, whatever other
/// disputes are open, where the new balances are decimals.
pub proof fn lemma_processed_resolve(
    accounts: Map<u16, AccountState>,
    client_id: ClientId,
    tx_id: TxId,
)
    requires
        accounts.contains_key(client_id.0),
        accounts[client_id.0].valid(),
        !accounts[client_id.0].balances.locked,
        accounts[client_id.0].txs.contains_key(tx_id.0),
        accounts[client_id.0].txs[tx_id.0].state is Disputed,
        representable(
            accounts[client_id.0].balances.available + accounts[client_id.0].txs[tx_id.0].amount,
        ),
        representable(
            accounts[client_id.0].balances.held - accounts[client_id.0].txs[tx_id.0].amount,
        ),
    ensures
        ({
            let a = accounts[client_id.0];
            let x = a.txs[tx_id.0].amount;
            processor_step(accounts, Row::Resolve { client_id, tx_id }) == (
                accounts.insert(
                    client_id.0,
                    AccountState {
                        balances: Balances {
                            available: a.balances.available + x,
                            held: a.balances.held - x,
                            locked: false,
                        },
                        txs: a.txs.insert(tx_id.0, TxRecord { amount: x, state: TxState::Resolved }),
                    },
                ),
                Ok::<(), TransactionError>(()),
            )
        }),
{
    let a = accounts[client_id.0];
    let x = a.txs[tx_id.0].amount;
    assert(a.balances.available + x + (a.balances.held - x) == a.balances.total());
}

/// A chargeback of a disputed transaction of `x` ten-thousandths, on an
/// account that is not frozen, removes `x` from the held funds, leaves the
/// available ones, marks the transaction charged back and freezes the
/// account, where the new balances are decimals.
pub proof fn lemma_processed_chargeback(
    accounts: Map<u16, AccountState>,
    client_id: ClientId,
    tx_id: TxId,
)
    requires
        accounts.contains_key(client_id.0),
        accounts[client_id.0].valid(),
        !accounts[client_id.0].balances.locked,
        accounts[client_id.0].txs.contains_key(tx_id.0),
        accounts[client_id.0].txs[tx_id.0].state is Disputed,
        representable(
            accounts[client_id.0].balances.held - accounts[client_id.0].txs[tx_id.0].amount,
        ),
        representable(
            accounts[client_id.0].balances.total() - accounts[client_id.0].txs[tx_id.0].amount,
        ),
    ensures
        ({
            let a = accounts[client_id.0];
            let x = a.txs[tx_id.0].amount;
            processor_step(accounts, Row::Chargeback { client_id, tx_id }) == (
                accounts.insert(
                    client_id.0,
                    AccountState {
                        balances: Balances {
                            available: a.balances.available,
                            held: a.balances.held - x,
                            locked: true,
                        },
                        txs: a.txs.insert(
                            tx_id.0,
                            TxRecord { amount: x, state: TxState::ChargedBack },
                        ),
                    },
                ),
                Ok::<(), TransactionError>(()),
            )
        }),
{
    let a = accounts[client_id.0];
    let x = a.txs[tx_id.0].amount;
    assert(a.balances.available + (a.balances.held - x) == a.balances.total() - x);
}

/// `count_named(h, name)` is the number of times `name` occurs in `h`.
pub proof fn lemma_count_named_counts(h: Seq<Seq<char>>, name: Seq<char>)
    ensures
        count_named(h, name) == h.to_multiset().count(name),
    decreases h.len(),
{
    broadcast use vstd::multiset::group_multiset_axioms;

    h.to_multiset_ensures();
    if h.len() > 0 {
        let p = h.drop_last();
        lemma_count_named_counts(p, name);
        assert(p.push(h.last()) =~= h);
        vstd::seq_lib::to_multiset_build(p, h.last());
    }
}

/// The headers pass exactly where there are none, or each of `type`,
/// `client`, `tx` and `amount` occurs exactly once among them; a refusal
/// names a column that does not occur exactly once, after every column
/// before it in that order does.
pub proof fn lemma_header_rule(h: Seq<Seq<char>>)
    ensures
        header_problem(h) is None <==> (h.len() == 0 || (h.to_multiset().count("type"@) == 1
            && h.to_multiset().count("client"@) == 1 && h.to_multiset().count("tx"@) == 1
            && h.to_multiset().count("amount"@) == 1)),
        header_problem(h) == Some(Column::Type) ==> h.to_multiset().count("type"@) != 1,
        header_problem(h) == Some(Column::Client) ==> h.to_multiset().count("type"@) == 1
            && h.to_multiset().count("client"@) != 1,
        header_problem(h) == Some(Column::Tx) ==> h.to_multiset().count("type"@) == 1
            && h.to_multiset().count("client"@) == 1 && h.to_multiset().count("tx"@) != 1,
        header_problem(h) == Some(Column::Amount) ==> h.to_multiset().count("type"@) == 1
            && h.to_multiset().count("client"@) == 1 && h.to_multiset().count("tx"@) == 1
            && h.to_multiset().count("amount"@) != 1,
{
    lemma_count_named_counts(h, "type"@);
    lemma_count_named_counts(h, "client"@);
    lemma_count_named_counts(h, "tx"@);
    lemma_count_named_counts(h, "amount"@);
}

} // verus!
