//! Client and transaction identifiers, and the rows of the transaction input.

use vstd::prelude::*;

use crate::amount::{decimal_text_parts, parse_decimal_exact, DecimalValue};

verus! {

/// A client's identifier.
#[derive(Clone, Copy, Debug, PartialEq, Eq, Structural)]
pub struct ClientId(pub u16);

/// A transaction's identifier.
#[derive(Clone, Copy, Debug, PartialEq, Eq, Structural)]
pub struct TxId(pub u32);

/// The kind of a transaction row.
#[derive(Clone, Copy, Debug, PartialEq, Eq, Structural)]
pub enum TxKind {
    Deposit,
    Withdrawal,
    Dispute,
    Resolve,
    Chargeback,
}

/// The kind that the name in a row's `type` column stands for.
pub open spec fn kind_named(name: Seq<char>) -> Option<TxKind> {
    if name == "deposit"@ {
        Some(TxKind::Deposit)
    } else if name == "withdrawal"@ {
        Some(TxKind::Withdrawal)
    } else if name == "dispute"@ {
        Some(TxKind::Dispute)
    } else if name == "resolve"@ {
        Some(TxKind::Resolve)
    } else if name == "chargeback"@ {
        Some(TxKind::Chargeback)
    } else {
        None
    }
}

impl TxKind {
    /// Deposits and withdrawals move funds and carry an amount.
    pub open spec fn moves_funds(self) -> bool {
        self is Deposit || self is Withdrawal
    }

    /// The kind named `name`, as the input writes it (`deposit`,
    /// `withdrawal`, `dispute`, `resolve`, `chargeback`).
    pub fn from_name(name: &str) -> (r: Option<TxKind>)
        ensures
            r == kind_named(name@),
    {
        let n = name.to_owned();
        if n == "deposit".to_owned() {
            Some(TxKind::Deposit)
        } else if n == "withdrawal".to_owned() {
            Some(TxKind::Withdrawal)
        } else if n == "dispute".to_owned() {
            Some(TxKind::Dispute)
        } else if n == "resolve".to_owned() {
            Some(TxKind::Resolve)
        } else if n == "chargeback".to_owned() {
            Some(TxKind::Chargeback)
        } else {
            None
        }
    }
}

/// One transaction of the input.
#[derive(Clone, Copy, Debug, PartialEq, Eq, Structural)]
pub enum Row {
    Deposit { client_id: ClientId, tx_id: TxId, amount: DecimalValue },
    Withdrawal { client_id: ClientId, tx_id: TxId, amount: DecimalValue },
    Dispute { client_id: ClientId, tx_id: TxId },
    Resolve { client_id: ClientId, tx_id: TxId },
    Chargeback { client_id: ClientId, tx_id: TxId },
}

/// Why a row of the input cannot be read.
#[derive(Clone, Copy, Debug, PartialEq, Eq, Structural)]
pub enum RowError {
    /// The `type` column names no kind of transaction.
    UnknownKind,
    /// A deposit or withdrawal has an empty `amount`.
    MissingAmount,
    /// The `amount` is no decimal number.
    InvalidAmountText,
}

impl Row {
    /// The client and the transaction that the row names.
    pub open spec fn spec_ids(self) -> (ClientId, TxId) {
        match self {
            Row::Deposit { client_id, tx_id, .. } => (client_id, tx_id),
            Row::Withdrawal { client_id, tx_id, .. } => (client_id, tx_id),
            Row::Dispute { client_id, tx_id } => (client_id, tx_id),
            Row::Resolve { client_id, tx_id } => (client_id, tx_id),
            Row::Chargeback { client_id, tx_id } => (client_id, tx_id),
        }
    }

    /// Whether the row is a deposit or a withdrawal.
    pub open spec fn is_funding(self) -> bool {
        self is Deposit || self is Withdrawal
    }

    /// The row of the given kind: deposits and withdrawals need an amount,
    /// the other kinds take none.
    pub open spec fn spec_new(
        kind: TxKind,
        client_id: ClientId,
        tx_id: TxId,
        amount: Option<DecimalValue>,
    ) -> Result<Row, RowError> {
        match kind {
            TxKind::Deposit => match amount {
                Some(amount) => Ok(Row::Deposit { client_id, tx_id, amount }),
                None => Err(RowError::MissingAmount),
            },
            TxKind::Withdrawal => match amount {
                Some(amount) => Ok(Row::Withdrawal { client_id, tx_id, amount }),
                None => Err(RowError::MissingAmount),
            },
            TxKind::Dispute => Ok(Row::Dispute { client_id, tx_id }),
            TxKind::Resolve => Ok(Row::Resolve { client_id, tx_id }),
            TxKind::Chargeback => Ok(Row::Chargeback { client_id, tx_id }),
        }
    }

    /// The row that the text of a record's columns gives: the kind's name,
    /// the client, the transaction and the amount's text (`None` where the
    /// column is empty). Only deposits and withdrawals read the amount.
    pub open spec fn spec_from_fields(
        kind: Seq<char>,
        client: u16,
        tx: u32,
        amount: Option<Seq<char>>,
    ) -> Result<Row, RowError> {
        match kind_named(kind) {
            None => Err(RowError::UnknownKind),
            Some(k) => if k.moves_funds() {
                match amount {
                    None => Err(RowError::MissingAmount),
                    Some(text) => match decimal_text_parts(text) {
                        None => Err(RowError::InvalidAmountText),
                        Some(parts) => Row::spec_new(
                            k,
                            ClientId(client),
                            TxId(tx),
                            Some(DecimalValue { mantissa: parts.0, scale: parts.1 }),
                        ),
                    },
                }
            } else {
                Row::spec_new(k, ClientId(client), TxId(tx), None)
            },
        }
    }

    /// The client and the transaction that the row names.
    pub fn ids(&self) -> (r: (ClientId, TxId))
        ensures
            r == self.spec_ids(),
    {
        match *self {
            Row::Deposit { client_id, tx_id, .. } => (client_id, tx_id),
            Row::Withdrawal { client_id, tx_id, .. } => (client_id, tx_id),
            Row::Dispute { client_id, tx_id } => (client_id, tx_id),
            Row::Resolve { client_id, tx_id } => (client_id, tx_id),
            Row::Chargeback { client_id, tx_id } => (client_id, tx_id),
        }
    }

    /// Whether the row is a deposit or a withdrawal.
    pub fn moves_funds(&self) -> (r: bool)
        ensures
            r == self.is_funding(),
    {
        match self {
            Row::Deposit { .. } | Row::Withdrawal { .. } => true,
            _ => false,
        }
    }

    /// The row of the given kind, from an already read amount.
    pub fn new(kind: TxKind, client_id: ClientId, tx_id: TxId, amount: Option<DecimalValue>) -> (r:
        Result<Row, RowError>)
        ensures
            r == Row::spec_new(kind, client_id, tx_id, amount),
    {
        match kind {
            TxKind::Deposit => match amount {
                Some(amount) => Ok(Row::Deposit { client_id, tx_id, amount }),
                None => Err(RowError::MissingAmount),
            },
            TxKind::Withdrawal => match amount {
                Some(amount) => Ok(Row::Withdrawal { client_id, tx_id, amount }),
                None => Err(RowError::MissingAmount),
            },
            TxKind::Dispute => Ok(Row::Dispute { client_id, tx_id }),
            TxKind::Resolve => Ok(Row::Resolve { client_id, tx_id }),
            TxKind::Chargeback => Ok(Row::Chargeback { client_id, tx_id }),
        }
    }

    /// Reads a row from the text of its columns.
    pub fn from_fields(kind: &str, client: u16, tx: u32, amount: Option<&str>) -> (r: Result<
        Row,
        RowError,
    >)
        ensures
            r == Row::spec_from_fields(
                kind@,
                client,
                tx,
                match amount {
                    Some(t) => Some(t@),
                    None => None,
                },
            ),
    {
        let kind = match TxKind::from_name(kind) {
            Some(k) => k,
            None => return Err(RowError::UnknownKind),
        };
        let value = match kind {
            TxKind::Deposit | TxKind::Withdrawal => match amount {
                None => return Err(RowError::MissingAmount),
                Some(text) => match parse_decimal_exact(text) {
                    Ok(d) => Some(d),
                    Err(_) => return Err(RowError::InvalidAmountText),
                },
            },
            _ => None,
        };
        Row::new(kind, ClientId(client), TxId(tx), value)
    }
}

/// A column that the input must have exactly once.
#[derive(Clone, Copy, Debug, PartialEq, Eq, Structural)]
pub enum Column {
    Type,
    Client,
    Tx,
    Amount,
}

/// The header that names a column.
pub open spec fn column_name(c: Column) -> Seq<char> {
    match c {
        Column::Type => "type"@,
        Column::Client => "client"@,
        Column::Tx => "tx"@,
        Column::Amount => "amount"@,
    }
}

impl Column {
    /// The header that names the column.
    pub fn name(&self) -> (r: &'static str)
        ensures
            r@ == column_name(*self),
    {
        match self {
            Column::Type => "type",
            Column::Client => "client",
            Column::Tx => "tx",
            Column::Amount => "amount",
        }
    }
}

/// How many of `headers` are `name`.
pub open spec fn count_named(headers: Seq<Seq<char>>, name: Seq<char>) -> nat
    decreases headers.len(),
{
    if headers.len() == 0 {
        0
    } else {
        count_named(headers.drop_last(), name) + if headers.last() == name {
            1nat
        } else {
            0nat
        }
    }
}

/// The first required column, in the order `type`, `client`, `tx`,
/// `amount`, that the headers do not name exactly once; an input without
/// headers has no columns to check.
pub open spec fn header_problem(headers: Seq<Seq<char>>) -> Option<Column> {
    if headers.len() == 0 {
        None
    } else if count_named(headers, column_name(Column::Type)) != 1 {
        Some(Column::Type)
    } else if count_named(headers, column_name(Column::Client)) != 1 {
        Some(Column::Client)
    } else if count_named(headers, column_name(Column::Tx)) != 1 {
        Some(Column::Tx)
    } else if count_named(headers, column_name(Column::Amount)) != 1 {
        Some(Column::Amount)
    } else {
        None
    }
}

/// The input's headers miss a required column or name it more than once.
#[derive(Clone, Copy, Debug, PartialEq, Eq, Structural)]
pub struct HeaderError {
    pub column: Column,
}

/// The text of each header.
pub open spec fn header_texts(headers: Seq<String>) -> Seq<Seq<char>> {
    headers.map_values(|h: String| h@)
}

/// How many of `headers` are `name`.
fn count_headers(headers: &Vec<String>, name: &str) -> (n: usize)
    ensures
        n == count_named(header_texts(headers@), name@),
{
    let target = name.to_owned();
    let ghost hs = header_texts(headers@);
    let mut n: usize = 0;
    let mut i: usize = 0;
    while i < headers.len()
        invariant
            hs == header_texts(headers@),
            i <= headers.len(),
            n <= i,
            n == count_named(hs.take(i as int), name@),
            target@ == name@,
        decreases headers.len() - i,
    {
        proof {
            assert(hs.take(i + 1).drop_last() =~= hs.take(i as int));
        }
        if headers[i] == target {
            n = n + 1;
        }
        i = i + 1;
    }
    proof {
        assert(hs.take(i as int) =~= hs);
    }
    n
}

/// Checks that the headers name each required column exactly once; an input
/// without headers passes.
pub fn check_headers(headers: &Vec<String>) -> (r: Result<(), HeaderError>)
    ensures
        match header_problem(header_texts(headers@)) {
            None => r is Ok,
            Some(column) => r == Err::<(), HeaderError>(HeaderError { column }),
        },
{
    if headers.len() == 0 {
        return Ok(());
    }
    let columns = [Column::Type, Column::Client, Column::Tx, Column::Amount];
    let mut k: usize = 0;
    while k < 4
        invariant
            headers@.len() > 0,
            columns@ == seq![Column::Type, Column::Client, Column::Tx, Column::Amount],
            k <= 4,
            forall|j: int|
                0 <= j < k ==> count_named(header_texts(headers@), column_name(#[trigger] columns@[j]))
                    == 1,
        decreases 4 - k,
    {
        let column = columns[k];
        if count_headers(headers, column.name()) != 1 {
            return Err(HeaderError { column });
        }
        k = k + 1;
    }
    Ok(())
}

} // verus!
