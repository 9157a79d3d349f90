//! The records, accounts and stored transactions of the engine, and the
//! rows of its output.
use crate::decimal::{add_regime, decimal_sum, decimal_text_4dp, exact_sum_result, text_fits, Amount};
use crate::text::{append_u16, bool_text, u16_text};
use vstd::prelude::*;
use vstd::string::StringExecFns;

verus! {

/// The type of transaction being processed.
#[derive(Debug, Clone, Copy, PartialEq, Eq, Structural)]
pub enum TransactionType {
    Deposit,
    Withdrawal,
    Dispute,
    Resolve,
    Chargeback,
}

/// A single row of input.
#[derive(Debug, Clone, Copy)]
pub struct InputRecord {
    pub tx_type: TransactionType,
    pub client: u16,
    pub tx: u32,
    pub amount: Option<Amount>,
}

/// What an input record holds, with its amount as a decimal.
pub struct RecordModel {
    pub tx_type: TransactionType,
    pub client: u16,
    pub tx: u32,
    pub amount: Option<(int, nat)>,
}

/// An optional amount as an optional decimal.
pub open spec fn option_view(a: Option<Amount>) -> Option<(int, nat)> {
    match a {
        Some(x) => Some(x@),
        None => None,
    }
}

impl View for InputRecord {
    type V = RecordModel;

    open spec fn view(&self) -> RecordModel {
        RecordModel {
            tx_type: self.tx_type,
            client: self.client,
            tx: self.tx,
            amount: option_view(self.amount),
        }
    }
}

/// A deposit stored for later disputes.
#[derive(Debug, Clone, Copy)]
pub struct StoredTransaction {
    pub client: u16,
    pub amount: Amount,
    pub disputed: bool,
    pub chargebacked: bool,
}

/// What a stored deposit holds, with its amount as a decimal.
pub struct StoredModel {
    pub client: u16,
    pub amount: (int, nat),
    pub disputed: bool,
    pub chargebacked: bool,
}

impl View for StoredTransaction {
    type V = StoredModel;

    open spec fn view(&self) -> StoredModel {
        StoredModel {
            client: self.client,
            amount: self.amount@,
            disputed: self.disputed,
            chargebacked: self.chargebacked,
        }
    }
}

/// A client's account.
#[derive(Debug, Clone, Copy)]
pub struct Account {
    pub available: Amount,
    pub held: Amount,
    pub locked: bool,
}

/// What an account holds, with its amounts as decimals.
pub struct AccountModel {
    pub available: (int, nat),
    pub held: (int, nat),
    pub locked: bool,
}

impl View for Account {
    type V = AccountModel;

    open spec fn view(&self) -> AccountModel {
        AccountModel { available: self.available@, held: self.held@, locked: self.locked }
    }
}

/// A fresh account: nothing available, nothing held, not locked.
pub open spec fn fresh_account() -> AccountModel {
    AccountModel { available: (0int, 0nat), held: (0int, 0nat), locked: false }
}

/// The total of an account, `available + held`, as `rust_decimal` adds.
pub open spec fn total_of(a: AccountModel) -> Option<(int, nat)> {
    decimal_sum(a.available, a.held)
}

impl Account {
    /// A fresh account.
    pub fn new() -> (r: Account)
        ensures
            r@ == fresh_account(),
    {
        Account { available: Amount::zero(), held: Amount::zero(), locked: false }
    }

    /// `available + held`.
    pub fn total(&self) -> (r: Amount)
        requires
            total_of(self@) is Some,
        ensures
            total_of(self@) == Some(r@),
            self.available@.0 == 0 || self.held@.0 == 0 || add_regime(self.available@, self.held@)
                ==> r@ == exact_sum_result(self.available@, self.held@),
    {
        self.available.checked_add(&self.held).unwrap()
    }

    /// `available + held`, or `None` where the sum overflows.
    pub fn checked_total(&self) -> (r: Option<Amount>)
        ensures
            r is None <==> total_of(self@) is None,
            r matches Some(t) ==> total_of(self@) == Some(t@),
    {
        if self.available.checked_add(&self.held).is_some() {
            Some(self.total())
        } else {
            None
        }
    }
}

/// An amount to be written with exactly four fractional digits.
#[derive(Debug, Clone, Copy)]
pub struct FormattedDecimal(pub Amount);

impl FormattedDecimal {
    /// The amount written with exactly four fractional digits.
    pub fn to_text(&self) -> (r: String)
        requires
            text_fits(self.0@),
        ensures
            r@ == decimal_text_4dp(self.0@),
    {
        self.0.to_text_4dp()
    }
}

/// A single row of output.
#[derive(Debug, Clone, Copy)]
pub struct OutputRecord {
    pub client: u16,
    pub available: FormattedDecimal,
    pub held: FormattedDecimal,
    pub total: FormattedDecimal,
    pub locked: bool,
}

/// The header line of the output.
pub open spec fn header_text() -> Seq<char> {
    "client,available,held,total,locked"@
}

/// Whether each amount of the row can be written as text.
pub open spec fn row_fits(r: OutputRecord) -> bool {
    text_fits(r.available.0@) && text_fits(r.held.0@) && text_fits(r.total.0@)
}

/// The output line of a row: its fields, separated by commas.
pub open spec fn row_text(r: OutputRecord) -> Seq<char> {
    u16_text(r.client as nat) + ","@ + decimal_text_4dp(r.available.0@) + ","@
        + decimal_text_4dp(r.held.0@) + ","@ + decimal_text_4dp(r.total.0@) + ","@ + bool_text(
        r.locked,
    )
}

/// The header line of the output.
pub fn csv_header() -> (r: String)
    ensures
        r@ == header_text(),
{
    String::from_str("client,available,held,total,locked")
}

impl OutputRecord {
    /// The row of a client's account.
    pub fn new(client: u16, account: &Account) -> (r: OutputRecord)
        requires
            total_of(account@) is Some,
        ensures
            r.client == client,
            r.available.0@ == account.available@,
            r.held.0@ == account.held@,
            total_of(account@) == Some(r.total.0@),
            r.locked == account.locked,
    {
        OutputRecord {
            client,
            available: FormattedDecimal(account.available),
            held: FormattedDecimal(account.held),
            total: FormattedDecimal(account.total()),
            locked: account.locked,
        }
    }

    /// The row of a client's account, or `None` where the total overflows.
    pub fn checked_new(client: u16, account: &Account) -> (r: Option<OutputRecord>)
        ensures
            r is None <==> total_of(account@) is None,
            r matches Some(o) ==> o.client == client && o.available.0@ == account.available@
                && o.held.0@ == account.held@ && total_of(account@) == Some(o.total.0@)
                && o.locked == account.locked,
    {
        if account.checked_total().is_some() {
            Some(OutputRecord::new(client, account))
        } else {
            None
        }
    }

    /// Whether each amount of the row can be written as text (see
    /// `text_fits`).
    pub fn fits_text(&self) -> (r: bool)
        ensures
            r == row_fits(*self),
    {
        self.available.0.fits_text() && self.held.0.fits_text() && self.total.0.fits_text()
    }

    /// The output line of the row, without a line break.
    pub fn to_csv_line(&self) -> (r: String)
        requires
            row_fits(*self),
        ensures
            r@ == row_text(*self),
    {
        let mut line = String::new();
        append_u16(&mut line, self.client);
        line.append(",");
        line.append(self.available.to_text().as_str());
        line.append(",");
        line.append(self.held.to_text().as_str());
        line.append(",");
        line.append(self.total.to_text().as_str());
        line.append(",");
        if self.locked {
            line.append("true");
        } else {
            line.append("false");
        }
        proof {
            reveal_strlit(",");
            reveal_strlit("true");
            reveal_strlit("false");
            assert(line@ =~= row_text(*self));
        }
        line
    }
}

} // verus!
