//! The payments engine: client accounts and the deposits they may dispute,
//! and the rules by which each transaction changes them.
use crate::decimal::{
    add_regime, decimal_difference, decimal_sum, exact_difference, exact_sum, sub_regime, text_fits,
    value,
    Amount,
};
use crate::types::{
    csv_header, fresh_account, header_text, option_view, row_fits, row_text, total_of, Account, AccountModel, InputRecord, OutputRecord, RecordModel,
    StoredModel, StoredTransaction, TransactionType,
};
use crate::laws::{funds, funds_change, law_funds_change};
use std::collections::{HashMap, HashSet};
use vstd::std_specs::iter::IteratorSpec;
use vstd::prelude::*;
use vstd::string::StringExecFns;

verus! {

broadcast use vstd::std_specs::hash::group_hash_axioms;

/// The state of the engine: the accounts by client, the stored deposits by
/// transaction id, and the ids of all deposits and withdrawals seen so far.
#[verifier::ext_equal]
pub struct EngineModel {
    pub accounts: Map<u16, AccountModel>,
    pub transactions: Map<u32, StoredModel>,
    pub seen: Set<u32>,
}

/// The empty state.
pub open spec fn empty_state() -> EngineModel {
    EngineModel { accounts: Map::empty(), transactions: Map::empty(), seen: Set::empty() }
}

/// The account of `client`, or a fresh one where there is none yet.
pub open spec fn account_or_fresh(s: EngineModel, client: u16) -> AccountModel {
    if s.accounts.contains_key(client) {
        s.accounts[client]
    } else {
        fresh_account()
    }
}

/// `s` with the account of `client` set to `a`.
pub open spec fn with_account(s: EngineModel, client: u16, a: AccountModel) -> EngineModel {
    EngineModel { accounts: s.accounts.insert(client, a), transactions: s.transactions, seen: s.seen }
}

/// `s` with the stored deposit `tx` set to `t`.
pub open spec fn with_transaction(s: EngineModel, tx: u32, t: StoredModel) -> EngineModel {
    EngineModel { accounts: s.accounts, transactions: s.transactions.insert(tx, t), seen: s.seen }
}

/// `s` with the id `tx` marked as seen.
pub open spec fn with_seen(s: EngineModel, tx: u32) -> EngineModel {
    EngineModel { accounts: s.accounts, transactions: s.transactions, seen: s.seen.insert(tx) }
}

/// An amount a deposit or a withdrawal may carry: present and above zero.
pub open spec fn positive(amount: Option<(int, nat)>) -> bool {
    amount matches Some(a) && value(a) > 0
}

/// Whether a deposit or withdrawal is taken up: its amount is positive and
/// its id has not been seen before.
pub open spec fn admitted(s: EngineModel, tx: u32, amount: Option<(int, nat)>) -> bool {
    positive(amount) && !s.seen.contains(tx)
}

/// A deposit: ignored unless admitted. Then its id is seen and the account
/// is created if it is missing; unless the account is locked, it is
/// credited with the amount and the deposit is stored, undisputed. Where the
/// credit overflows, the deposit is ignored altogether.
pub open spec fn deposit_step(s: EngineModel, client: u16, tx: u32, amount: Option<(int, nat)>) -> EngineModel {
    if !admitted(s, tx, amount) {
        s
    } else {
        let a = amount.unwrap();
        let acct = account_or_fresh(s, client);
        if acct.locked {
            with_seen(with_account(s, client, acct), tx)
        } else {
            match decimal_sum(acct.available, a) {
                Some(available) => EngineModel {
                    accounts: s.accounts.insert(
                        client,
                        AccountModel { available, held: acct.held, locked: false },
                    ),
                    transactions: s.transactions.insert(
                        tx,
                        StoredModel { client, amount: a, disputed: false, chargebacked: false },
                    ),
                    seen: s.seen.insert(tx),
                },
                None => s,
            }
        }
    }
}

/// A withdrawal: ignored unless admitted. Then its id is seen and the
/// account is created if it is missing; unless the account is locked or has
/// less available than the amount, it is debited with the amount. Where the
/// debit overflows, the withdrawal is ignored altogether. Withdrawals are
/// not stored.
pub open spec fn withdrawal_step(s: EngineModel, client: u16, tx: u32, amount: Option<(int, nat)>) -> EngineModel {
    if !admitted(s, tx, amount) {
        s
    } else {
        let a = amount.unwrap();
        let acct = account_or_fresh(s, client);
        if acct.locked || value(acct.available) < value(a) {
            with_seen(with_account(s, client, acct), tx)
        } else {
            match decimal_difference(acct.available, a) {
                Some(available) => with_seen(
                    with_account(s, client, AccountModel { available, held: acct.held, locked: false }),
                    tx,
                ),
                None => s,
            }
        }
    }
}

/// Whether `tx` is a stored deposit of `client`.
pub open spec fn deposit_of(s: EngineModel, client: u16, tx: u32) -> bool {
    s.transactions.contains_key(tx) && s.transactions[tx].client == client
}

/// Whether `client` may dispute `tx`: a stored deposit of theirs, neither
/// under dispute nor charged back.
pub open spec fn may_dispute(s: EngineModel, client: u16, tx: u32) -> bool {
    deposit_of(s, client, tx) && !s.transactions[tx].disputed && !s.transactions[tx].chargebacked
}

/// Whether `client` may resolve or charge back `tx`: a stored deposit of
/// theirs under dispute.
pub open spec fn under_dispute(s: EngineModel, client: u16, tx: u32) -> bool {
    deposit_of(s, client, tx) && s.transactions[tx].disputed
}

/// A dispute: ignored unless `client` may dispute `tx`; then the deposit is
/// marked disputed and its amount moves from available to held. Where
/// either change overflows, the dispute is ignored.
pub open spec fn dispute_step(s: EngineModel, client: u16, tx: u32) -> EngineModel {
    if !may_dispute(s, client, tx) {
        s
    } else {
        let t = s.transactions[tx];
        let acct = account_or_fresh(s, client);
        match (decimal_difference(acct.available, t.amount), decimal_sum(acct.held, t.amount)) {
            (Some(available), Some(held)) => EngineModel {
                accounts: s.accounts.insert(
                    client,
                    AccountModel { available, held, locked: acct.locked },
                ),
                transactions: s.transactions.insert(
                    tx,
                    StoredModel { client: t.client, amount: t.amount, disputed: true, chargebacked: t.chargebacked },
                ),
                seen: s.seen,
            },
            _ => s,
        }
    }
}

/// A resolve: ignored unless `tx` is a deposit of `client` under dispute;
/// then the dispute ends and the amount moves from held back to available.
/// Where either change overflows, the resolve is ignored.
pub open spec fn resolve_step(s: EngineModel, client: u16, tx: u32) -> EngineModel {
    if !under_dispute(s, client, tx) {
        s
    } else {
        let t = s.transactions[tx];
        let acct = account_or_fresh(s, client);
        match (decimal_sum(acct.available, t.amount), decimal_difference(acct.held, t.amount)) {
            (Some(available), Some(held)) => EngineModel {
                accounts: s.accounts.insert(
                    client,
                    AccountModel { available, held, locked: acct.locked },
                ),
                transactions: s.transactions.insert(
                    tx,
                    StoredModel { client: t.client, amount: t.amount, disputed: false, chargebacked: t.chargebacked },
                ),
                seen: s.seen,
            },
            _ => s,
        }
    }
}

/// A chargeback: ignored unless `tx` is a deposit of `client` under
/// dispute; then the deposit is charged back for good, its amount leaves
/// held, and the account is locked. Where the change overflows, the
/// chargeback is ignored.
pub open spec fn chargeback_step(s: EngineModel, client: u16, tx: u32) -> EngineModel {
    if !under_dispute(s, client, tx) {
        s
    } else {
        let t = s.transactions[tx];
        let acct = account_or_fresh(s, client);
        match decimal_difference(acct.held, t.amount) {
            Some(held) => EngineModel {
                accounts: s.accounts.insert(
                    client,
                    AccountModel { available: acct.available, held, locked: true },
                ),
                transactions: s.transactions.insert(
                    tx,
                    StoredModel { client: t.client, amount: t.amount, disputed: false, chargebacked: true },
                ),
                seen: s.seen,
            },
            None => s,
        }
    }
}

/// The state after one input record.
pub open spec fn step(s: EngineModel, r: RecordModel) -> EngineModel {
    match r.tx_type {
        TransactionType::Deposit => deposit_step(s, r.client, r.tx, r.amount),
        TransactionType::Withdrawal => withdrawal_step(s, r.client, r.tx, r.amount),
        TransactionType::Dispute => dispute_step(s, r.client, r.tx),
        TransactionType::Resolve => resolve_step(s, r.client, r.tx),
        TransactionType::Chargeback => chargeback_step(s, r.client, r.tx),
    }
}

/// `rust_decimal` adds `a` and `b` exactly, by its documented cases: one
/// operand is zero, or the sum is in `add_regime`.
pub open spec fn sum_in_regime(a: (int, nat), b: (int, nat)) -> bool {
    a.0 == 0 || b.0 == 0 || add_regime(a, b)
}

/// `rust_decimal` subtracts `b` from `a` exactly, by its documented cases:
/// one operand is zero, or the difference is in `sub_regime`.
pub open spec fn difference_in_regime(a: (int, nat), b: (int, nat)) -> bool {
    a.0 == 0 || b.0 == 0 || sub_regime(a, b)
}

/// Each sum or difference that `r` asks of `rust_decimal` on `s` is in one
/// of its exact cases.
pub open spec fn step_in_regime(s: EngineModel, r: RecordModel) -> bool {
    let acct = account_or_fresh(s, r.client);
    match r.tx_type {
        TransactionType::Deposit => admitted(s, r.tx, r.amount) && !acct.locked ==> sum_in_regime(
            acct.available,
            r.amount.unwrap(),
        ),
        TransactionType::Withdrawal => admitted(s, r.tx, r.amount) && !acct.locked && value(
            acct.available,
        ) >= value(r.amount.unwrap()) ==> difference_in_regime(acct.available, r.amount.unwrap()),
        TransactionType::Dispute => may_dispute(s, r.client, r.tx) ==> {
            &&& difference_in_regime(acct.available, s.transactions[r.tx].amount)
            &&& sum_in_regime(acct.held, s.transactions[r.tx].amount)
        },
        TransactionType::Resolve => under_dispute(s, r.client, r.tx) ==> {
            &&& sum_in_regime(acct.available, s.transactions[r.tx].amount)
            &&& difference_in_regime(acct.held, s.transactions[r.tx].amount)
        },
        TransactionType::Chargeback => under_dispute(s, r.client, r.tx) ==> difference_in_regime(
            acct.held,
            s.transactions[r.tx].amount,
        ),
    }
}

/// Each sum or difference that `r` asks of `rust_decimal` on `s` is
/// computed without overflow and without rounding.
pub open spec fn step_exact(s: EngineModel, r: RecordModel) -> bool {
    let acct = account_or_fresh(s, r.client);
    match r.tx_type {
        TransactionType::Deposit => admitted(s, r.tx, r.amount) && !acct.locked ==> exact_sum(
            acct.available,
            r.amount.unwrap(),
        ),
        TransactionType::Withdrawal => admitted(s, r.tx, r.amount) && !acct.locked && value(
            acct.available,
        ) >= value(r.amount.unwrap()) ==> exact_difference(acct.available, r.amount.unwrap()),
        TransactionType::Dispute => may_dispute(s, r.client, r.tx) ==> {
            &&& exact_difference(acct.available, s.transactions[r.tx].amount)
            &&& exact_sum(acct.held, s.transactions[r.tx].amount)
        },
        TransactionType::Resolve => under_dispute(s, r.client, r.tx) ==> {
            &&& exact_sum(acct.available, s.transactions[r.tx].amount)
            &&& exact_difference(acct.held, s.transactions[r.tx].amount)
        },
        TransactionType::Chargeback => under_dispute(s, r.client, r.tx) ==> exact_difference(
            acct.held,
            s.transactions[r.tx].amount,
        ),
    }
}

/// A deposit record, as a model.
pub open spec fn deposit_record(client: u16, tx: u32, amount: Option<Amount>) -> RecordModel {
    RecordModel { tx_type: TransactionType::Deposit, client, tx, amount: option_view(amount) }
}

/// A withdrawal record, as a model.
pub open spec fn withdrawal_record(client: u16, tx: u32, amount: Option<Amount>) -> RecordModel {
    RecordModel { tx_type: TransactionType::Withdrawal, client, tx, amount: option_view(amount) }
}

/// A dispute, resolve or chargeback record, as a model.
pub open spec fn claim_record(tx_type: TransactionType, client: u16, tx: u32) -> RecordModel {
    RecordModel { tx_type, client, tx, amount: None }
}

/// Whether `o` is the output row of the account `a`: the same amounts,
/// the account's total, and the same lock.
pub open spec fn row_of(a: AccountModel, o: OutputRecord) -> bool {
    &&& o.available.0@ == a.available
    &&& o.held.0@ == a.held
    &&& total_of(a) == Some(o.total.0@)
    &&& o.locked == a.locked
}

/// Whether some row of `rows` is that of `client`.
pub open spec fn lists_client(rows: Seq<OutputRecord>, client: u16) -> bool {
    exists|i: int| 0 <= i < rows.len() && rows[i].client == client
}

/// Whether `rows` are the output rows of the accounts of `s`: one row per
/// client, each the row of that client's account.
pub open spec fn rows_describe(s: EngineModel, rows: Seq<OutputRecord>) -> bool {
    &&& rows.len() == s.accounts.dom().len()
    &&& forall|i: int|
        0 <= i < rows.len() ==> #[trigger] s.accounts.contains_key(rows[i].client) && row_of(
            s.accounts[rows[i].client],
            rows[i],
        )
    &&& forall|c: u16| #[trigger] s.accounts.contains_key(c) ==> lists_client(rows, c)
    &&& forall|i: int, j: int| 0 <= i < j < rows.len() ==> rows[i].client != rows[j].client
}

/// Whether the account `a` has a total and its amounts can be written as
/// text.
pub open spec fn account_printable(a: AccountModel) -> bool {
    total_of(a) matches Some(t) && text_fits(a.available) && text_fits(a.held) && text_fits(t)
}

/// Whether every account of `s` has a total and can be written as text.
pub open spec fn all_printable(s: EngineModel) -> bool {
    forall|c: u16| #[trigger] s.accounts.contains_key(c) ==> account_printable(s.accounts[c])
}

/// The text of output rows, one line each.
pub open spec fn rows_text(rows: Seq<OutputRecord>) -> Seq<char>
    decreases rows.len(),
{
    if rows.len() == 0 {
        Seq::empty()
    } else {
        rows_text(rows.drop_last()) + row_text(rows.last()) + seq!['\n']
    }
}

/// The whole output: the header line, then the rows.
pub open spec fn report_text(rows: Seq<OutputRecord>) -> Seq<char> {
    header_text() + seq!['\n'] + rows_text(rows)
}

/// The text of the first `k + 1` rows is that of the first `k` and one
/// more line.
proof fn lemma_rows_text_take(rows: Seq<OutputRecord>, k: int)
    requires
        0 <= k < rows.len(),
    ensures
        rows_text(rows.take(k + 1)) == rows_text(rows.take(k)) + row_text(rows[k]) + seq!['\n'],
{
    assert(rows.take(k + 1).drop_last() =~= rows.take(k));
}

/// `m.insert(k, v)` viewed value by value.
proof fn lemma_map_values_insert<K, V, W>(m: Map<K, V>, k: K, v: V, f: spec_fn(V) -> W)
    ensures
        m.insert(k, v).map_values(f) == m.map_values(f).insert(k, f(v)),
{
    assert(m.insert(k, v).map_values(f) =~= m.map_values(f).insert(k, f(v)));
}

/// The payments engine: all accounts, the deposits that may be disputed,
/// and the ids of the deposits and withdrawals seen so far.
pub struct PaymentsEngine {
    accounts: HashMap<u16, Account>,
    transactions: HashMap<u32, StoredTransaction>,
    seen: HashSet<u32>,
}

impl View for PaymentsEngine {
    type V = EngineModel;

    closed spec fn view(&self) -> EngineModel {
        EngineModel {
            accounts: self.accounts@.map_values(|a: Account| a@),
            transactions: self.transactions@.map_values(|t: StoredTransaction| t@),
            seen: self.seen@,
        }
    }
}

impl PaymentsEngine {
    /// An engine with no accounts, no stored deposits and no seen ids.
    pub fn new() -> (r: PaymentsEngine)
        ensures
            r@ == empty_state(),
    {
        let r = PaymentsEngine {
            accounts: HashMap::new(),
            transactions: HashMap::new(),
            seen: HashSet::new(),
        };
        assert(r@ =~= empty_state());
        r
    }

    /// Sets the account of `client` to `a`.
    fn put_account(&mut self, client: u16, a: Account)
        ensures
            final(self)@ == with_account(old(self)@, client, a@),
    {
        self.accounts.insert(client, a);
        proof {
            lemma_map_values_insert(old(self).accounts@, client, a, |a: Account| a@);
            assert(self@ =~= with_account(old(self)@, client, a@));
        }
    }

    /// Sets the stored deposit `tx` to `t`.
    fn put_transaction(&mut self, tx: u32, t: StoredTransaction)
        ensures
            final(self)@ == with_transaction(old(self)@, tx, t@),
    {
        self.transactions.insert(tx, t);
        proof {
            lemma_map_values_insert(old(self).transactions@, tx, t, |t: StoredTransaction| t@);
            assert(self@ =~= with_transaction(old(self)@, tx, t@));
        }
    }

    /// Marks the id `tx` as seen.
    fn mark_seen(&mut self, tx: u32)
        ensures
            final(self)@ == with_seen(old(self)@, tx),
    {
        self.seen.insert(tx);
        assert(self@ =~= with_seen(old(self)@, tx));
    }

    /// The account of `client` as it stands, or a fresh one.
    fn peek_account(&self, client: u16) -> (r: Account)
        ensures
            r@ == account_or_fresh(self@, client),
    {
        match self.accounts.get(&client) {
            Some(a) => *a,
            None => Account::new(),
        }
    }

    /// The account of `client`, created fresh where there is none yet.
    fn get_or_create_account(&mut self, client: u16) -> (r: Account)
        ensures
            r@ == account_or_fresh(old(self)@, client),
            final(self)@ == with_account(old(self)@, client, r@),
    {
        let found = match self.accounts.get(&client) {
            Some(a) => Some(*a),
            None => None,
        };
        match found {
            Some(a) => {
                proof {
                    assert(self@.accounts.insert(client, a@) =~= self@.accounts);
                    assert(self@ =~= with_account(old(self)@, client, a@));
                }
                a
            },
            None => {
                let a = Account::new();
                self.put_account(client, a);
                a
            },
        }
    }

    /// The stored deposit `tx`, if any.
    fn stored(&self, tx: u32) -> (r: Option<StoredTransaction>)
        ensures
            r is Some <==> self@.transactions.contains_key(tx),
            r matches Some(t) ==> t@ == self@.transactions[tx],
    {
        match self.transactions.get(&tx) {
            Some(t) => Some(*t),
            None => None,
        }
    }

    /// A deposit of `amount` to `client` under the id `tx`.
    pub fn deposit(&mut self, client: u16, tx: u32, amount: Option<Amount>)
        ensures
            final(self)@ == deposit_step(old(self)@, client, tx, option_view(amount)),
            step_in_regime(old(self)@, deposit_record(client, tx, amount)) ==> step_exact(
                old(self)@,
                deposit_record(client, tx, amount),
            ),
    {
        let amount = match amount {
            Some(a) => {
                if a.is_positive() {
                    a
                } else {
                    return;
                }
            },
            None => {
                return;
            },
        };
        // Ignore already seen tx IDs
        if self.seen.contains(&tx) {
            return;
        }
        let account = self.peek_account(client);
        if account.locked {
            self.get_or_create_account(client);
            self.mark_seen(tx);
            return;
        }
        let available = match account.available.checked_add(&amount) {
            Some(v) => v,
            None => {
                return;
            },
        };
        self.put_account(client, Account { available, held: account.held, locked: account.locked });
        self.put_transaction(
            tx,
            StoredTransaction { client, amount, disputed: false, chargebacked: false },
        );
        self.mark_seen(tx);
        proof {
            assert(self@ =~= deposit_step(old(self)@, client, tx, Some(amount@)));
        }
    }

    /// A withdrawal of `amount` from `client` under the id `tx`.
    pub fn withdrawal(&mut self, client: u16, tx: u32, amount: Option<Amount>)
        ensures
            final(self)@ == withdrawal_step(old(self)@, client, tx, option_view(amount)),
            step_in_regime(old(self)@, withdrawal_record(client, tx, amount)) ==> step_exact(
                old(self)@,
                withdrawal_record(client, tx, amount),
            ),
    {
        let amount = match amount {
            Some(a) => {
                if a.is_positive() {
                    a
                } else {
                    return;
                }
            },
            None => {
                return;
            },
        };
        // Ignore already seen tx IDs
        if self.seen.contains(&tx) {
            return;
        }
        let account = self.peek_account(client);
        if account.locked || account.available.lt(&amount) {
            self.get_or_create_account(client);
            self.mark_seen(tx);
            return;
        }
        let available = match account.available.checked_sub(&amount) {
            Some(v) => v,
            None => {
                return;
            },
        };
        self.put_account(client, Account { available, held: account.held, locked: account.locked });
        self.mark_seen(tx);
        proof {
            assert(self@ =~= withdrawal_step(old(self)@, client, tx, Some(amount@)));
        }
    }

    /// A dispute by `client` of the deposit `tx`.
    pub fn dispute(&mut self, client: u16, tx: u32)
        ensures
            final(self)@ == dispute_step(old(self)@, client, tx),
            step_in_regime(old(self)@, claim_record(TransactionType::Dispute, client, tx))
                ==> step_exact(old(self)@, claim_record(TransactionType::Dispute, client, tx)),
    {
        let stored = match self.stored(tx) {
            Some(t) => {
                if t.client == client && !t.disputed && !t.chargebacked {
                    t
                } else {
                    return;
                }
            },
            None => {
                return;
            },
        };
        let amount = stored.amount;
        let account = self.peek_account(client);
        let available = match account.available.checked_sub(&amount) {
            Some(v) => v,
            None => {
                return;
            },
        };
        let held = match account.held.checked_add(&amount) {
            Some(v) => v,
            None => {
                return;
            },
        };
        self.put_transaction(
            tx,
            StoredTransaction {
                client: stored.client,
                amount: stored.amount,
                disputed: true,
                chargebacked: stored.chargebacked,
            },
        );
        self.put_account(client, Account { available, held, locked: account.locked });
        proof {
            assert(self@ =~= dispute_step(old(self)@, client, tx));
        }
    }

    /// A resolve by `client` of the dispute of `tx`.
    pub fn resolve(&mut self, client: u16, tx: u32)
        ensures
            final(self)@ == resolve_step(old(self)@, client, tx),
            step_in_regime(old(self)@, claim_record(TransactionType::Resolve, client, tx))
                ==> step_exact(old(self)@, claim_record(TransactionType::Resolve, client, tx)),
    {
        let stored = match self.stored(tx) {
            Some(t) => {
                if t.client == client && t.disputed {
                    t
                } else {
                    return;
                }
            },
            None => {
                return;
            },
        };
        let amount = stored.amount;
        let account = self.peek_account(client);
        let available = match account.available.checked_add(&amount) {
            Some(v) => v,
            None => {
                return;
            },
        };
        let held = match account.held.checked_sub(&amount) {
            Some(v) => v,
            None => {
                return;
            },
        };
        self.put_transaction(
            tx,
            StoredTransaction {
                client: stored.client,
                amount: stored.amount,
                disputed: false,
                chargebacked: stored.chargebacked,
            },
        );
        self.put_account(client, Account { available, held, locked: account.locked });
        proof {
            assert(self@ =~= resolve_step(old(self)@, client, tx));
        }
    }

    /// A chargeback by `client` of the disputed deposit `tx`.
    pub fn chargeback(&mut self, client: u16, tx: u32)
        ensures
            final(self)@ == chargeback_step(old(self)@, client, tx),
            step_in_regime(old(self)@, claim_record(TransactionType::Chargeback, client, tx))
                ==> step_exact(old(self)@, claim_record(TransactionType::Chargeback, client, tx)),
    {
        let stored = match self.stored(tx) {
            Some(t) => {
                if t.client == client && t.disputed {
                    t
                } else {
                    return;
                }
            },
            None => {
                return;
            },
        };
        let amount = stored.amount;
        let account = self.peek_account(client);
        let held = match account.held.checked_sub(&amount) {
            Some(v) => v,
            None => {
                return;
            },
        };
        self.put_transaction(
            tx,
            StoredTransaction {
                client: stored.client,
                amount: stored.amount,
                disputed: false,
                chargebacked: true,
            },
        );
        self.put_account(client, Account { available: account.available, held, locked: true });
        proof {
            assert(self@ =~= chargeback_step(old(self)@, client, tx));
        }
    }

    /// Processes a single input record. Records that the rules reject
    /// (already seen, unknown or foreign transactions, non-positive amounts,
    /// locked accounts, insufficient funds, disputes in the wrong state,
    /// sums or differences that overflow) are ignored; this never panics.
    pub fn process(&mut self, record: InputRecord)
        ensures
            final(self)@ == step(old(self)@, record@),
            step_in_regime(old(self)@, record@) ==> step_exact(old(self)@, record@),
            step_in_regime(old(self)@, record@) ==> forall|c: u16| #[trigger]
                funds(final(self)@, c) == funds(old(self)@, c) + (if c == record.client {
                    funds_change(old(self)@, record@)
                } else {
                    0
                }),
    {
        match record.tx_type {
            TransactionType::Deposit => self.deposit(record.client, record.tx, record.amount),
            TransactionType::Withdrawal => self.withdrawal(record.client, record.tx, record.amount),
            TransactionType::Dispute => self.dispute(record.client, record.tx),
            TransactionType::Resolve => self.resolve(record.client, record.tx),
            TransactionType::Chargeback => self.chargeback(record.client, record.tx),
        }
        proof {
            if step_in_regime(old(self)@, record@) {
                assert forall|c: u16| #[trigger] funds(self@, c) == funds(old(self)@, c) + (if c
                    == record.client {
                    funds_change(old(self)@, record@)
                } else {
                    0
                }) by {
                    law_funds_change(old(self)@, record@, c);
                }
            }
        }
    }

    /// All client accounts, each client once, in the order in which the
    /// account map is walked.
    pub fn accounts(&self) -> (r: Vec<(u16, Account)>)
        ensures
            r@.len() == self@.accounts.dom().len(),
            forall|i: int|
                0 <= i < r@.len() ==> #[trigger] self@.accounts.contains_key(r@[i].0)
                    && self@.accounts[r@[i].0] == r@[i].1@,
            forall|c: u16| #[trigger]
                self@.accounts.contains_key(c) ==> exists|i: int| 0 <= i < r@.len() && r@[i].0 == c,
            forall|i: int, j: int| 0 <= i < j < r@.len() ==> r@[i].0 != r@[j].0,
    {
        let mut r: Vec<(u16, Account)> = Vec::new();
        let ghost entries = self.accounts.iter().remaining();
        for entry in it: self.accounts.iter()
            invariant
                it.seq() == entries,
                r@.len() == it.index(),
                forall|i: int|
                    0 <= i < it.index() ==> r@[i].0 == *entries[i].0 && r@[i].1 == *entries[i].1,
        {
            let (c, a) = entry;
            r.push((*c, *a));
        }
        proof {
            let m = self.accounts@;
            assert(self@.accounts.dom() =~= m.dom());
            assert forall|i: int| 0 <= i < r@.len() implies #[trigger] self@.accounts.contains_key(
                r@[i].0,
            ) && self@.accounts[r@[i].0] == r@[i].1@ by {
                assert(m.contains_key(*entries[i].0) && m[*entries[i].0] == *entries[i].1);
            }
            assert forall|i: int, j: int| 0 <= i < j < r@.len() implies r@[i].0 != r@[j].0 by {
                if r@[i].0 == r@[j].0 {
                    assert(m.contains_key(*entries[i].0) && m[*entries[i].0] == *entries[i].1);
                    assert(m.contains_key(*entries[j].0) && m[*entries[j].0] == *entries[j].1);
                    assert(entries[i] == entries[j]);
                }
            }
            assert forall|c: u16| #[trigger] self@.accounts.contains_key(c) implies exists|i: int|
                0 <= i < r@.len() && r@[i].0 == c by {
                assert(m.contains_key(c));
                assert(entries.contains((&c, &m[c])));
                let i = choose|i: int| 0 <= i < entries.len() && entries[i] == (&c, &m[c]);
                assert(r@[i].0 == c);
            }
        }
        r
    }

    /// The output rows of all accounts, each client once; `None` where the
    /// total of some account overflows.
    pub fn output_records(&self) -> (r: Option<Vec<OutputRecord>>)
        ensures
            r is None <==> exists|c: u16| #[trigger]
                self@.accounts.contains_key(c) && total_of(self@.accounts[c]) is None,
            r matches Some(rows) ==> rows_describe(self@, rows@),
    {
        let accounts = self.accounts();
        let mut rows: Vec<OutputRecord> = Vec::new();
        let n = accounts.len();
        #[verifier::loop_isolation(false)]
        for k in 0..n
            invariant
                n == accounts@.len(),
                rows@.len() == k,
                forall|i: int|
                    0 <= i < k ==> rows@[i].client == accounts@[i].0 && row_of(
                        accounts@[i].1@,
                        rows@[i],
                    ),
        {
            let (client, account) = accounts[k];
            match OutputRecord::checked_new(client, &account) {
                Some(row) => rows.push(row),
                None => {
                    assert(self@.accounts.contains_key(accounts@[k as int].0));
                    return None;
                },
            }
        }
        proof {
            assert forall|c: u16| #[trigger] self@.accounts.contains_key(c) implies total_of(
                self@.accounts[c],
            ) is Some by {
                let i = choose|i: int| 0 <= i < accounts@.len() && accounts@[i].0 == c;
                assert(self@.accounts.contains_key(accounts@[i].0));
            }
            assert forall|i: int| 0 <= i < rows@.len() implies #[trigger] self@.accounts.contains_key(
                rows@[i].client,
            ) && row_of(self@.accounts[rows@[i].client], rows@[i]) by {
                assert(self@.accounts.contains_key(accounts@[i].0));
            }
            assert forall|c: u16| #[trigger] self@.accounts.contains_key(c) implies lists_client(
                rows@,
                c,
            ) by {
                assert(exists|i: int| 0 <= i < accounts@.len() && accounts@[i].0 == c);
                let i = choose|i: int| 0 <= i < accounts@.len() && accounts@[i].0 == c;
                assert(0 <= i < rows@.len() && rows@[i].client == c);
            }
            assert forall|i: int, j: int| 0 <= i < j < rows@.len() implies rows@[i].client
                != rows@[j].client by {
                assert(accounts@[i].0 != accounts@[j].0);
            }
        }
        Some(rows)
    }

    /// The whole output: the header line, then one line per client with its
    /// amounts written with four fractional digits; `None` where the total of
    /// some account overflows or an amount is too large to be written.
    pub fn output_text(&self) -> (r: Option<String>)
        ensures
            r is Some <==> all_printable(self@),
            r matches Some(t) ==> exists|rows: Seq<OutputRecord>|
                rows_describe(self@, rows) && t@ == report_text(rows),
    {
        let rows = match self.output_records() {
            Some(rows) => rows,
            None => {
                proof {
                    let c = choose|c: u16| #[trigger]
                        self@.accounts.contains_key(c) && total_of(self@.accounts[c]) is None;
                    assert(!all_printable(self@));
                }
                return None;
            },
        };
        let mut text = csv_header();
        text.append("\n");
        proof {
            reveal_strlit("\n");
            assert(rows@.take(0) =~= Seq::<OutputRecord>::empty());
        }
        let n = rows.len();
        for k in 0..n
            invariant
                n == rows@.len(),
                rows_describe(self@, rows@),
                forall|i: int| 0 <= i < k ==> row_fits(#[trigger] rows@[i]),
                text@ == report_text(rows@.take(k as int)),
        {
            let row = rows[k];
            if !row.fits_text() {
                proof {
                    assert(self@.accounts.contains_key(rows@[k as int].client));
                    assert(!all_printable(self@));
                }
                return None;
            }
            text.append(row.to_csv_line().as_str());
            text.append("\n");
            proof {
                reveal_strlit("\n");
                lemma_rows_text_take(rows@, k as int);
                assert(text@ =~= report_text(rows@.take(k + 1)));
            }
        }
        proof {
            assert(rows@.take(n as int) =~= rows@);
            assert forall|c: u16| #[trigger] self@.accounts.contains_key(c) implies account_printable(
                self@.accounts[c],
            ) by {
                assert(lists_client(rows@, c));
                let i = choose|i: int| 0 <= i < rows@.len() && rows@[i].client == c;
                assert(row_fits(rows@[i]));
            }
        }
        Some(text)
    }
}

} // verus!
