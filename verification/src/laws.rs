//! What holds of the engine over all inputs and across transactions.
use crate::decimal::{decimal_difference, decimal_sum, exact_difference, exact_sum, value};
use crate::engine::{
    account_or_fresh, admitted, chargeback_step, deposit_of, deposit_step, dispute_step, empty_state,
    may_dispute, positive, report_text, resolve_step, step, step_exact, under_dispute, withdrawal_step, EngineModel,
};
use crate::types::{
    header_text, row_text, total_of, AccountModel, OutputRecord, RecordModel, StoredModel,
    TransactionType,
};
use vstd::prelude::*;

verus! {

/// The invariant of every state the engine reaches: each stored deposit has
/// a seen id, a positive amount and an account of its client, is never both
/// disputed and charged back, and, once charged back, has its client's
/// account locked.
pub open spec fn consistent(s: EngineModel) -> bool {
    forall|tx: u32| #[trigger]
        s.transactions.contains_key(tx) ==> {
            let t = s.transactions[tx];
            &&& s.seen.contains(tx)
            &&& value(t.amount) > 0
            &&& s.accounts.contains_key(t.client)
            &&& !(t.disputed && t.chargebacked)
            &&& t.chargebacked ==> s.accounts[t.client].locked
        }
}

/// A new engine is consistent.
pub proof fn law_new_engine_is_consistent()
    ensures
        consistent(empty_state()),
{
}

/// Every transaction keeps the engine consistent.
pub proof fn law_step_keeps_consistency(s: EngineModel, r: RecordModel)
    requires
        consistent(s),
    ensures
        consistent(step(s, r)),
{
    let s2 = step(s, r);
    assert forall|tx: u32| #[trigger] s2.transactions.contains_key(tx) implies {
        let t = s2.transactions[tx];
        &&& s2.seen.contains(tx)
        &&& value(t.amount) > 0
        &&& s2.accounts.contains_key(t.client)
        &&& !(t.disputed && t.chargebacked)
        &&& t.chargebacked ==> s2.accounts[t.client].locked
    } by {
        if s.transactions.contains_key(tx) {
            let t = s.transactions[tx];
            assert(s.accounts.contains_key(t.client));
        }
    }
}

/// A deposit that has been charged back is final: no later transaction
/// changes it, and it can never be disputed again.
pub proof fn law_chargeback_is_final(s: EngineModel, r: RecordModel, tx: u32)
    requires
        consistent(s),
        s.transactions.contains_key(tx),
        s.transactions[tx].chargebacked,
    ensures
        step(s, r).transactions.contains_key(tx),
        step(s, r).transactions[tx] == s.transactions[tx],
        !may_dispute(step(s, r), r.client, tx),
{
}

/// A locked account stays locked.
pub proof fn law_lock_is_permanent(s: EngineModel, r: RecordModel, client: u16)
    requires
        s.accounts.contains_key(client),
        s.accounts[client].locked,
    ensures
        step(s, r).accounts.contains_key(client),
        step(s, r).accounts[client].locked,
{
}

/// Accounts are never removed.
pub proof fn law_accounts_are_never_removed(s: EngineModel, r: RecordModel, client: u16)
    requires
        s.accounts.contains_key(client),
    ensures
        step(s, r).accounts.contains_key(client),
{
}

/// Disputes, resolves and chargebacks never open an account, and no
/// transaction opens one but for its own client.
pub proof fn law_only_deposits_and_withdrawals_open_accounts(s: EngineModel, r: RecordModel)
    requires
        consistent(s),
    ensures
        step(s, r).accounts.dom() == s.accounts.dom() || step(s, r).accounts.dom()
            == s.accounts.dom().insert(r.client),
        (r.tx_type == TransactionType::Dispute || r.tx_type == TransactionType::Resolve
            || r.tx_type == TransactionType::Chargeback) ==> step(s, r).accounts.dom()
            == s.accounts.dom(),
{
    let s2 = step(s, r);
    if s2.accounts.dom() =~= s.accounts.dom() {
    } else {
        assert(s2.accounts.dom() =~= s.accounts.dom().insert(r.client));
    }
    if r.tx_type == TransactionType::Dispute || r.tx_type == TransactionType::Resolve
        || r.tx_type == TransactionType::Chargeback {
        if s.transactions.contains_key(r.tx) {
            assert(s.accounts.contains_key(s.transactions[r.tx].client));
        }
        assert(s2.accounts.dom() =~= s.accounts.dom());
    }
}

/// A locked account takes no deposit and no withdrawal: they leave every
/// account and every stored deposit as they were (only their ids are seen).
pub proof fn law_locked_account_is_frozen(s: EngineModel, client: u16, tx: u32, amount: Option<(int, nat)>)
    requires
        account_or_fresh(s, client).locked,
    ensures
        deposit_step(s, client, tx, amount).accounts == s.accounts,
        deposit_step(s, client, tx, amount).transactions == s.transactions,
        withdrawal_step(s, client, tx, amount).accounts == s.accounts,
        withdrawal_step(s, client, tx, amount).transactions == s.transactions,
{
    assert(s.accounts.insert(client, s.accounts[client]) =~= s.accounts);
}

/// A deposit or withdrawal without a positive amount is ignored.
pub proof fn law_non_positive_amounts_are_ignored(
    s: EngineModel,
    client: u16,
    tx: u32,
    amount: Option<(int, nat)>,
)
    requires
        !positive(amount),
    ensures
        deposit_step(s, client, tx, amount) == s,
        withdrawal_step(s, client, tx, amount) == s,
{
}

/// A deposit or withdrawal whose id has been seen before, as a deposit or
/// as a withdrawal, is ignored.
pub proof fn law_duplicate_ids_are_ignored(s: EngineModel, client: u16, tx: u32, amount: Option<(int, nat)>)
    requires
        s.seen.contains(tx),
    ensures
        deposit_step(s, client, tx, amount) == s,
        withdrawal_step(s, client, tx, amount) == s,
{
}

/// Seen ids are never forgotten, and every deposit or withdrawal that is
/// taken up has its id seen.
pub proof fn law_seen_ids_are_kept(s: EngineModel, r: RecordModel, tx: u32)
    ensures
        s.seen.contains(tx) ==> step(s, r).seen.contains(tx),
        step(s, r) != s && (r.tx_type == TransactionType::Deposit || r.tx_type
            == TransactionType::Withdrawal) ==> step(s, r).seen.contains(r.tx),
{
}

/// Stored deposits are never removed, and keep their client and amount.
pub proof fn law_stored_deposits_persist(s: EngineModel, r: RecordModel, tx: u32)
    requires
        consistent(s),
        s.transactions.contains_key(tx),
    ensures
        step(s, r).transactions.contains_key(tx),
        step(s, r).transactions[tx].client == s.transactions[tx].client,
        step(s, r).transactions[tx].amount == s.transactions[tx].amount,
        step(s, r).transactions[tx].chargebacked || !s.transactions[tx].chargebacked,
{
}

/// A dispute, resolve or chargeback that does not name a stored deposit of
/// its own client is ignored.
pub proof fn law_foreign_or_unknown_deposits_are_ignored(s: EngineModel, client: u16, tx: u32)
    requires
        !deposit_of(s, client, tx),
    ensures
        dispute_step(s, client, tx) == s,
        resolve_step(s, client, tx) == s,
        chargeback_step(s, client, tx) == s,
{
}

/// A dispute of a deposit already under dispute or charged back, and a
/// resolve or chargeback of a deposit not under dispute, are ignored.
pub proof fn law_out_of_order_requests_are_ignored(s: EngineModel, client: u16, tx: u32)
    ensures
        !may_dispute(s, client, tx) ==> dispute_step(s, client, tx) == s,
        !under_dispute(s, client, tx) ==> resolve_step(s, client, tx) == s,
        !under_dispute(s, client, tx) ==> chargeback_step(s, client, tx) == s,
{
}

/// Withdrawals are never stored, so they can never be disputed.
pub proof fn law_withdrawals_are_not_stored(s: EngineModel, client: u16, tx: u32, amount: Option<(int, nat)>)
    ensures
        withdrawal_step(s, client, tx, amount).transactions == s.transactions,
{
}

/// A withdrawal never overdraws: the available funds stay as they were, or
/// drop by the amount to a value that is not negative.
pub proof fn law_withdrawal_never_overdraws(
    s: EngineModel,
    client: u16,
    tx: u32,
    amount: Option<(int, nat)>,
)
    requires
        amount is Some ==> exact_difference(account_or_fresh(s, client).available, amount.unwrap()),
    ensures
        ({
            let before = account_or_fresh(s, client).available;
            let after = account_or_fresh(withdrawal_step(s, client, tx, amount), client).available;
            ||| after == before
            ||| value(after) == value(before) - value(amount.unwrap()) && value(after) >= 0
        }),
{
}

/// A dispute moves the deposit's amount from available to held: the
/// available funds drop by the amount, the held funds grow by it, and the
/// total stays the same.
pub proof fn law_dispute_holds_funds(s: EngineModel, client: u16, tx: u32)
    requires
        consistent(s),
        may_dispute(s, client, tx),
        exact_difference(s.accounts[client].available, s.transactions[tx].amount),
        exact_sum(s.accounts[client].held, s.transactions[tx].amount),
    ensures
        ({
            let before = s.accounts[client];
            let after = dispute_step(s, client, tx).accounts[client];
            let amount = value(s.transactions[tx].amount);
            &&& value(after.available) == value(before.available) - amount
            &&& value(after.held) == value(before.held) + amount
            &&& value(after.available) + value(after.held) == value(before.available) + value(
                before.held,
            )
            &&& after.locked == before.locked
            &&& dispute_step(s, client, tx).transactions[tx].disputed
        }),
{
}

/// A resolve moves the deposit's amount from held back to available: the
/// total stays the same and the dispute ends.
pub proof fn law_resolve_releases_funds(s: EngineModel, client: u16, tx: u32)
    requires
        consistent(s),
        under_dispute(s, client, tx),
        exact_sum(s.accounts[client].available, s.transactions[tx].amount),
        exact_difference(s.accounts[client].held, s.transactions[tx].amount),
    ensures
        ({
            let before = s.accounts[client];
            let after = resolve_step(s, client, tx).accounts[client];
            let amount = value(s.transactions[tx].amount);
            &&& value(after.available) == value(before.available) + amount
            &&& value(after.held) == value(before.held) - amount
            &&& value(after.available) + value(after.held) == value(before.available) + value(
                before.held,
            )
            &&& after.locked == before.locked
            &&& !resolve_step(s, client, tx).transactions[tx].disputed
        }),
{
}

/// A chargeback takes the deposit's amount out of held funds, leaves the
/// available funds alone, lowers the total by the amount, and locks the
/// account.
pub proof fn law_chargeback_withdraws_held_funds(s: EngineModel, client: u16, tx: u32)
    requires
        consistent(s),
        under_dispute(s, client, tx),
        exact_difference(s.accounts[client].held, s.transactions[tx].amount),
    ensures
        ({
            let before = s.accounts[client];
            let after = chargeback_step(s, client, tx).accounts[client];
            let amount = value(s.transactions[tx].amount);
            &&& after.available == before.available
            &&& value(after.held) == value(before.held) - amount
            &&& value(after.available) + value(after.held) == value(before.available) + value(
                before.held,
            ) - amount
            &&& after.locked
            &&& chargeback_step(s, client, tx).transactions[tx].chargebacked
        }),
{
}

/// A dispute followed by its resolve gives the client back the funds they
/// had, and leaves the deposit as it was, so that it may be disputed again.
pub proof fn law_dispute_then_resolve_restores(s: EngineModel, client: u16, tx: u32)
    requires
        consistent(s),
        may_dispute(s, client, tx),
        exact_difference(s.accounts[client].available, s.transactions[tx].amount),
        exact_sum(s.accounts[client].held, s.transactions[tx].amount),
        exact_sum(
            dispute_step(s, client, tx).accounts[client].available,
            s.transactions[tx].amount,
        ),
        exact_difference(
            dispute_step(s, client, tx).accounts[client].held,
            s.transactions[tx].amount,
        ),
    ensures
        ({
            let s2 = resolve_step(dispute_step(s, client, tx), client, tx);
            &&& value(s2.accounts[client].available) == value(s.accounts[client].available)
            &&& value(s2.accounts[client].held) == value(s.accounts[client].held)
            &&& s2.accounts[client].locked == s.accounts[client].locked
            &&& s2.transactions == s.transactions
            &&& may_dispute(s2, client, tx)
        }),
{
    let s1 = dispute_step(s, client, tx);
    let s2 = resolve_step(s1, client, tx);
    assert(s2.transactions =~= s.transactions);
}

/// The sum of `g` over the finite set `keys`.
pub open spec fn sum_over(keys: Set<u32>, g: spec_fn(u32) -> int) -> int
    decreases keys.len(),
    when keys.finite()
{
    if keys.len() == 0 {
        0
    } else {
        let k = keys.choose();
        g(k) + sum_over(keys.remove(k), g)
    }
}

/// Any element may be taken out of a sum first.
proof fn lemma_sum_over_remove(keys: Set<u32>, g: spec_fn(u32) -> int, a: u32)
    requires
        keys.finite(),
        keys.contains(a),
    ensures
        sum_over(keys, g) == g(a) + sum_over(keys.remove(a), g),
    decreases keys.len(),
{
    let k = keys.choose();
    if k != a {
        lemma_sum_over_remove(keys.remove(k), g, a);
        lemma_sum_over_remove(keys.remove(a), g, k);
        assert(keys.remove(k).remove(a) =~= keys.remove(a).remove(k));
    }
}

/// Sums of functions that agree on the set are equal.
proof fn lemma_sum_over_congruent(keys: Set<u32>, g1: spec_fn(u32) -> int, g2: spec_fn(u32) -> int)
    requires
        keys.finite(),
        forall|k: u32| keys.contains(k) ==> g1(k) == g2(k),
    ensures
        sum_over(keys, g1) == sum_over(keys, g2),
    decreases keys.len(),
{
    if keys.len() != 0 {
        let k = keys.choose();
        lemma_sum_over_congruent(keys.remove(k), g1, g2);
    }
}

/// A sum of values that are not negative is not negative.
proof fn lemma_sum_over_nonnegative(keys: Set<u32>, g: spec_fn(u32) -> int)
    requires
        keys.finite(),
        forall|k: u32| keys.contains(k) ==> g(k) >= 0,
    ensures
        sum_over(keys, g) >= 0,
    decreases keys.len(),
{
    if keys.len() != 0 {
        let k = keys.choose();
        lemma_sum_over_nonnegative(keys.remove(k), g);
    }
}

/// What the stored deposit `tx` holds for `client`: its amount while it is
/// a disputed deposit of theirs, nothing otherwise.
pub open spec fn held_part(txs: Map<u32, StoredModel>, client: u16, tx: u32) -> int {
    if txs[tx].client == client && txs[tx].disputed {
        value(txs[tx].amount)
    } else {
        0
    }
}

/// The total of the deposits of `client` under dispute.
pub open spec fn disputed_total(txs: Map<u32, StoredModel>, client: u16) -> int {
    sum_over(txs.dom(), |tx: u32| held_part(txs, client, tx))
}

/// The held funds of every account are the total of its deposits under
/// dispute.
pub open spec fn held_is_disputed_total(s: EngineModel) -> bool {
    &&& s.transactions.dom().finite()
    &&& forall|c: u16| #[trigger]
        s.accounts.contains_key(c) ==> value(s.accounts[c].held) == disputed_total(
            s.transactions,
            c,
        )
}

/// `rust_decimal` computes without rounding the one change that `r` makes
/// to held funds.
pub open spec fn held_change_exact(s: EngineModel, r: RecordModel) -> bool {
    let acct = account_or_fresh(s, r.client);
    match r.tx_type {
        TransactionType::Dispute => may_dispute(s, r.client, r.tx) ==> exact_sum(
            acct.held,
            s.transactions[r.tx].amount,
        ),
        TransactionType::Resolve => under_dispute(s, r.client, r.tx) ==> exact_difference(
            acct.held,
            s.transactions[r.tx].amount,
        ),
        TransactionType::Chargeback => under_dispute(s, r.client, r.tx) ==> exact_difference(
            acct.held,
            s.transactions[r.tx].amount,
        ),
        _ => true,
    }
}

/// The disputed totals after the stored deposit `tx` is set to `t`.
proof fn lemma_disputed_total_update(txs: Map<u32, StoredModel>, tx: u32, t: StoredModel, c: u16)
    requires
        txs.dom().finite(),
    ensures
        disputed_total(txs.insert(tx, t), c) == disputed_total(txs, c) - (if txs.contains_key(tx) {
            held_part(txs, c, tx)
        } else {
            0
        }) + held_part(txs.insert(tx, t), c, tx),
{
    let txs2 = txs.insert(tx, t);
    let g1 = |k: u32| held_part(txs, c, k);
    let g2 = |k: u32| held_part(txs2, c, k);
    let rest = txs.dom().remove(tx);
    assert(txs2.dom().remove(tx) =~= rest);
    lemma_sum_over_remove(txs2.dom(), g2, tx);
    lemma_sum_over_congruent(rest, g1, g2);
    if txs.contains_key(tx) {
        lemma_sum_over_remove(txs.dom(), g1, tx);
    } else {
        assert(rest =~= txs.dom());
    }
}

/// A client without stored deposits has nothing under dispute.
proof fn lemma_disputed_total_of_stranger(txs: Map<u32, StoredModel>, c: u16)
    requires
        txs.dom().finite(),
        forall|tx: u32| #[trigger] txs.contains_key(tx) ==> txs[tx].client != c,
    ensures
        disputed_total(txs, c) == 0,
{
    let g = |k: u32| held_part(txs, c, k);
    let z = |k: u32| 0int;
    lemma_sum_over_congruent(txs.dom(), g, z);
    lemma_sum_over_zero(txs.dom());
}

/// A sum of zeros is zero.
proof fn lemma_sum_over_zero(keys: Set<u32>)
    requires
        keys.finite(),
    ensures
        sum_over(keys, |k: u32| 0int) == 0,
    decreases keys.len(),
{
    if keys.len() != 0 {
        let k = keys.choose();
        lemma_sum_over_zero(keys.remove(k));
    }
}

/// A new engine holds nothing, and has nothing under dispute.
pub proof fn law_new_engine_holds_nothing()
    ensures
        held_is_disputed_total(empty_state()),
{
}

/// The held funds of every account are, at all times, the total of its
/// deposits under dispute, as long as `rust_decimal` changes held funds
/// without rounding.
pub proof fn law_held_is_disputed_total(s: EngineModel, r: RecordModel)
    requires
        consistent(s),
        held_is_disputed_total(s),
        held_change_exact(s, r),
    ensures
        held_is_disputed_total(step(s, r)),
{
    let s2 = step(s, r);
    let txs = s.transactions;
    assert forall|c: u16| #[trigger] s2.accounts.contains_key(c) implies value(s2.accounts[c].held)
        == disputed_total(s2.transactions, c) by {
        match r.tx_type {
            TransactionType::Deposit => {
                if admitted(s, r.tx, r.amount) && !account_or_fresh(s, r.client).locked
                    && decimal_sum(account_or_fresh(s, r.client).available, r.amount.unwrap())
                    is Some {
                    let t = StoredModel {
                        client: r.client,
                        amount: r.amount.unwrap(),
                        disputed: false,
                        chargebacked: false,
                    };
                    lemma_disputed_total_update(txs, r.tx, t, c);
                }
                if !s.accounts.contains_key(c) {
                    assert forall|tx: u32| #[trigger] txs.contains_key(tx) implies txs[tx].client
                        != c by {}
                    lemma_disputed_total_of_stranger(txs, c);
                }
            },
            TransactionType::Withdrawal => {
                if !s.accounts.contains_key(c) {
                    assert forall|tx: u32| #[trigger] txs.contains_key(tx) implies txs[tx].client
                        != c by {}
                    lemma_disputed_total_of_stranger(txs, c);
                }
            },
            _ => {
                if s2.transactions != txs {
                    let t = s2.transactions[r.tx];
                    assert(s2.transactions == txs.insert(r.tx, t));
                    lemma_disputed_total_update(txs, r.tx, t, c);
                }
            },
        }
    }
}

/// Held funds are never negative, as long as they are the total of the
/// deposits under dispute.
pub proof fn law_held_is_never_negative(s: EngineModel, client: u16)
    requires
        consistent(s),
        held_is_disputed_total(s),
        s.accounts.contains_key(client),
    ensures
        value(s.accounts[client].held) >= 0,
{
    let txs = s.transactions;
    let g = |k: u32| held_part(txs, client, k);
    assert forall|k: u32| txs.dom().contains(k) implies g(k) >= 0 by {
        assert(txs.contains_key(k));
    }
    lemma_sum_over_nonnegative(txs.dom(), g);
}

/// The state after the records `rs`, one after the other, from `s`.
pub open spec fn run(s: EngineModel, rs: Seq<RecordModel>) -> EngineModel
    decreases rs.len(),
{
    if rs.len() == 0 {
        s
    } else {
        step(run(s, rs.drop_last()), rs.last())
    }
}

/// Every change to held funds along the records `rs` from `s` is computed
/// by `rust_decimal` without rounding.
pub open spec fn held_changes_exact(s: EngineModel, rs: Seq<RecordModel>) -> bool
    decreases rs.len(),
{
    if rs.len() == 0 {
        true
    } else {
        held_changes_exact(s, rs.drop_last()) && held_change_exact(
            run(s, rs.drop_last()),
            rs.last(),
        )
    }
}

/// Every state the engine reaches from a new engine is consistent.
pub proof fn law_every_run_is_consistent(rs: Seq<RecordModel>)
    ensures
        consistent(run(empty_state(), rs)),
    decreases rs.len(),
{
    if rs.len() != 0 {
        law_every_run_is_consistent(rs.drop_last());
        law_step_keeps_consistency(run(empty_state(), rs.drop_last()), rs.last());
    }
}

/// Along every run from a new engine in which held funds change without
/// rounding, the held funds of each account are the total of its deposits
/// under dispute, and so are never negative.
pub proof fn law_every_run_holds_disputed_total(rs: Seq<RecordModel>, client: u16)
    requires
        held_changes_exact(empty_state(), rs),
    ensures
        held_is_disputed_total(run(empty_state(), rs)),
        run(empty_state(), rs).accounts.contains_key(client) ==> value(
            run(empty_state(), rs).accounts[client].held,
        ) >= 0,
    decreases rs.len(),
{
    if rs.len() != 0 {
        law_every_run_holds_disputed_total(rs.drop_last(), client);
        law_every_run_is_consistent(rs.drop_last());
        law_held_is_disputed_total(run(empty_state(), rs.drop_last()), rs.last());
    }
    law_every_run_is_consistent(rs);
    if run(empty_state(), rs).accounts.contains_key(client) {
        law_held_is_never_negative(run(empty_state(), rs), client);
    }
}

/// Some stored deposit of `client` has been charged back.
pub open spec fn has_charged_back_deposit(s: EngineModel, client: u16) -> bool {
    exists|tx: u32| #[trigger]
        s.transactions.contains_key(tx) && s.transactions[tx].client == client
            && s.transactions[tx].chargebacked
}

/// Every locked account has a charged-back deposit.
pub open spec fn locks_explained(s: EngineModel) -> bool {
    forall|c: u16| #[trigger]
        s.accounts.contains_key(c) && s.accounts[c].locked ==> has_charged_back_deposit(s, c)
}

/// Every transaction keeps each lock explained by a chargeback.
pub proof fn law_step_keeps_locks_explained(s: EngineModel, r: RecordModel)
    requires
        consistent(s),
        locks_explained(s),
    ensures
        locks_explained(step(s, r)),
{
    let s2 = step(s, r);
    assert forall|c: u16| #[trigger]
        s2.accounts.contains_key(c) && s2.accounts[c].locked implies has_charged_back_deposit(
        s2,
        c,
    ) by {
        if s.accounts.contains_key(c) && s.accounts[c].locked {
            let tx = choose|tx: u32| #[trigger]
                s.transactions.contains_key(tx) && s.transactions[tx].client == c
                    && s.transactions[tx].chargebacked;
            law_stored_deposits_persist(s, r, tx);
            assert(s2.transactions.contains_key(tx));
        } else {
            assert(r.tx_type == TransactionType::Chargeback);
            assert(s2.transactions.contains_key(r.tx));
        }
    }
}

/// An account is locked exactly when one of its deposits has been charged
/// back.
pub proof fn law_locked_iff_charged_back(s: EngineModel, client: u16)
    requires
        consistent(s),
        locks_explained(s),
        s.accounts.contains_key(client),
    ensures
        s.accounts[client].locked <==> has_charged_back_deposit(s, client),
{
    if has_charged_back_deposit(s, client) {
        let tx = choose|tx: u32| #[trigger]
            s.transactions.contains_key(tx) && s.transactions[tx].client == client
                && s.transactions[tx].chargebacked;
        assert(s.transactions.contains_key(tx));
    }
}

/// Along every run from a new engine, an account is locked exactly when one
/// of its deposits has been charged back.
pub proof fn law_every_run_locks_only_charged_back_accounts(rs: Seq<RecordModel>, client: u16)
    ensures
        locks_explained(run(empty_state(), rs)),
        run(empty_state(), rs).accounts.contains_key(client) ==> (run(
            empty_state(),
            rs,
        ).accounts[client].locked <==> has_charged_back_deposit(run(empty_state(), rs), client)),
    decreases rs.len(),
{
    if rs.len() != 0 {
        law_every_run_locks_only_charged_back_accounts(rs.drop_last(), client);
        law_every_run_is_consistent(rs.drop_last());
        law_step_keeps_locks_explained(run(empty_state(), rs.drop_last()), rs.last());
    }
    law_every_run_is_consistent(rs);
    if run(empty_state(), rs).accounts.contains_key(client) {
        law_locked_iff_charged_back(run(empty_state(), rs), client);
    }
}

/// A transaction whose sums and differences are exact changes held funds
/// exactly.
pub proof fn law_exact_step_changes_held_exactly(s: EngineModel, r: RecordModel)
    requires
        step_exact(s, r),
    ensures
        held_change_exact(s, r),
{
}

/// The funds of `client`: available plus held, by value (nothing for a
/// client without an account).
pub open spec fn funds(s: EngineModel, client: u16) -> int {
    value(account_or_fresh(s, client).available) + value(account_or_fresh(s, client).held)
}

/// By how much `r` changes the funds of its client: the amount of an
/// accepted deposit, less the amount of an accepted withdrawal or of a
/// charged-back deposit; nothing otherwise.
pub open spec fn funds_change(s: EngineModel, r: RecordModel) -> int {
    let acct = account_or_fresh(s, r.client);
    match r.tx_type {
        TransactionType::Deposit => if admitted(s, r.tx, r.amount) && !acct.locked && decimal_sum(
            acct.available,
            r.amount.unwrap(),
        ) is Some {
            value(r.amount.unwrap())
        } else {
            0
        },
        TransactionType::Withdrawal => if admitted(s, r.tx, r.amount) && !acct.locked && value(
            acct.available,
        ) >= value(r.amount.unwrap()) && decimal_difference(acct.available, r.amount.unwrap())
            is Some {
            -value(r.amount.unwrap())
        } else {
            0
        },
        TransactionType::Chargeback => if under_dispute(s, r.client, r.tx) && decimal_difference(
            acct.held,
            s.transactions[r.tx].amount,
        ) is Some {
            -value(s.transactions[r.tx].amount)
        } else {
            0
        },
        _ => 0,
    }
}

/// A transaction whose sums and differences are exact changes the funds of
/// its client by `funds_change`, and those of every other client not at all.
pub proof fn law_funds_change(s: EngineModel, r: RecordModel, client: u16)
    requires
        step_exact(s, r),
    ensures
        funds(step(s, r), client) == funds(s, client) + (if client == r.client {
            funds_change(s, r)
        } else {
            0
        }),
{
}

/// The sum of the funds changes of the records `rs` for `client`, one after
/// the other from `s`.
pub open spec fn funds_flow(s: EngineModel, rs: Seq<RecordModel>, client: u16) -> int
    decreases rs.len(),
{
    if rs.len() == 0 {
        0
    } else {
        funds_flow(s, rs.drop_last(), client) + (if rs.last().client == client {
            funds_change(run(s, rs.drop_last()), rs.last())
        } else {
            0
        })
    }
}

/// Every sum and difference along the records `rs` from `s` is exact.
pub open spec fn steps_exact(s: EngineModel, rs: Seq<RecordModel>) -> bool
    decreases rs.len(),
{
    if rs.len() == 0 {
        true
    } else {
        steps_exact(s, rs.drop_last()) && step_exact(run(s, rs.drop_last()), rs.last())
    }
}

/// Along every run from a new engine in which the arithmetic is exact, the
/// funds of each client are the accepted deposits, less the accepted
/// withdrawals and the charged-back deposits.
pub proof fn law_every_run_accounts_for_funds(rs: Seq<RecordModel>, client: u16)
    requires
        steps_exact(empty_state(), rs),
    ensures
        funds(run(empty_state(), rs), client) == funds_flow(empty_state(), rs, client),
    decreases rs.len(),
{
    if rs.len() != 0 {
        law_every_run_accounts_for_funds(rs.drop_last(), client);
        law_funds_change(run(empty_state(), rs.drop_last()), rs.last(), client);
    }
}

/// The total of an account, where `rust_decimal` adds its available and held
/// funds exactly, is its funds.
pub proof fn law_total_is_funds(s: EngineModel, client: u16)
    requires
        exact_sum(account_or_fresh(s, client).available, account_or_fresh(s, client).held),
    ensures
        total_of(account_or_fresh(s, client)) is Some,
        value(total_of(account_or_fresh(s, client)).unwrap()) == funds(s, client),
{
}

/// The account of `client` in `s`, written out: the stored one, or nothing
/// available, nothing held and not locked.
pub open spec fn account_in(s: EngineModel, client: u16) -> AccountModel {
    if s.accounts.contains_key(client) {
        s.accounts[client]
    } else {
        AccountModel { available: (0int, 0nat), held: (0int, 0nat), locked: false }
    }
}

/// A deposit with a positive amount and a new id, to an account that is not
/// locked and whose credit does not overflow, credits the account with
/// `rust_decimal`'s sum, stores the deposit under its id with its client and
/// amount, undisputed and not charged back, and marks its id as seen.
pub proof fn law_accepted_deposit_is_credited_and_stored(
    s: EngineModel,
    client: u16,
    tx: u32,
    a: (int, nat),
)
    requires
        value(a) > 0,
        !s.seen.contains(tx),
        !account_in(s, client).locked,
        decimal_sum(account_in(s, client).available, a) is Some,
    ensures
        ({
            let s2 = step(
                s,
                RecordModel { tx_type: TransactionType::Deposit, client, tx, amount: Some(a) },
            );
            &&& s2.transactions == s.transactions.insert(
                tx,
                StoredModel { client, amount: a, disputed: false, chargebacked: false },
            )
            &&& s2.accounts == s.accounts.insert(
                client,
                AccountModel {
                    available: decimal_sum(account_in(s, client).available, a).unwrap(),
                    held: account_in(s, client).held,
                    locked: false,
                },
            )
            &&& s2.seen == s.seen.insert(tx)
        }),
{
}

/// A dispute is taken up exactly when it names a stored deposit of its own
/// client that is neither under dispute nor charged back, whether or not
/// the account is locked. Then, where `rust_decimal` computes both changes,
/// the deposit is marked disputed and its amount moves from available to
/// held; otherwise nothing changes.
pub proof fn law_dispute_moves_the_deposit_to_held(s: EngineModel, client: u16, tx: u32)
    ensures
        ({
            let s2 = step(
                s,
                RecordModel { tx_type: TransactionType::Dispute, client, tx, amount: None },
            );
            let t = s.transactions[tx];
            let acct = account_in(s, client);
            let ok = s.transactions.contains_key(tx) && t.client == client && !t.disputed
                && !t.chargebacked;
            &&& !ok ==> s2 == s
            &&& ok && decimal_difference(acct.available, t.amount) is Some && decimal_sum(
                acct.held,
                t.amount,
            ) is Some ==> {
                &&& s2.transactions == s.transactions.insert(
                    tx,
                    StoredModel { client, amount: t.amount, disputed: true, chargebacked: false },
                )
                &&& s2.accounts == s.accounts.insert(
                    client,
                    AccountModel {
                        available: decimal_difference(acct.available, t.amount).unwrap(),
                        held: decimal_sum(acct.held, t.amount).unwrap(),
                        locked: acct.locked,
                    },
                )
                &&& s2.seen == s.seen
            }
        }),
{
}

/// A resolve is taken up exactly when it names a stored deposit of its own
/// client under dispute, whether or not the account is locked. Then, where
/// `rust_decimal` computes both changes, the dispute ends and the amount
/// moves from held back to available; otherwise nothing changes.
pub proof fn law_resolve_moves_the_deposit_back(s: EngineModel, client: u16, tx: u32)
    ensures
        ({
            let s2 = step(
                s,
                RecordModel { tx_type: TransactionType::Resolve, client, tx, amount: None },
            );
            let t = s.transactions[tx];
            let acct = account_in(s, client);
            let ok = s.transactions.contains_key(tx) && t.client == client && t.disputed;
            &&& !ok ==> s2 == s
            &&& ok && decimal_sum(acct.available, t.amount) is Some && decimal_difference(
                acct.held,
                t.amount,
            ) is Some ==> {
                &&& s2.transactions == s.transactions.insert(
                    tx,
                    StoredModel {
                        client,
                        amount: t.amount,
                        disputed: false,
                        chargebacked: t.chargebacked,
                    },
                )
                &&& s2.accounts == s.accounts.insert(
                    client,
                    AccountModel {
                        available: decimal_sum(acct.available, t.amount).unwrap(),
                        held: decimal_difference(acct.held, t.amount).unwrap(),
                        locked: acct.locked,
                    },
                )
                &&& s2.seen == s.seen
            }
        }),
{
}

/// A chargeback is taken up exactly when it names a stored deposit of its
/// own client under dispute, whether or not the account is locked. Then,
/// where `rust_decimal` computes the change, the deposit is charged back,
/// its amount leaves held, and the account is locked; otherwise nothing
/// changes.
pub proof fn law_chargeback_removes_the_deposit(s: EngineModel, client: u16, tx: u32)
    ensures
        ({
            let s2 = step(
                s,
                RecordModel { tx_type: TransactionType::Chargeback, client, tx, amount: None },
            );
            let t = s.transactions[tx];
            let acct = account_in(s, client);
            let ok = s.transactions.contains_key(tx) && t.client == client && t.disputed;
            &&& !ok ==> s2 == s
            &&& ok && decimal_difference(acct.held, t.amount) is Some ==> {
                &&& s2.transactions == s.transactions.insert(
                    tx,
                    StoredModel { client, amount: t.amount, disputed: false, chargebacked: true },
                )
                &&& s2.accounts == s.accounts.insert(
                    client,
                    AccountModel {
                        available: acct.available,
                        held: decimal_difference(acct.held, t.amount).unwrap(),
                        locked: true,
                    },
                )
                &&& s2.seen == s.seen
            }
        }),
{
}

/// The output of no accounts is the header line alone.
pub proof fn law_report_of_no_rows()
    ensures
        report_text(Seq::empty()) == header_text() + seq!['\n'],
{
}

/// Adding a row to the output adds exactly its line, whatever the row holds.
pub proof fn law_report_adds_a_line_per_row(rows: Seq<OutputRecord>, r: OutputRecord)
    ensures
        report_text(rows.push(r)) == report_text(rows) + row_text(r) + seq!['\n'],
{
    assert(rows.push(r).drop_last() =~= rows);
}

} // verus!
