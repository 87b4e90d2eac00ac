//! Laws of the ledger: properties that relate several operations, or
//! hold of every reachable state, stated over the model and proved
//! once and for all.

use vstd::prelude::*;
use crate::db::{CodeRedeemalResult, UserID, Timestamp, RedeemableCodeId};
use crate::model::{
    LedgerView, CodeData, RaffleData, UsedRow, wf_view, distinct_used_pairs, find_user,
    find_code_by_id, find_used, find_ongoing, referees_of, used_ids_of, priority_of,
    partecipant_data, snapshot, remove_apply, redeem_outcome, redeem_apply, decrement_code,
    purge_spent, stop_apply, stop_winners, user_redeemed, MAX_TABLE_ROWS, lemma_find_user_props,
    lemma_find_code_by_id_props, lemma_find_ongoing_props, lemma_referees_len,
    lemma_used_ids_len, lemma_remove_user_props, lemma_decrement_props, lemma_purge_spent_props,
    lemma_purge_spent_keeps, lemma_find_code_at, lemma_used_ids_distinct,
};
use crate::rank::{ranked, ranked_leq, is_ranked, lemma_ranked_sorted_permutation};
use vstd::multiset::Multiset;

verus! {

/// In every state, a user's priority is 1 plus the number of their
/// referees plus the number of distinct codes they redeemed; in a
/// well-formed state it fits the machine word that the returned
/// participant carries, and the redeemed codes counted are indeed
/// pairwise distinct and each backed by a redemption row of the user.
/// Since every operation pins its final state, this holds in
/// particular immediately after any register, redeem or remove.
pub proof fn lemma_priority_formula(v: LedgerView, u: UserID)
    ensures
        priority_of(v, u) == 1 + referees_of(v.referrals, u).len() + used_ids_of(v.used, u).len(),
        wf_view(v) ==> partecipant_data(v, u).priority == priority_of(v, u),
        distinct_used_pairs(v.used) ==> (forall|i: int, j: int|
            0 <= i < j < used_ids_of(v.used, u).len() ==> used_ids_of(v.used, u)[i]
                != used_ids_of(v.used, u)[j]),
        forall|k: int|
            #![trigger used_ids_of(v.used, u)[k]]
            0 <= k < used_ids_of(v.used, u).len() ==> user_redeemed(
                v.used,
                u,
                used_ids_of(v.used, u)[k],
            ),
{
    lemma_used_ids_distinct(v.used, u);
    if wf_view(v) {
        lemma_referees_len(v.referrals, u);
        lemma_used_ids_len(v.used, u);
        assert(priority_of(v, u) <= 1 + MAX_TABLE_ROWS + MAX_TABLE_ROWS);
    }
}

/// Redeeming the same pair twice never reports `Redeemed` twice: after
/// a successful redemption, a second attempt reports `AlreadyRedeemed`
/// while the code still exists, and `NonExistingCode` once the code
/// was purged.
pub proof fn lemma_redeem_no_double(v: LedgerView, u: UserID, c: RedeemableCodeId, t: Timestamp)
    requires
        redeem_outcome(v, u, c) == CodeRedeemalResult::Redeemed,
    ensures
        redeem_outcome(redeem_apply(v, u, c, t), u, c) != CodeRedeemalResult::Redeemed,
        redeem_outcome(redeem_apply(v, u, c, t), u, c) == (if find_code_by_id(
            redeem_apply(v, u, c, t).codes,
            c,
        ) is Some {
            CodeRedeemalResult::AlreadyRedeemed
        } else {
            CodeRedeemalResult::NonExistingCode
        }),
{
    let after = redeem_apply(v, u, c, t);
    assert(after.used.last() == UsedRow { user_id: u, code_id: c, used_when: t });
    assert(find_used(after.used, u, c) is Some);
    assert(after.partecipants == v.partecipants);
}

/// One successful redemption takes exactly one use off a counted code:
/// the row keeps its id, string and creation time with one use less
/// while more than one use was left, and disappears exactly when the
/// last use is spent.
pub proof fn lemma_counted_code_step(v: LedgerView, u: UserID, c: RedeemableCodeId, t: Timestamp)
    requires
        wf_view(v),
        redeem_outcome(v, u, c) == CodeRedeemalResult::Redeemed,
        find_code_by_id(v.codes, c) matches Some(d) && d.remaining_uses >= 1,
    ensures
        find_code_by_id(v.codes, c)->0.remaining_uses > 1 ==> find_code_by_id(
            redeem_apply(v, u, c, t).codes,
            c,
        ) == Some(
            CodeData {
                remaining_uses: (find_code_by_id(v.codes, c)->0.remaining_uses - 1) as i32,
                ..find_code_by_id(v.codes, c)->0
            },
        ),
        find_code_by_id(v.codes, c)->0.remaining_uses == 1 ==> find_code_by_id(
            redeem_apply(v, u, c, t).codes,
            c,
        ) is None,
{
    let d = find_code_by_id(v.codes, c)->0;
    let dec = decrement_code(v.codes, c);
    let after = purge_spent(dec);
    lemma_find_code_by_id_props(v.codes, c);
    let k = choose|k: int| 0 <= k < v.codes.len() && v.codes[k] == d;
    lemma_decrement_props(v.codes, c);
    assert(dec[k] == CodeData { remaining_uses: (d.remaining_uses - 1) as i32, ..d });
    lemma_purge_spent_props(dec);
    if d.remaining_uses > 1 {
        lemma_purge_spent_keeps(dec, k);
        let k2 = choose|k2: int| 0 <= k2 < after.len() && after[k2] == dec[k];
        assert(forall|i: int, j: int| 0 <= i < j < dec.len() ==> dec[i].unique_id
            != dec[j].unique_id);
        lemma_find_code_at(after, k2);
    } else {
        assert(dec[k].remaining_uses == 0);
        lemma_find_code_by_id_props(after, c);
        assert forall|m: int| 0 <= m < after.len() implies after[m].unique_id != c by {
            let m2 = choose|m2: int| 0 <= m2 < dec.len() && after[m] == dec[m2];
            if m2 != k {
                assert(v.codes[m2].unique_id != v.codes[k].unique_id);
            }
        }
    }
}

/// An unlimited code is never purged by a redemption, however many
/// redemptions happen: it survives each one unchanged.
pub proof fn lemma_unlimited_never_purged(
    v: LedgerView,
    u: UserID,
    c: RedeemableCodeId,
    t: Timestamp,
)
    requires
        wf_view(v),
        find_code_by_id(v.codes, c) matches Some(d) && d.remaining_uses == -1,
    ensures
        find_code_by_id(redeem_apply(v, u, c, t).codes, c) == find_code_by_id(v.codes, c),
{
    let d = find_code_by_id(v.codes, c)->0;
    let dec = decrement_code(v.codes, c);
    let after = purge_spent(dec);
    lemma_find_code_by_id_props(v.codes, c);
    let k = choose|k: int| 0 <= k < v.codes.len() && v.codes[k] == d;
    lemma_decrement_props(v.codes, c);
    assert(dec[k] == d);
    lemma_purge_spent_props(dec);
    lemma_purge_spent_keeps(dec, k);
    let k2 = choose|k2: int| 0 <= k2 < after.len() && after[k2] == dec[k];
    assert(forall|i: int, j: int| 0 <= i < j < dec.len() ==> dec[i].unique_id != dec[j].unique_id);
    lemma_find_code_at(after, k2);
}

/// In a well-formed state at most one raffle is ongoing, so the
/// ongoing raffle that `get_ongoing_raffle` reports and that
/// `create_raffle` refuses to duplicate is unique.
pub proof fn lemma_single_ongoing(v: LedgerView, i: int, j: int)
    requires
        wf_view(v),
        0 <= i < v.raffles.len(),
        0 <= j < v.raffles.len(),
        v.raffles[i].ended_when is None,
        v.raffles[j].ended_when is None,
    ensures
        i == j,
{
    if i < j {
        assert(!(v.raffles[i].ended_when is None && v.raffles[j].ended_when is None));
    } else if j < i {
        assert(!(v.raffles[j].ended_when is None && v.raffles[i].ended_when is None));
    }
}

/// Stopping the ongoing raffle clears every participant, referral,
/// code and redemption row, marks exactly the ongoing raffle as ended
/// at the stop time, and the winners are exactly the first
/// `num_winners` of the pre-stop snapshot ranked by the total order:
/// a sorted permutation of the snapshot whose prefix is ranked at or
/// before everything after it.
pub proof fn lemma_stop_clears_and_ranks(v: LedgerView, num_winners: int, t: Timestamp)
    requires
        wf_view(v),
        find_ongoing(v.raffles) is Some,
        0 <= num_winners,
    ensures
        stop_apply(v, num_winners, t).partecipants.len() == 0,
        stop_apply(v, num_winners, t).referrals.len() == 0,
        stop_apply(v, num_winners, t).codes.len() == 0,
        stop_apply(v, num_winners, t).used.len() == 0,
        find_ongoing(stop_apply(v, num_winners, t).raffles) is None,
        exists|k: int|
            0 <= k < stop_apply(v, num_winners, t).raffles.len() && stop_apply(
                v,
                num_winners,
                t,
            ).raffles[k] =~= (RaffleData { ended_when: Some(t), ..find_ongoing(v.raffles)->0 }),
        stop_winners(v, num_winners) == ranked(snapshot(v)).take(
            if num_winners <= v.partecipants.len() {
                num_winners
            } else {
                v.partecipants.len() as int
            },
        ),
        ranked(snapshot(v)).to_multiset() == snapshot(v).to_multiset(),
        is_ranked(ranked(snapshot(v))),
        forall|a: int, b: int|
            0 <= a < stop_winners(v, num_winners).len() <= b < ranked(snapshot(v)).len()
                ==> ranked_leq(stop_winners(v, num_winners)[a], ranked(snapshot(v))[b]),
        forall|a: int, b: int|
            0 <= a < stop_winners(v, num_winners).len() <= b < ranked(snapshot(v)).len()
                ==> stop_winners(v, num_winners)[a].priority >= ranked(snapshot(v))[b].priority,
{
    let id = find_ongoing(v.raffles)->0.raffle_id;
    let after = stop_apply(v, num_winners, t);
    lemma_find_ongoing_props(v.raffles);
    let k0 = choose|k0: int| 0 <= k0 < v.raffles.len() && v.raffles[k0] == find_ongoing(
        v.raffles,
    )->0;
    assert(after.raffles[k0] =~= RaffleData { ended_when: Some(t), ..find_ongoing(v.raffles)->0 });
    assert forall|m: int| 0 <= m < after.raffles.len() implies !(after.raffles[m].ended_when
        is None) by {
        if v.raffles[m].raffle_id != id {
            assert(after.raffles[m] == v.raffles[m]);
            if after.raffles[m].ended_when is None {
                if m < k0 {
                    assert(!(v.raffles[m].ended_when is None && v.raffles[k0].ended_when is None));
                } else {
                    assert(!(v.raffles[k0].ended_when is None && v.raffles[m].ended_when is None));
                }
            }
        }
    }
    lemma_find_ongoing_props(after.raffles);
    lemma_ranked_sorted_permutation(snapshot(v));
    let rk = ranked(snapshot(v));
    let w = stop_winners(v, num_winners);
    assert(snapshot(v).len() == v.partecipants.len());
    assert forall|a: int, b: int| 0 <= a < w.len() <= b < rk.len() implies ranked_leq(
        w[a],
        rk[b],
    ) && w[a].priority >= rk[b].priority by {
        assert(w[a] == rk[a]);
        assert(ranked_leq(rk[a], rk[b]));
    }
    assert forall|a: int, b: int|
        0 <= a < stop_winners(v, num_winners).len() <= b < ranked(
            snapshot(v),
        ).len() implies stop_winners(v, num_winners)[a].priority >= ranked(
        snapshot(v),
    )[b].priority by {
        assert(stop_winners(v, num_winners)[a] == rk[a]);
        assert(ranked(snapshot(v))[b] == rk[b]);
        assert(ranked_leq(rk[a], rk[b]));
    }
}

/// Removing a participant leaves no row of that user behind, so a
/// second removal of the same user reports that nothing was removed;
/// removing a user that never registered reports the same.
pub proof fn lemma_remove_twice(v: LedgerView, u: UserID)
    ensures
        find_user(remove_apply(v, u).partecipants, u) is None,
{
    lemma_remove_user_props(v.partecipants, u);
    lemma_find_user_props(remove_apply(v, u).partecipants, u);
}

} // verus!
