//! Mathematical model of the ledger: a view of the five tables as
//! sequences of rows, the well-formedness invariant that every
//! operation preserves, and spec-level descriptions of what each
//! operation returns and how it transforms the view.

use vstd::prelude::*;
use crate::db::{
    Partecipant, Referral, RedeemableCode, Raffle, CodeRedeemalResult, UserID, Timestamp, RaffleID,
    RedeemableCodeId,
};
use crate::rank::ranked;

verus! {

impl View for RedeemableCode {
    type V = CodeData;

    open spec fn view(&self) -> CodeData {
        CodeData {
            code: self.code@,
            unique_id: self.unique_id,
            remaining_uses: self.remaining_uses,
            generated_when: self.generated_when,
        }
    }
}

/// The raffle value handed to callers carries the data of the given
/// stored row (the row's end mark is not part of the returned value).
pub open spec fn matches_raffle(r: Raffle, d: RaffleData) -> bool {
    &&& r.raffle_id == d.raffle_id
    &&& r.raffle_name@ == d.raffle_name
    &&& r.raffle_description@ == d.raffle_description
    &&& r.started_when == d.started_when
}

/// Bound on the number of rows the referral and redemption tables may
/// hold. It exists so that a participant's priority, a sum of row
/// counts, always fits in a machine integer on every platform.
pub const MAX_TABLE_ROWS: usize = 0x4000_0000;

/// Stored participant row. The priority is not a column: it is derived.
#[derive(Debug, Clone, Copy, PartialEq, Eq)]
pub struct PartRow {
    pub user_id: UserID,
    pub joined_when: Timestamp,
}

/// Stored redemption row: one per successful redemption.
#[derive(Debug, Clone, Copy, PartialEq, Eq)]
pub struct UsedRow {
    pub user_id: UserID,
    pub code_id: RedeemableCodeId,
    pub used_when: Timestamp,
}

/// Stored winner row, written once when a raffle is stopped.
#[derive(Debug, Clone, Copy, PartialEq, Eq)]
pub struct WinnerRow {
    pub raffle_id: RaffleID,
    pub winner_id: UserID,
    pub position: u64,
}

/// Model of a stored redeemable code.
#[verifier::ext_equal]
pub struct CodeData {
    pub code: Seq<char>,
    pub unique_id: RedeemableCodeId,
    pub remaining_uses: i32,
    pub generated_when: Timestamp,
}

/// Model of a stored raffle row. A raffle is ongoing while its
/// `ended_when` is still `None`.
#[verifier::ext_equal]
pub struct RaffleData {
    pub raffle_id: RaffleID,
    pub raffle_name: Seq<char>,
    pub raffle_description: Seq<char>,
    pub started_when: Timestamp,
    pub ended_when: Option<Timestamp>,
}

/// The ledger as a mathematical value: the five tables in insertion
/// order, plus the counters that assign fresh ids.
#[verifier::ext_equal]
pub struct LedgerView {
    pub partecipants: Seq<PartRow>,
    pub referrals: Seq<Referral>,
    pub codes: Seq<CodeData>,
    pub used: Seq<UsedRow>,
    pub raffles: Seq<RaffleData>,
    pub winners: Seq<WinnerRow>,
    pub next_code_id: RedeemableCodeId,
    pub next_raffle_id: RaffleID,
}

impl LedgerView {
    /// The view of a freshly created ledger.
    pub open spec fn empty() -> LedgerView {
        LedgerView {
            partecipants: Seq::empty(),
            referrals: Seq::empty(),
            codes: Seq::empty(),
            used: Seq::empty(),
            raffles: Seq::empty(),
            winners: Seq::empty(),
            next_code_id: 1,
            next_raffle_id: 1,
        }
    }
}

// ---------------------------------------------------------------------
// Well-formedness
// ---------------------------------------------------------------------

/// Participant rows are keyed by user id.
pub open spec fn distinct_users(s: Seq<PartRow>) -> bool {
    forall|i: int, j: int| 0 <= i < j < s.len() ==> s[i].user_id != s[j].user_id
}

/// At most one referral row per referee.
pub open spec fn distinct_referees(s: Seq<Referral>) -> bool {
    forall|i: int, j: int| 0 <= i < j < s.len() ==> s[i].referee != s[j].referee
}

/// The pair (user, code) is unique among redemption rows.
pub open spec fn distinct_used_pairs(s: Seq<UsedRow>) -> bool {
    forall|i: int, j: int|
        0 <= i < j < s.len() ==> !(s[i].user_id == s[j].user_id && s[i].code_id == s[j].code_id)
}

/// Code rows have unique ids and unique strings, ids below the next
/// free id, and remaining uses that are either the unlimited sentinel
/// -1 or at least 1 (a code at exactly 0 is purged at once).
pub open spec fn codes_ok(s: Seq<CodeData>, next_id: RedeemableCodeId) -> bool {
    &&& forall|i: int, j: int| 0 <= i < j < s.len() ==> s[i].unique_id != s[j].unique_id
    &&& forall|i: int, j: int| 0 <= i < j < s.len() ==> s[i].code != s[j].code
    &&& forall|i: int|
        0 <= i < s.len() ==> (s[i].remaining_uses == -1 || s[i].remaining_uses >= 1)
    &&& forall|i: int| 0 <= i < s.len() ==> s[i].unique_id < next_id
}

/// Raffle rows have unique ids below the next free id, and at most one
/// of them is still ongoing.
pub open spec fn raffles_ok(s: Seq<RaffleData>, next_id: RaffleID) -> bool {
    &&& forall|i: int, j: int| 0 <= i < j < s.len() ==> s[i].raffle_id != s[j].raffle_id
    &&& forall|i: int| 0 <= i < s.len() ==> s[i].raffle_id < next_id
    &&& forall|i: int, j: int|
        0 <= i < j < s.len() ==> !(s[i].ended_when is None && s[j].ended_when is None)
}

/// The invariant of the ledger. Constructors establish it and every
/// operation preserves it.
pub open spec fn wf_view(v: LedgerView) -> bool {
    &&& distinct_users(v.partecipants)
    &&& distinct_referees(v.referrals)
    &&& distinct_used_pairs(v.used)
    &&& codes_ok(v.codes, v.next_code_id)
    &&& raffles_ok(v.raffles, v.next_raffle_id)
    &&& v.referrals.len() <= MAX_TABLE_ROWS
    &&& v.used.len() <= MAX_TABLE_ROWS
}

// ---------------------------------------------------------------------
// Lookups
// ---------------------------------------------------------------------

/// The participant row of `u`, if registered. Under `distinct_users`
/// at most one row can match.
pub open spec fn find_user(s: Seq<PartRow>, u: UserID) -> Option<PartRow>
    decreases s.len(),
{
    if s.len() == 0 {
        None
    } else if s.last().user_id == u {
        Some(s.last())
    } else {
        find_user(s.drop_last(), u)
    }
}

/// The referral row whose referee is `u`, if any.
pub open spec fn find_referral(s: Seq<Referral>, u: UserID) -> Option<Referral>
    decreases s.len(),
{
    if s.len() == 0 {
        None
    } else if s.last().referee == u {
        Some(s.last())
    } else {
        find_referral(s.drop_last(), u)
    }
}

/// The code row with the given id, if any.
pub open spec fn find_code_by_id(s: Seq<CodeData>, id: RedeemableCodeId) -> Option<CodeData>
    decreases s.len(),
{
    if s.len() == 0 {
        None
    } else if s.last().unique_id == id {
        Some(s.last())
    } else {
        find_code_by_id(s.drop_last(), id)
    }
}

/// The code row with the given human-typed string, if any.
pub open spec fn find_code_by_name(s: Seq<CodeData>, name: Seq<char>) -> Option<CodeData>
    decreases s.len(),
{
    if s.len() == 0 {
        None
    } else if s.last().code == name {
        Some(s.last())
    } else {
        find_code_by_name(s.drop_last(), name)
    }
}

/// The redemption row for the pair (user, code), if any.
pub open spec fn find_used(s: Seq<UsedRow>, u: UserID, c: RedeemableCodeId) -> Option<UsedRow>
    decreases s.len(),
{
    if s.len() == 0 {
        None
    } else if s.last().user_id == u && s.last().code_id == c {
        Some(s.last())
    } else {
        find_used(s.drop_last(), u, c)
    }
}

/// The raffle row that is still ongoing, if any. Under `raffles_ok`
/// at most one row can match.
pub open spec fn find_ongoing(s: Seq<RaffleData>) -> Option<RaffleData>
    decreases s.len(),
{
    if s.len() == 0 {
        None
    } else if s.last().ended_when is None {
        Some(s.last())
    } else {
        find_ongoing(s.drop_last())
    }
}

// ---------------------------------------------------------------------
// Projections
// ---------------------------------------------------------------------

/// The referees of `u`: the referee of every referral row whose
/// referrer is `u`, in insertion order.
pub open spec fn referees_of(s: Seq<Referral>, u: UserID) -> Seq<UserID>
    decreases s.len(),
{
    if s.len() == 0 {
        Seq::empty()
    } else if s.last().referrer == u {
        referees_of(s.drop_last(), u).push(s.last().referee)
    } else {
        referees_of(s.drop_last(), u)
    }
}

/// The ids of the codes `u` redeemed, in insertion order. Under
/// `distinct_used_pairs` these ids are distinct.
pub open spec fn used_ids_of(s: Seq<UsedRow>, u: UserID) -> Seq<RedeemableCodeId>
    decreases s.len(),
{
    if s.len() == 0 {
        Seq::empty()
    } else if s.last().user_id == u {
        used_ids_of(s.drop_last(), u).push(s.last().code_id)
    } else {
        used_ids_of(s.drop_last(), u)
    }
}

/// The priority of `u`: 1, plus one for each referee of `u`, plus one
/// for each distinct code `u` redeemed. Recomputed on every read,
/// never stored.
pub open spec fn priority_of(v: LedgerView, u: UserID) -> int {
    1 + referees_of(v.referrals, u).len() as int + used_ids_of(v.used, u).len() as int
}

/// The participant `u` as returned to callers, with its live priority.
/// Meaningful only when `u` is registered.
pub open spec fn partecipant_data(v: LedgerView, u: UserID) -> Partecipant {
    Partecipant {
        user_id: u,
        joined_when: find_user(v.partecipants, u)->0.joined_when,
        priority: priority_of(v, u) as usize,
    }
}

/// The full participant set with live priorities, in insertion order.
pub open spec fn snapshot(v: LedgerView) -> Seq<Partecipant> {
    v.partecipants.map(
        |i: int, row: PartRow|
            Partecipant {
                user_id: row.user_id,
                joined_when: row.joined_when,
                priority: priority_of(v, row.user_id) as usize,
            },
    )
}

// ---------------------------------------------------------------------
// Table transforms
// ---------------------------------------------------------------------

/// The participant table with every row of `u` removed.
pub open spec fn remove_user(s: Seq<PartRow>, u: UserID) -> Seq<PartRow>
    decreases s.len(),
{
    if s.len() == 0 {
        Seq::empty()
    } else if s.last().user_id == u {
        remove_user(s.drop_last(), u)
    } else {
        remove_user(s.drop_last(), u).push(s.last())
    }
}

/// The code table with every row of the given id removed.
pub open spec fn remove_code(s: Seq<CodeData>, id: RedeemableCodeId) -> Seq<CodeData>
    decreases s.len(),
{
    if s.len() == 0 {
        Seq::empty()
    } else if s.last().unique_id == id {
        remove_code(s.drop_last(), id)
    } else {
        remove_code(s.drop_last(), id).push(s.last())
    }
}

/// One use taken off the code with the given id, but only while its
/// remaining uses are positive, so the unlimited sentinel -1 is never
/// touched.
pub open spec fn decrement_code(s: Seq<CodeData>, id: RedeemableCodeId) -> Seq<CodeData>
    decreases s.len(),
{
    if s.len() == 0 {
        Seq::empty()
    } else {
        let c = s.last();
        let rest = decrement_code(s.drop_last(), id);
        if c.unique_id == id && c.remaining_uses > 0 {
            rest.push(CodeData { remaining_uses: (c.remaining_uses - 1) as i32, ..c })
        } else {
            rest.push(c)
        }
    }
}

/// The cleanup sweep after a redemption: every code row whose
/// remaining uses reached exactly 0 is purged.
pub open spec fn purge_spent(s: Seq<CodeData>) -> Seq<CodeData>
    decreases s.len(),
{
    if s.len() == 0 {
        Seq::empty()
    } else if s.last().remaining_uses == 0 {
        purge_spent(s.drop_last())
    } else {
        purge_spent(s.drop_last()).push(s.last())
    }
}

/// The raffle table with the row of the given id marked as ended at
/// time `t`.
pub open spec fn close_raffle(s: Seq<RaffleData>, id: RaffleID, t: Timestamp) -> Seq<RaffleData> {
    s.map(
        |i: int, r: RaffleData|
            if r.raffle_id == id {
                RaffleData { ended_when: Some(t), ..r }
            } else {
                r
            },
    )
}

/// The winner rows written for the ranked winners of a raffle:
/// positions are 0-based in ranked order.
pub open spec fn winner_rows(ws: Seq<Partecipant>, id: RaffleID) -> Seq<WinnerRow> {
    Seq::new(
        ws.len(),
        |i: int| WinnerRow { raffle_id: id, winner_id: ws[i].user_id, position: i as u64 },
    )
}

// ---------------------------------------------------------------------
// Operations, as functions of the view
// ---------------------------------------------------------------------

/// Whether registering `user_id` with the given referrer records a
/// referral row: the referrer must be named, must be a participant at
/// the moment the registration commits (naming yourself therefore
/// counts), and the referee must not carry a referral row already
/// (one kept from an earlier registration is retained, not replaced).
pub open spec fn records_referral(v: LedgerView, user_id: UserID, referrer: Option<UserID>) -> bool {
    match referrer {
        Some(r) => (r == user_id || find_user(v.partecipants, r) is Some)
            && find_referral(v.referrals, user_id) is None,
        None => false,
    }
}

/// The view after a successful registration at time `t`.
pub open spec fn register_apply(
    v: LedgerView,
    user_id: UserID,
    referrer: Option<UserID>,
    t: Timestamp,
) -> LedgerView {
    LedgerView {
        partecipants: v.partecipants.push(PartRow { user_id, joined_when: t }),
        referrals: if records_referral(v, user_id, referrer) {
            v.referrals.push(Referral { referrer: referrer->0, referee: user_id })
        } else {
            v.referrals
        },
        ..v
    }
}

/// The view after removing participant `u`. Referral and redemption
/// history is retained on purpose.
pub open spec fn remove_apply(v: LedgerView, u: UserID) -> LedgerView {
    LedgerView { partecipants: remove_user(v.partecipants, u), ..v }
}

/// What a redemption attempt reports, decided by the current view.
pub open spec fn redeem_outcome(v: LedgerView, u: UserID, c: RedeemableCodeId) -> CodeRedeemalResult {
    if find_user(v.partecipants, u) is None {
        CodeRedeemalResult::NonExistingUser
    } else if find_code_by_id(v.codes, c) is None {
        CodeRedeemalResult::NonExistingCode
    } else if find_used(v.used, u, c) is Some {
        CodeRedeemalResult::AlreadyRedeemed
    } else {
        CodeRedeemalResult::Redeemed
    }
}

/// The view after a redemption that reported `Redeemed`, at time `t`:
/// the redemption row is recorded, the code loses one use unless it is
/// unlimited, and codes at exactly 0 remaining uses are purged.
pub open spec fn redeem_apply(v: LedgerView, u: UserID, c: RedeemableCodeId, t: Timestamp) -> LedgerView {
    LedgerView {
        used: v.used.push(UsedRow { user_id: u, code_id: c, used_when: t }),
        codes: purge_spent(decrement_code(v.codes, c)),
        ..v
    }
}

/// The view after storing a freshly generated code at time `t`.
pub open spec fn code_apply(v: LedgerView, code: Seq<char>, uses: i32, t: Timestamp) -> LedgerView {
    LedgerView {
        codes: v.codes.push(
            CodeData { code, unique_id: v.next_code_id, remaining_uses: uses, generated_when: t },
        ),
        next_code_id: (v.next_code_id + 1) as RedeemableCodeId,
        ..v
    }
}

/// The view after deleting the code with the given id.
pub open spec fn delete_code_apply(v: LedgerView, id: RedeemableCodeId) -> LedgerView {
    LedgerView { codes: remove_code(v.codes, id), ..v }
}

/// The view after creating a raffle at time `t`.
pub open spec fn create_raffle_apply(
    v: LedgerView,
    name: Seq<char>,
    description: Seq<char>,
    t: Timestamp,
) -> LedgerView {
    LedgerView {
        raffles: v.raffles.push(
            RaffleData {
                raffle_id: v.next_raffle_id,
                raffle_name: name,
                raffle_description: description,
                started_when: t,
                ended_when: None,
            },
        ),
        next_raffle_id: (v.next_raffle_id + 1) as RaffleID,
        ..v
    }
}

/// The winners a stop with `num_winners` returns: the pre-stop
/// snapshot ranked by priority (ties broken by earliest joining time,
/// then by smallest user id), cut to the first `num_winners`.
pub open spec fn stop_winners(v: LedgerView, num_winners: int) -> Seq<Partecipant> {
    let r = ranked(snapshot(v));
    if num_winners <= r.len() {
        r.take(num_winners)
    } else {
        r
    }
}

/// The view after stopping the ongoing raffle at time `t`: all
/// per-cycle state is cleared, the raffle is marked ended, and one
/// winner row is written per returned winner.
pub open spec fn stop_apply(v: LedgerView, num_winners: int, t: Timestamp) -> LedgerView {
    let id = find_ongoing(v.raffles)->0.raffle_id;
    LedgerView {
        partecipants: Seq::empty(),
        referrals: Seq::empty(),
        codes: Seq::empty(),
        used: Seq::empty(),
        raffles: close_raffle(v.raffles, id, t),
        winners: v.winners + winner_rows(stop_winners(v, num_winners), id),
        ..v
    }
}

// ---------------------------------------------------------------------
// Facts about the lookups and transforms
// ---------------------------------------------------------------------

/// A user is found exactly when some row carries their id, and the row
/// found is a stored row of that user.
pub proof fn lemma_find_user_props(s: Seq<PartRow>, u: UserID)
    ensures
        (find_user(s, u) is None) <==> (forall|k: int| 0 <= k < s.len() ==> s[k].user_id != u),
        find_user(s, u) matches Some(row) ==> row.user_id == u && exists|k: int|
            0 <= k < s.len() && s[k] == row,
    decreases s.len(),
{
    if s.len() > 0 {
        lemma_find_user_props(s.drop_last(), u);
        assert(forall|k: int| 0 <= k < s.len() - 1 ==> s.drop_last()[k] == s[k]);
        assert(s.last() == s[s.len() - 1]);
    }
}

/// A referral is found exactly when some row carries the referee, and
/// the row found is a stored row of that referee.
pub proof fn lemma_find_referral_props(s: Seq<Referral>, u: UserID)
    ensures
        (find_referral(s, u) is None) <==> (forall|k: int| 0 <= k < s.len() ==> s[k].referee != u),
        find_referral(s, u) matches Some(row) ==> row.referee == u && exists|k: int|
            0 <= k < s.len() && s[k] == row,
    decreases s.len(),
{
    if s.len() > 0 {
        lemma_find_referral_props(s.drop_last(), u);
        assert(forall|k: int| 0 <= k < s.len() - 1 ==> s.drop_last()[k] == s[k]);
        assert(s.last() == s[s.len() - 1]);
    }
}

/// A redemption row is found exactly when the pair occurs.
pub proof fn lemma_find_used_props(s: Seq<UsedRow>, u: UserID, c: RedeemableCodeId)
    ensures
        (find_used(s, u, c) is None) <==> (forall|k: int|
            0 <= k < s.len() ==> !(s[k].user_id == u && s[k].code_id == c)),
        find_used(s, u, c) matches Some(row) ==> row.user_id == u && row.code_id == c
            && exists|k: int| 0 <= k < s.len() && s[k] == row,
    decreases s.len(),
{
    if s.len() > 0 {
        lemma_find_used_props(s.drop_last(), u, c);
        assert(forall|k: int| 0 <= k < s.len() - 1 ==> s.drop_last()[k] == s[k]);
        assert(s.last() == s[s.len() - 1]);
    }
}

/// A code is found by id exactly when some row carries the id.
pub proof fn lemma_find_code_by_id_props(s: Seq<CodeData>, id: RedeemableCodeId)
    ensures
        (find_code_by_id(s, id) is None) <==> (forall|k: int|
            0 <= k < s.len() ==> s[k].unique_id != id),
        find_code_by_id(s, id) matches Some(row) ==> row.unique_id == id && exists|k: int|
            0 <= k < s.len() && s[k] == row,
    decreases s.len(),
{
    if s.len() > 0 {
        lemma_find_code_by_id_props(s.drop_last(), id);
        assert(forall|k: int| 0 <= k < s.len() - 1 ==> s.drop_last()[k] == s[k]);
        assert(s.last() == s[s.len() - 1]);
    }
}

/// A code is found by string exactly when some row carries the string.
pub proof fn lemma_find_code_by_name_props(s: Seq<CodeData>, name: Seq<char>)
    ensures
        (find_code_by_name(s, name) is None) <==> (forall|k: int|
            0 <= k < s.len() ==> s[k].code != name),
        find_code_by_name(s, name) matches Some(row) ==> row.code == name && exists|k: int|
            0 <= k < s.len() && s[k] == row,
    decreases s.len(),
{
    if s.len() > 0 {
        lemma_find_code_by_name_props(s.drop_last(), name);
        assert(forall|k: int| 0 <= k < s.len() - 1 ==> s.drop_last()[k] == s[k]);
        assert(s.last() == s[s.len() - 1]);
    }
}

/// An ongoing raffle is found exactly when some row is not yet ended,
/// and the row found is a stored, still ongoing row.
pub proof fn lemma_find_ongoing_props(s: Seq<RaffleData>)
    ensures
        (find_ongoing(s) is None) <==> (forall|k: int|
            0 <= k < s.len() ==> !(s[k].ended_when is None)),
        find_ongoing(s) matches Some(row) ==> row.ended_when is None && exists|k: int|
            0 <= k < s.len() && s[k] == row,
    decreases s.len(),
{
    if s.len() > 0 {
        lemma_find_ongoing_props(s.drop_last());
        assert(forall|k: int| 0 <= k < s.len() - 1 ==> s.drop_last()[k] == s[k]);
        assert(s.last() == s[s.len() - 1]);
    }
}

/// A user has no more referees than there are referral rows.
pub proof fn lemma_referees_len(s: Seq<Referral>, u: UserID)
    ensures
        referees_of(s, u).len() <= s.len(),
    decreases s.len(),
{
    if s.len() > 0 {
        lemma_referees_len(s.drop_last(), u);
    }
}

/// A user has no more redeemed codes than there are redemption rows.
pub proof fn lemma_used_ids_len(s: Seq<UsedRow>, u: UserID)
    ensures
        used_ids_of(s, u).len() <= s.len(),
    decreases s.len(),
{
    if s.len() > 0 {
        lemma_used_ids_len(s.drop_last(), u);
    }
}

/// Removing a user removes every row of that user, keeps only stored
/// rows, and preserves key uniqueness.
pub proof fn lemma_remove_user_props(s: Seq<PartRow>, u: UserID)
    ensures
        remove_user(s, u).len() <= s.len(),
        forall|k: int|
            #![trigger remove_user(s, u)[k]]
            0 <= k < remove_user(s, u).len() ==> remove_user(s, u)[k].user_id != u && exists|m: int|
                0 <= m < s.len() && remove_user(s, u)[k] == s[m],
        distinct_users(s) ==> distinct_users(remove_user(s, u)),
    decreases s.len(),
{
    if s.len() > 0 {
        let d = s.drop_last();
        lemma_remove_user_props(d, u);
        assert(forall|k: int| 0 <= k < d.len() ==> d[k] == s[k]);
        let rem = remove_user(d, u);
        if distinct_users(s) {
            assert(distinct_users(d));
        }
        if s.last().user_id != u {
            let res = rem.push(s.last());
            assert(res[res.len() - 1] == s[s.len() - 1]);
            assert(forall|k: int| 0 <= k < rem.len() ==> res[k] == rem[k]);
            if distinct_users(s) {
                assert forall|i: int, j: int| 0 <= i < j < res.len() implies res[i].user_id
                    != res[j].user_id by {
                    if j == res.len() - 1 {
                        let m = choose|m: int| 0 <= m < d.len() && rem[i] == d[m];
                        assert(s[m].user_id != s[s.len() - 1].user_id);
                    }
                }
            }
        }
    }
}

/// Deleting a code removes every row of that id, keeps only stored
/// rows, and preserves the uniqueness of ids and strings.
pub proof fn lemma_remove_code_props(s: Seq<CodeData>, id: RedeemableCodeId)
    ensures
        remove_code(s, id).len() <= s.len(),
        forall|k: int|
            #![trigger remove_code(s, id)[k]]
            0 <= k < remove_code(s, id).len() ==> remove_code(s, id)[k].unique_id != id
                && exists|m: int| 0 <= m < s.len() && remove_code(s, id)[k] == s[m],
        (forall|i: int, j: int| 0 <= i < j < s.len() ==> s[i].unique_id != s[j].unique_id)
            ==> (forall|i: int, j: int|
            0 <= i < j < remove_code(s, id).len() ==> remove_code(s, id)[i].unique_id
                != remove_code(s, id)[j].unique_id),
        (forall|i: int, j: int| 0 <= i < j < s.len() ==> s[i].code != s[j].code) ==> (forall|
            i: int,
            j: int,
        |
            0 <= i < j < remove_code(s, id).len() ==> remove_code(s, id)[i].code != remove_code(
                s,
                id,
            )[j].code),
    decreases s.len(),
{
    if s.len() > 0 {
        let d = s.drop_last();
        lemma_remove_code_props(d, id);
        assert(forall|k: int| 0 <= k < d.len() ==> d[k] == s[k]);
        let rem = remove_code(d, id);
        if s.last().unique_id != id {
            let res = rem.push(s.last());
            assert(res[res.len() - 1] == s[s.len() - 1]);
            assert(forall|k: int| 0 <= k < rem.len() ==> res[k] == rem[k]);
            if forall|i: int, j: int| 0 <= i < j < s.len() ==> s[i].unique_id != s[j].unique_id {
                assert forall|i: int, j: int| 0 <= i < j < res.len() implies res[i].unique_id
                    != res[j].unique_id by {
                    if j == res.len() - 1 {
                        let m = choose|m: int| 0 <= m < d.len() && rem[i] == d[m];
                        assert(s[m].unique_id != s[s.len() - 1].unique_id);
                    }
                }
            }
            if forall|i: int, j: int| 0 <= i < j < s.len() ==> s[i].code != s[j].code {
                assert forall|i: int, j: int| 0 <= i < j < res.len() implies res[i].code
                    != res[j].code by {
                    if j == res.len() - 1 {
                        let m = choose|m: int| 0 <= m < d.len() && rem[i] == d[m];
                        assert(s[m].code != s[s.len() - 1].code);
                    }
                }
            }
        }
    }
}

/// The cleanup sweep keeps exactly the stored rows whose remaining
/// uses are not 0, in order, and preserves the uniqueness of ids and
/// strings.
pub proof fn lemma_purge_spent_props(s: Seq<CodeData>)
    ensures
        purge_spent(s).len() <= s.len(),
        forall|k: int|
            #![trigger purge_spent(s)[k]]
            0 <= k < purge_spent(s).len() ==> purge_spent(s)[k].remaining_uses != 0 && exists|
                m: int,
            | 0 <= m < s.len() && purge_spent(s)[k] == s[m],
        (forall|i: int, j: int| 0 <= i < j < s.len() ==> s[i].unique_id != s[j].unique_id)
            ==> (forall|i: int, j: int|
            0 <= i < j < purge_spent(s).len() ==> purge_spent(s)[i].unique_id != purge_spent(
                s,
            )[j].unique_id),
        (forall|i: int, j: int| 0 <= i < j < s.len() ==> s[i].code != s[j].code) ==> (forall|
            i: int,
            j: int,
        | 0 <= i < j < purge_spent(s).len() ==> purge_spent(s)[i].code != purge_spent(s)[j].code),
    decreases s.len(),
{
    if s.len() > 0 {
        let d = s.drop_last();
        lemma_purge_spent_props(d);
        assert(forall|k: int| 0 <= k < d.len() ==> d[k] == s[k]);
        let rem = purge_spent(d);
        if s.last().remaining_uses != 0 {
            let res = rem.push(s.last());
            assert(res[res.len() - 1] == s[s.len() - 1]);
            assert(forall|k: int| 0 <= k < rem.len() ==> res[k] == rem[k]);
            if forall|i: int, j: int| 0 <= i < j < s.len() ==> s[i].unique_id != s[j].unique_id {
                assert forall|i: int, j: int| 0 <= i < j < res.len() implies res[i].unique_id
                    != res[j].unique_id by {
                    if j == res.len() - 1 {
                        let m = choose|m: int| 0 <= m < d.len() && rem[i] == d[m];
                        assert(s[m].unique_id != s[s.len() - 1].unique_id);
                    }
                }
            }
            if forall|i: int, j: int| 0 <= i < j < s.len() ==> s[i].code != s[j].code {
                assert forall|i: int, j: int| 0 <= i < j < res.len() implies res[i].code
                    != res[j].code by {
                    if j == res.len() - 1 {
                        let m = choose|m: int| 0 <= m < d.len() && rem[i] == d[m];
                        assert(s[m].code != s[s.len() - 1].code);
                    }
                }
            }
        }
    }
}

/// Taking one use off a code changes nothing but the remaining uses of
/// the rows of that id, and only while they are positive.
pub proof fn lemma_decrement_props(s: Seq<CodeData>, id: RedeemableCodeId)
    ensures
        decrement_code(s, id).len() == s.len(),
        forall|k: int|
            #![trigger decrement_code(s, id)[k]]
            0 <= k < s.len() ==> decrement_code(s, id)[k].unique_id == s[k].unique_id
                && decrement_code(s, id)[k].code == s[k].code && decrement_code(s, id)[k].generated_when
                == s[k].generated_when && decrement_code(s, id)[k].remaining_uses as int == (
            if s[k].unique_id == id && s[k].remaining_uses > 0 {
                s[k].remaining_uses - 1
            } else {
                s[k].remaining_uses as int
            }),
    decreases s.len(),
{
    if s.len() > 0 {
        let d = s.drop_last();
        lemma_decrement_props(d, id);
        assert(forall|k: int| 0 <= k < d.len() ==> d[k] == s[k]);
        assert(s.last() == s[s.len() - 1]);
        let rem = decrement_code(d, id);
        assert(forall|k: int| 0 <= k < rem.len() ==> decrement_code(s, id)[k] == rem[k]);
    }
}

/// Under unique ids, the code found by id is the row that carries it.
pub proof fn lemma_find_code_at(s: Seq<CodeData>, m: int)
    requires
        0 <= m < s.len(),
        forall|i: int, j: int| 0 <= i < j < s.len() ==> s[i].unique_id != s[j].unique_id,
    ensures
        find_code_by_id(s, s[m].unique_id) == Some(s[m]),
    decreases s.len(),
{
    if m == s.len() - 1 {
        assert(s.last() == s[m]);
    } else {
        assert(s[m].unique_id != s[s.len() - 1].unique_id);
        assert(forall|k: int| 0 <= k < s.len() - 1 ==> s.drop_last()[k] == s[k]);
        lemma_find_code_at(s.drop_last(), m);
    }
}

/// The cleanup sweep keeps every row whose remaining uses are not 0.
pub proof fn lemma_purge_spent_keeps(s: Seq<CodeData>, m: int)
    requires
        0 <= m < s.len(),
        s[m].remaining_uses != 0,
    ensures
        exists|k: int| 0 <= k < purge_spent(s).len() && purge_spent(s)[k] == s[m],
    decreases s.len(),
{
    let p = purge_spent(s);
    if m == s.len() - 1 {
        assert(p[p.len() - 1] == s[m]);
    } else {
        let d = s.drop_last();
        assert(forall|k: int| 0 <= k < d.len() ==> d[k] == s[k]);
        lemma_purge_spent_keeps(d, m);
        let k0 = choose|k: int| 0 <= k < purge_spent(d).len() && purge_spent(d)[k] == d[m];
        if s.last().remaining_uses == 0 {
            assert(p[k0] == s[m]);
        } else {
            assert(p[k0] == purge_spent(d)[k0]);
        }
    }
}

/// Some stored row of user `u` carries the code id.
pub open spec fn user_redeemed(s: Seq<UsedRow>, u: UserID, id: RedeemableCodeId) -> bool {
    exists|m: int| 0 <= m < s.len() && s[m].user_id == u && #[trigger] s[m].code_id == id
}

/// Under unique redemption pairs, the codes one user redeemed are
/// pairwise distinct, and each is carried by a stored row of that user.
pub proof fn lemma_used_ids_distinct(s: Seq<UsedRow>, u: UserID)
    ensures
        forall|k: int|
            #![trigger used_ids_of(s, u)[k]]
            0 <= k < used_ids_of(s, u).len() ==> user_redeemed(s, u, used_ids_of(s, u)[k]),
        distinct_used_pairs(s) ==> (forall|i: int, j: int|
            0 <= i < j < used_ids_of(s, u).len() ==> used_ids_of(s, u)[i] != used_ids_of(
                s,
                u,
            )[j]),
    decreases s.len(),
{
    if s.len() > 0 {
        let d = s.drop_last();
        lemma_used_ids_distinct(d, u);
        assert(forall|k: int| 0 <= k < d.len() ==> d[k] == s[k]);
        if distinct_used_pairs(s) {
            assert(distinct_used_pairs(d));
        }
        let ids = used_ids_of(s, u);
        assert forall|k: int| #![trigger ids[k]] 0 <= k < ids.len() implies user_redeemed(
            s,
            u,
            ids[k],
        ) by {
            if s.last().user_id == u && k == ids.len() - 1 {
                assert(s[s.len() - 1].user_id == u && s[s.len() - 1].code_id == ids[k]);
            } else {
                assert(used_ids_of(d, u)[k] == ids[k]);
                assert(user_redeemed(d, u, ids[k]));
                let m = choose|m: int|
                    0 <= m < d.len() && d[m].user_id == u && #[trigger] d[m].code_id == ids[k];
                assert(s[m].user_id == u && s[m].code_id == ids[k]);
            }
        }
        if distinct_used_pairs(s) && s.last().user_id == u {
            let rem = used_ids_of(d, u);
            assert forall|i: int, j: int| 0 <= i < j < ids.len() implies ids[i] != ids[j] by {
                if j == ids.len() - 1 {
                    assert(user_redeemed(d, u, rem[i]));
                    let m = choose|m: int|
                        0 <= m < d.len() && d[m].user_id == u && #[trigger] d[m].code_id == rem[i];
                    assert(!(s[m].user_id == s[s.len() - 1].user_id && s[m].code_id
                        == s[s.len() - 1].code_id));
                }
            }
        }
    }
}

} // verus!
