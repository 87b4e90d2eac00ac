//! The ledger core: an in-memory instance of the five tables with
//! every business operation verified against the model of `model`.

use vstd::prelude::*;
use crate::db::{
    Partecipant, Referral, RedeemableCode, Raffle, RegistrationStatus, CodeUseCount,
    CodeValidation, CodeRedeemalResult, RaffleCreationResult, LedgerError, RaffleResult, RaffleDB,
    UserID, Timestamp, RaffleID, RedeemableCodeId,
};
use crate::model::{
    PartRow, UsedRow, WinnerRow, CodeData, RaffleData, LedgerView, MAX_TABLE_ROWS, wf_view,
    distinct_users, distinct_referees, distinct_used_pairs, codes_ok, raffles_ok, find_user,
    find_referral, find_code_by_id, find_code_by_name, find_used, find_ongoing, referees_of,
    used_ids_of, partecipant_data, snapshot, remove_user, remove_code,
    decrement_code, purge_spent, close_raffle, winner_rows, records_referral, register_apply,
    remove_apply, redeem_apply, code_apply, delete_code_apply,
    create_raffle_apply, stop_winners, stop_apply, lemma_find_user_props,
    lemma_find_referral_props, lemma_find_used_props, lemma_find_code_by_name_props,
    lemma_find_ongoing_props, lemma_referees_len, lemma_used_ids_len, lemma_remove_user_props,
    lemma_remove_code_props, lemma_purge_spent_props, lemma_decrement_props,
};
use crate::platform::{timestamp_now, random_code_char, push_char, str_eq};
use crate::rank::rank_partecipants;

verus! {

/// Length of a generated code string.
pub const CODE_LENGTH: usize = 8;

/// Stored raffle row. `ended_when` is `None` while the raffle is
/// ongoing.
#[derive(Debug, Clone, PartialEq, Eq)]
pub struct RaffleRow {
    pub raffle_id: RaffleID,
    pub raffle_name: String,
    pub raffle_description: String,
    pub started_when: Timestamp,
    pub ended_when: Option<Timestamp>,
}

impl View for RaffleRow {
    type V = RaffleData;

    open spec fn view(&self) -> RaffleData {
        RaffleData {
            raffle_id: self.raffle_id,
            raffle_name: self.raffle_name@,
            raffle_description: self.raffle_description@,
            started_when: self.started_when,
            ended_when: self.ended_when,
        }
    }
}

/// The mathematical contents of a stored code table.
pub open spec fn codes_view(s: Seq<RedeemableCode>) -> Seq<CodeData> {
    s.map_values(|c: RedeemableCode| c@)
}

/// The mathematical contents of a stored raffle table.
pub open spec fn raffles_view(s: Seq<RaffleRow>) -> Seq<RaffleData> {
    s.map_values(|r: RaffleRow| r@)
}

/// The raffle ledger: participants, referrals, redeemable codes,
/// redemption records and raffles, owned exclusively by this value.
/// Every multi-step operation takes the ledger by exclusive borrow, so
/// concurrent callers serialize on ownership and can never observe a
/// partially applied state.
#[derive(Debug)]
pub struct Ledger {
    partecipants: Vec<PartRow>,
    referrals: Vec<Referral>,
    codes: Vec<RedeemableCode>,
    used: Vec<UsedRow>,
    raffles: Vec<RaffleRow>,
    winners: Vec<WinnerRow>,
    next_code_id: RedeemableCodeId,
    next_raffle_id: RaffleID,
}

impl View for Ledger {
    type V = LedgerView;

    closed spec fn view(&self) -> LedgerView {
        LedgerView {
            partecipants: self.partecipants@,
            referrals: self.referrals@,
            codes: codes_view(self.codes@),
            used: self.used@,
            raffles: raffles_view(self.raffles@),
            winners: self.winners@,
            next_code_id: self.next_code_id,
            next_raffle_id: self.next_raffle_id,
        }
    }
}

// ---------------------------------------------------------------------
// Table scans
// ---------------------------------------------------------------------

/// Index of the row of user `u`, scanning from the end.
fn lookup_user(s: &Vec<PartRow>, u: UserID) -> (r: Option<usize>)
    ensures
        match r {
            Some(i) => i < s@.len() && s@[i as int].user_id == u && find_user(s@, u) == Some(
                s@[i as int],
            ),
            None => find_user(s@, u) is None,
        },
{
    let mut i: usize = s.len();
    proof {
        assert(s@.take(i as int) =~= s@);
    }
    while i > 0
        invariant
            i <= s@.len(),
            find_user(s@, u) == find_user(s@.take(i as int), u),
        decreases i,
    {
        proof {
            assert(s@.take(i as int).last() == s@[i as int - 1]);
            assert(s@.take(i as int).drop_last() =~= s@.take(i as int - 1));
        }
        if s[i - 1].user_id == u {
            return Some(i - 1);
        }
        i = i - 1;
    }
    proof {
        assert(s@.take(0) =~= Seq::<PartRow>::empty());
    }
    None
}

/// Index of the referral row whose referee is `u`, scanning from the
/// end.
fn lookup_referral(s: &Vec<Referral>, u: UserID) -> (r: Option<usize>)
    ensures
        match r {
            Some(i) => i < s@.len() && s@[i as int].referee == u && find_referral(s@, u) == Some(
                s@[i as int],
            ),
            None => find_referral(s@, u) is None,
        },
{
    let mut i: usize = s.len();
    proof {
        assert(s@.take(i as int) =~= s@);
    }
    while i > 0
        invariant
            i <= s@.len(),
            find_referral(s@, u) == find_referral(s@.take(i as int), u),
        decreases i,
    {
        proof {
            assert(s@.take(i as int).last() == s@[i as int - 1]);
            assert(s@.take(i as int).drop_last() =~= s@.take(i as int - 1));
        }
        if s[i - 1].referee == u {
            return Some(i - 1);
        }
        i = i - 1;
    }
    proof {
        assert(s@.take(0) =~= Seq::<Referral>::empty());
    }
    None
}

/// Whether the pair (user, code) already has a redemption row.
fn lookup_used(s: &Vec<UsedRow>, u: UserID, c: RedeemableCodeId) -> (r: bool)
    ensures
        r == (find_used(s@, u, c) is Some),
{
    let mut i: usize = s.len();
    proof {
        assert(s@.take(i as int) =~= s@);
    }
    while i > 0
        invariant
            i <= s@.len(),
            find_used(s@, u, c) == find_used(s@.take(i as int), u, c),
        decreases i,
    {
        proof {
            assert(s@.take(i as int).last() == s@[i as int - 1]);
            assert(s@.take(i as int).drop_last() =~= s@.take(i as int - 1));
        }
        if s[i - 1].user_id == u && s[i - 1].code_id == c {
            return true;
        }
        i = i - 1;
    }
    proof {
        assert(s@.take(0) =~= Seq::<UsedRow>::empty());
    }
    false
}

/// Index of the code row with the given id, scanning from the end.
fn lookup_code_by_id(s: &Vec<RedeemableCode>, id: RedeemableCodeId) -> (r: Option<usize>)
    ensures
        match r {
            Some(i) => i < s@.len() && s@[i as int].unique_id == id && find_code_by_id(
                codes_view(s@),
                id,
            ) == Some(s@[i as int]@),
            None => find_code_by_id(codes_view(s@), id) is None,
        },
{
    let ghost cv = codes_view(s@);
    let mut i: usize = s.len();
    proof {
        assert(cv.take(i as int) =~= cv);
    }
    while i > 0
        invariant
            i <= s@.len(),
            cv == codes_view(s@),
            cv.len() == s@.len(),
            find_code_by_id(cv, id) == find_code_by_id(cv.take(i as int), id),
        decreases i,
    {
        proof {
            assert(cv.take(i as int).last() == cv[i as int - 1]);
            assert(cv.take(i as int).drop_last() =~= cv.take(i as int - 1));
        }
        if s[i - 1].unique_id == id {
            return Some(i - 1);
        }
        i = i - 1;
    }
    proof {
        assert(cv.take(0) =~= Seq::<CodeData>::empty());
    }
    None
}

/// Index of the code row with the given string, scanning from the end.
fn lookup_code_by_name(s: &Vec<RedeemableCode>, name: &str) -> (r: Option<usize>)
    ensures
        match r {
            Some(i) => i < s@.len() && s@[i as int].code@ == name@ && find_code_by_name(
                codes_view(s@),
                name@,
            ) == Some(s@[i as int]@),
            None => find_code_by_name(codes_view(s@), name@) is None,
        },
{
    let ghost cv = codes_view(s@);
    let mut i: usize = s.len();
    proof {
        assert(cv.take(i as int) =~= cv);
    }
    while i > 0
        invariant
            i <= s@.len(),
            cv == codes_view(s@),
            cv.len() == s@.len(),
            find_code_by_name(cv, name@) == find_code_by_name(cv.take(i as int), name@),
        decreases i,
    {
        proof {
            assert(cv.take(i as int).last() == cv[i as int - 1]);
            assert(cv.take(i as int).drop_last() =~= cv.take(i as int - 1));
        }
        if str_eq(s[i - 1].code.as_str(), name) {
            return Some(i - 1);
        }
        i = i - 1;
    }
    proof {
        assert(cv.take(0) =~= Seq::<CodeData>::empty());
    }
    None
}

/// Index of the raffle row that is still ongoing, scanning from the
/// end.
fn lookup_ongoing(s: &Vec<RaffleRow>) -> (r: Option<usize>)
    ensures
        match r {
            Some(i) => i < s@.len() && s@[i as int].ended_when is None && find_ongoing(
                raffles_view(s@),
            ) == Some(s@[i as int]@),
            None => find_ongoing(raffles_view(s@)) is None,
        },
{
    let ghost rv = raffles_view(s@);
    let mut i: usize = s.len();
    proof {
        assert(rv.take(i as int) =~= rv);
    }
    while i > 0
        invariant
            i <= s@.len(),
            rv == raffles_view(s@),
            rv.len() == s@.len(),
            find_ongoing(rv) == find_ongoing(rv.take(i as int)),
        decreases i,
    {
        proof {
            assert(rv.take(i as int).last() == rv[i as int - 1]);
            assert(rv.take(i as int).drop_last() =~= rv.take(i as int - 1));
        }
        let row_open = match &s[i - 1].ended_when {
            Option::None => true,
            Option::Some(_) => false,
        };
        if row_open {
            return Some(i - 1);
        }
        i = i - 1;
    }
    proof {
        assert(rv.take(0) =~= Seq::<RaffleData>::empty());
    }
    None
}

/// The referees of `u`, collected in insertion order.
fn collect_referees(s: &Vec<Referral>, u: UserID) -> (r: Vec<UserID>)
    ensures
        r@ == referees_of(s@, u),
{
    let mut out: Vec<UserID> = Vec::new();
    let mut i: usize = 0;
    proof {
        assert(s@.take(0) =~= Seq::<Referral>::empty());
    }
    while i < s.len()
        invariant
            i <= s@.len(),
            out@ == referees_of(s@.take(i as int), u),
        decreases s@.len() - i,
    {
        proof {
            assert(s@.take(i as int + 1).last() == s@[i as int]);
            assert(s@.take(i as int + 1).drop_last() =~= s@.take(i as int));
        }
        if s[i].referrer == u {
            out.push(s[i].referee);
        }
        i = i + 1;
    }
    proof {
        assert(s@.take(s@.len() as int) =~= s@);
    }
    out
}

/// The ids of the codes `u` redeemed, collected in insertion order.
fn collect_used_ids(s: &Vec<UsedRow>, u: UserID) -> (r: Vec<RedeemableCodeId>)
    ensures
        r@ == used_ids_of(s@, u),
{
    let mut out: Vec<RedeemableCodeId> = Vec::new();
    let mut i: usize = 0;
    proof {
        assert(s@.take(0) =~= Seq::<UsedRow>::empty());
    }
    while i < s.len()
        invariant
            i <= s@.len(),
            out@ == used_ids_of(s@.take(i as int), u),
        decreases s@.len() - i,
    {
        proof {
            assert(s@.take(i as int + 1).last() == s@[i as int]);
            assert(s@.take(i as int + 1).drop_last() =~= s@.take(i as int));
        }
        if s[i].user_id == u {
            out.push(s[i].code_id);
        }
        i = i + 1;
    }
    proof {
        assert(s@.take(s@.len() as int) =~= s@);
    }
    out
}

/// The live priority of `u`, computed from the referral and redemption
/// tables.
fn priority_for(referrals: &Vec<Referral>, used: &Vec<UsedRow>, u: UserID) -> (r: usize)
    requires
        referrals@.len() <= MAX_TABLE_ROWS,
        used@.len() <= MAX_TABLE_ROWS,
    ensures
        r == 1 + referees_of(referrals@, u).len() + used_ids_of(used@, u).len(),
{
    proof {
        lemma_referees_len(referrals@, u);
        lemma_used_ids_len(used@, u);
    }
    let referees = collect_referees(referrals, u);
    let used_ids = collect_used_ids(used, u);
    1 + referees.len() + used_ids.len()
}

impl Ledger {
    /// The invariant of the ledger: constructors establish it, every
    /// operation requires and preserves it.
    pub open spec fn wf(&self) -> bool {
        wf_view(self@)
    }

    /// A fresh, empty ledger.
    pub fn create() -> (r: Result<Ledger, ()>)
        ensures
            r matches Ok(l) && l@ == LedgerView::empty() && l.wf(),
    {
        let l = Ledger {
            partecipants: Vec::new(),
            referrals: Vec::new(),
            codes: Vec::new(),
            used: Vec::new(),
            raffles: Vec::new(),
            winners: Vec::new(),
            next_code_id: 1,
            next_raffle_id: 1,
        };
        proof {
            assert(l@ =~= LedgerView::empty());
        }
        Ok(l)
    }

/// Rebuilds a ledger from stored rows, for a caller that keeps the
    /// tables in durable storage across processes. The rows are held to
    /// the ledger invariant: exactly the row sets that satisfy it are
    /// accepted, anything else is refused as `InvalidRows`.
    pub fn from_rows(
        partecipants: Vec<PartRow>,
        referrals: Vec<Referral>,
        codes: Vec<RedeemableCode>,
        used: Vec<UsedRow>,
        raffles: Vec<RaffleRow>,
        winners: Vec<WinnerRow>,
        next_code_id: RedeemableCodeId,
        next_raffle_id: RaffleID,
    ) -> (r: Result<Ledger, LedgerError>)
        ensures
            (r is Ok) == wf_view(
                (LedgerView {
                    partecipants: partecipants@,
                    referrals: referrals@,
                    codes: codes_view(codes@),
                    used: used@,
                    raffles: raffles_view(raffles@),
                    winners: winners@,
                    next_code_id,
                    next_raffle_id,
                }),
            ),
            r matches Ok(l) ==> l.wf() && l@ == (LedgerView {
                partecipants: partecipants@,
                referrals: referrals@,
                codes: codes_view(codes@),
                used: used@,
                raffles: raffles_view(raffles@),
                winners: winners@,
                next_code_id,
                next_raffle_id,
            }),
            r matches Err(e) ==> e == LedgerError::InvalidRows,
    {
        let rows_ok = check_distinct_users(&partecipants) && check_distinct_referees(&referrals)
            && check_distinct_used(&used) && check_codes(&codes, next_code_id) && check_raffles(
            &raffles,
            next_raffle_id,
        ) && referrals.len() <= MAX_TABLE_ROWS && used.len() <= MAX_TABLE_ROWS;
        if !rows_ok {
            return Err(LedgerError::InvalidRows);
        }
        let l = Ledger {
            partecipants,
            referrals,
            codes,
            used,
            raffles,
            winners,
            next_code_id,
            next_raffle_id,
        };
        Ok(l)
    }

    /// Stores a code with the given string and use count. Fails with
    /// `DuplicateCode` exactly when the string is already taken, and
    /// with `IdsExhausted` exactly when no id is left; otherwise the
    /// code is stored under the next free id and returned.
    pub fn insert_code_with(&mut self, code: String, uses: i32) -> (r: RaffleResult<
        RedeemableCode,
    >)
        requires
            old(self).wf(),
            uses == -1 || uses >= 1,
        ensures
            final(self).wf(),
            find_code_by_name(old(self)@.codes, code@) is Some ==> r == Err::<
                RedeemableCode,
                LedgerError,
            >(LedgerError::DuplicateCode) && final(self)@ == old(self)@,
            (find_code_by_name(old(self)@.codes, code@) is None && old(self)@.next_code_id
                == u64::MAX) ==> r == Err::<RedeemableCode, LedgerError>(LedgerError::IdsExhausted)
                && final(self)@ == old(self)@,
            (find_code_by_name(old(self)@.codes, code@) is None && old(self)@.next_code_id
                < u64::MAX) ==> (exists|t: Timestamp|
                final(self)@ == code_apply(old(self)@, code@, uses, t)) && (r matches Ok(c) && c@
                == final(self)@.codes.last()),
    {
        if lookup_code_by_name(&self.codes, code.as_str()).is_some() {
            return Err(LedgerError::DuplicateCode);
        }
        if self.next_code_id == u64::MAX {
            return Err(LedgerError::IdsExhausted);
        }
        proof {
            lemma_find_code_by_name_props(self@.codes, code@);
        }
        let t = timestamp_now();
        let id = self.next_code_id;
        self.next_code_id = self.next_code_id + 1;
        let c = RedeemableCode { code, unique_id: id, remaining_uses: uses, generated_when: t };
        let stored = RedeemableCode {
            code: c.code.clone(),
            unique_id: c.unique_id,
            remaining_uses: c.remaining_uses,
            generated_when: c.generated_when,
        };
        self.codes.push(stored);
        proof {
            assert(self@.codes =~= old(self)@.codes.push(c@));
            assert(self@ =~= code_apply(old(self)@, c.code@, uses, t));
            let s = self@.codes;
            assert(forall|k: int| 0 <= k < s.len() - 1 ==> s[k] == old(self)@.codes[k]);
            assert(codes_ok(s, self@.next_code_id)) by {
                assert(forall|k: int| 0 <= k < s.len() - 1 ==> s[k].unique_id != id);
                assert(forall|k: int| 0 <= k < s.len() - 1 ==> s[k].code != c.code@);
            }
        }
        Ok(c)
    }
}

impl RaffleDB for Ledger {
    open spec fn db_view(&self) -> LedgerView {
        self@
    }

    open spec fn db_wf(&self) -> bool {
        self.wf()
    }

    fn close(self) -> (r: RaffleResult<()>) {
        Ok(())
    }

    fn create_raffle(&mut self, name: &str, description: &str) -> (r: RaffleResult<
        RaffleCreationResult,
    >) {
        match lookup_ongoing(&self.raffles) {
            Option::Some(i) => {
                let row = &self.raffles[i];
                let raf = Raffle {
                    raffle_id: row.raffle_id,
                    raffle_name: row.raffle_name.clone(),
                    raffle_description: row.raffle_description.clone(),
                    started_when: row.started_when,
                };
                Ok(RaffleCreationResult::OngoingRaffleExists(raf))
            },
            Option::None => {
                if self.next_raffle_id == u64::MAX {
                    return Err(LedgerError::IdsExhausted);
                }
                proof {
                    lemma_find_ongoing_props(self@.raffles);
                }
                let t = timestamp_now();
                let id = self.next_raffle_id;
                self.next_raffle_id = self.next_raffle_id + 1;
                let row = RaffleRow {
                    raffle_id: id,
                    raffle_name: name.to_owned(),
                    raffle_description: description.to_owned(),
                    started_when: t,
                    ended_when: None,
                };
                let raf = Raffle {
                    raffle_id: id,
                    raffle_name: row.raffle_name.clone(),
                    raffle_description: row.raffle_description.clone(),
                    started_when: t,
                };
                self.raffles.push(row);
                proof {
                    assert(self@.raffles =~= old(self)@.raffles.push(
                        self.raffles@.last()@,
                    ));
                    assert(self@ =~= create_raffle_apply(old(self)@, name@, description@, t));
                    let s = self@.raffles;
                    assert(forall|k: int| 0 <= k < s.len() - 1 ==> s[k] == old(self)@.raffles[k]);
                    assert(raffles_ok(s, self@.next_raffle_id)) by {
                        assert(forall|k: int| 0 <= k < s.len() - 1 ==> s[k].raffle_id != id);
                        assert(forall|k: int|
                            0 <= k < s.len() - 1 ==> !(s[k].ended_when is None));
                    }
                }
                Ok(RaffleCreationResult::Success(raf))
            },
        }
    }

    fn get_ongoing_raffle(&self) -> (r: RaffleResult<Option<Raffle>>) {
        match lookup_ongoing(&self.raffles) {
            Option::Some(i) => {
                let row = &self.raffles[i];
                let raf = Raffle {
                    raffle_id: row.raffle_id,
                    raffle_name: row.raffle_name.clone(),
                    raffle_description: row.raffle_description.clone(),
                    started_when: row.started_when,
                };
                Ok(Some(raf))
            },
            Option::None => Ok(None),
        }
    }

    fn stop_raffle(&mut self, num_winners: usize) -> (r: RaffleResult<Vec<Partecipant>>) {
        let idx = match lookup_ongoing(&self.raffles) {
            Option::None => {
                return Err(LedgerError::NoOngoingRaffle);
            },
            Option::Some(i) => i,
        };
        let raffle_id = self.raffles[idx].raffle_id;
        let snap = match self.get_partecipants() {
            Result::Ok(v) => v,
            Result::Err(e) => {
                proof {
                    assert(false);
                }
                return Err(e);
            },
        };
        let mut winners = rank_partecipants(snap);
        winners.truncate(num_winners);
        proof {
            assert(winners@ =~= stop_winners(self@, num_winners as int));
        }
        let t = timestamp_now();
        let row = &self.raffles[idx];
        let closed = RaffleRow {
            raffle_id: row.raffle_id,
            raffle_name: row.raffle_name.clone(),
            raffle_description: row.raffle_description.clone(),
            started_when: row.started_when,
            ended_when: Some(t),
        };
        self.raffles.set(idx, closed);
        proof {
            assert(self@.raffles =~= close_raffle(old(self)@.raffles, raffle_id, t)) by {
                assert(forall|k: int|
                    0 <= k < self@.raffles.len() && k != idx as int ==> self@.raffles[k] == old(
                        self,
                    )@.raffles[k]);
                let os = old(self)@.raffles;
                assert forall|k: int| 0 <= k < os.len() && k != idx as int implies os[k].raffle_id
                    != raffle_id by {
                    if k < idx as int {
                        assert(os[k].raffle_id != os[idx as int].raffle_id);
                    } else {
                        assert(os[idx as int].raffle_id != os[k].raffle_id);
                    }
                }
            }
        }
        let mut rows: Vec<WinnerRow> = Vec::new();
        let mut wi: usize = 0;
        proof {
            assert(rows@ =~= winner_rows(winners@, raffle_id).take(0));
        }
        while wi < winners.len()
            invariant
                wi <= winners@.len(),
                rows@ == winner_rows(winners@, raffle_id).take(wi as int),
            decreases winners@.len() - wi,
        {
            let w = winners[wi];
            rows.push(WinnerRow { raffle_id, winner_id: w.user_id, position: wi as u64 });
            proof {
                assert(rows@ =~= winner_rows(winners@, raffle_id).take(wi as int + 1));
            }
            wi = wi + 1;
        }
        proof {
            assert(winner_rows(winners@, raffle_id).take(winners@.len() as int) =~= winner_rows(
                winners@,
                raffle_id,
            ));
        }
        self.winners.append(&mut rows);
        self.partecipants = Vec::new();
        self.referrals = Vec::new();
        self.codes = Vec::new();
        self.used = Vec::new();
        proof {
            assert(self@.partecipants =~= Seq::<PartRow>::empty());
            assert(self@.referrals =~= Seq::<Referral>::empty());
            assert(self@.codes =~= Seq::<CodeData>::empty());
            assert(self@.used =~= Seq::<UsedRow>::empty());
            assert(self@ =~= stop_apply(old(self)@, num_winners as int, t));
            assert(raffles_ok(self@.raffles, self@.next_raffle_id)) by {
                let s = self@.raffles;
                let os = old(self)@.raffles;
                assert forall|a: int, b: int| 0 <= a < b < s.len() implies !(s[a].ended_when
                    is None && s[b].ended_when is None) by {
                    assert(os[idx as int].ended_when is None);
                    if a != idx as int && s[a].ended_when is None {
                        assert(os[a].ended_when is None);
                    }
                    if b != idx as int && s[b].ended_when is None {
                        assert(os[b].ended_when is None);
                    }
                }
            }
        }
        Ok(winners)
    }

    fn get_partecipants(&self) -> (r: RaffleResult<Vec<Partecipant>>) {
        let mut out: Vec<Partecipant> = Vec::new();
        let mut i: usize = 0;
        while i < self.partecipants.len()
            invariant
                self.wf(),
                i <= self@.partecipants.len(),
                out@.len() == i,
                forall|k: int| 0 <= k < i ==> out@[k] == snapshot(self@)[k],
            decreases self@.partecipants.len() - i,
        {
            let row = self.partecipants[i];
            proof {
                lemma_referees_len(self@.referrals, row.user_id);
                lemma_used_ids_len(self@.used, row.user_id);
            }
            let priority = priority_for(&self.referrals, &self.used, row.user_id);
            let p = Partecipant { user_id: row.user_id, joined_when: row.joined_when, priority };
            proof {
                assert(p == snapshot(self@)[i as int]);
            }
            out.push(p);
            i = i + 1;
        }
        proof {
            assert(out@ =~= snapshot(self@));
        }
        Ok(out)
    }

    fn get_partecipant(&self, user_id: UserID) -> (r: RaffleResult<Option<Partecipant>>) {
        match lookup_user(&self.partecipants, user_id) {
            Option::Some(i) => {
                let row = self.partecipants[i];
                proof {
                    lemma_referees_len(self@.referrals, user_id);
                    lemma_used_ids_len(self@.used, user_id);
                }
                let priority = priority_for(&self.referrals, &self.used, user_id);
                let p = Partecipant { user_id, joined_when: row.joined_when, priority };
                proof {
                    assert(p == partecipant_data(self@, user_id));
                }
                Ok(Some(p))
            },
            Option::None => Ok(None),
        }
    }

    fn is_partecipant(&self, user_id: UserID) -> (r: RaffleResult<bool>) {
        Ok(lookup_user(&self.partecipants, user_id).is_some())
    }

    fn register_partecipant(&mut self, user_id: UserID, referrer: Option<UserID>) -> (r:
        RaffleResult<RegistrationStatus>) {
        if lookup_user(&self.partecipants, user_id).is_some() {
            return Ok(RegistrationStatus::NotRegistered);
        }
        let will_record = match referrer {
            Option::Some(rr) => (rr == user_id || lookup_user(&self.partecipants, rr).is_some())
                && lookup_referral(&self.referrals, user_id).is_none(),
            Option::None => false,
        };
        proof {
            assert(will_record == records_referral(self@, user_id, referrer));
        }
        if will_record && self.referrals.len() >= MAX_TABLE_ROWS {
            return Err(LedgerError::TableFull);
        }
        proof {
            lemma_find_user_props(self@.partecipants, user_id);
            lemma_find_referral_props(self@.referrals, user_id);
        }
        let t = timestamp_now();
        self.partecipants.push(PartRow { user_id, joined_when: t });
        if will_record {
            // A referral is only recorded when a referrer was named.
            let rr = match referrer {
                Option::Some(rr) => rr,
                Option::None => 0,
            };
            self.referrals.push(Referral { referrer: rr, referee: user_id });
        }
        proof {
            assert(self@ =~= register_apply(old(self)@, user_id, referrer, t));
            assert(distinct_users(self@.partecipants)) by {
                let s = self@.partecipants;
                assert(forall|k: int|
                    0 <= k < s.len() - 1 ==> s[k] == old(self)@.partecipants[k]);
                assert(forall|k: int| 0 <= k < s.len() - 1 ==> s[k].user_id != user_id);
            }
            assert(distinct_referees(self@.referrals)) by {
                if will_record {
                    let s = self@.referrals;
                    assert(forall|k: int|
                        0 <= k < s.len() - 1 ==> s[k] == old(self)@.referrals[k]);
                    assert(forall|k: int| 0 <= k < s.len() - 1 ==> s[k].referee != user_id);
                }
            }
            assert(find_user(self@.partecipants, user_id) == Some(
                PartRow { user_id, joined_when: t },
            ));
            lemma_referees_len(self@.referrals, user_id);
            lemma_used_ids_len(self@.used, user_id);
        }
        let priority = priority_for(&self.referrals, &self.used, user_id);
        let p = Partecipant { user_id, joined_when: t, priority };
        proof {
            assert(p == partecipant_data(self@, user_id));
        }
        Ok(RegistrationStatus::Registered(p))
    }

    fn remove_partecipant(&mut self, user_id: UserID) -> (r: RaffleResult<bool>) {
        let was_there = lookup_user(&self.partecipants, user_id).is_some();
        let ghost s = self.partecipants@;
        let mut out: Vec<PartRow> = Vec::new();
        let mut i: usize = 0;
        proof {
            assert(s.take(0) =~= Seq::<PartRow>::empty());
        }
        while i < self.partecipants.len()
            invariant
                s == self.partecipants@,
                i <= s.len(),
                out@ == remove_user(s.take(i as int), user_id),
            decreases s.len() - i,
        {
            proof {
                assert(s.take(i as int + 1).drop_last() =~= s.take(i as int));
                assert(s.take(i as int + 1).last() == s[i as int]);
            }
            let row = self.partecipants[i];
            if row.user_id != user_id {
                out.push(row);
            }
            i = i + 1;
        }
        proof {
            assert(s.take(s.len() as int) =~= s);
        }
        self.partecipants = out;
        proof {
            assert(self@ =~= remove_apply(old(self)@, user_id));
            lemma_remove_user_props(old(self)@.partecipants, user_id);
        }
        Ok(was_there)
    }

    fn get_registration_status(&self, user_id: UserID) -> (r: RaffleResult<RegistrationStatus>) {
        match self.get_partecipant(user_id)? {
            Option::Some(p) => Ok(RegistrationStatus::Registered(p)),
            Option::None => Ok(RegistrationStatus::NotRegistered),
        }
    }

    fn get_referees_of_user(&self, user_id: UserID) -> (r: RaffleResult<Vec<UserID>>) {
        Ok(collect_referees(&self.referrals, user_id))
    }

    fn get_referrer_of_user(&self, user_id: UserID) -> (r: RaffleResult<Option<UserID>>) {
        match lookup_referral(&self.referrals, user_id) {
            Option::Some(i) => Ok(Some(self.referrals[i].referrer)),
            Option::None => Ok(None),
        }
    }

    fn generate_raffle_code(&mut self, use_count: CodeUseCount) -> (r: RaffleResult<
        RedeemableCode,
    >) {
        let uses: i32 = match use_count {
            CodeUseCount::Counted(n) => n,
            CodeUseCount::Once => 1,
            CodeUseCount::Illimited => -1,
            _ => {
                proof {
                    assert(false);
                }
                1
            },
        };
        proof {
            assert(uses == numeric_uses(use_count));
        }
        let code = random_code_string();
        let ghost code_view = code@;
        let r = self.insert_code_with(code, uses);
        proof {
            if r is Ok {
                let c = r->Ok_0;
                let t = choose|t: Timestamp|
                    self@ == code_apply(old(self)@, code_view, uses, t);
                assert(self@.codes.last() == CodeData {
                    code: code_view,
                    unique_id: old(self)@.next_code_id,
                    remaining_uses: uses,
                    generated_when: t,
                });
                assert(c@.code == code_view);
                assert(numeric_uses(use_count) == uses);
                assert(self@ == code_apply(
                    old(self)@,
                    c@.code,
                    numeric_uses(use_count),
                    t,
                ));
                assert(self.db_view() == code_apply(
                    old(self).db_view(),
                    c@.code,
                    numeric_uses(use_count),
                    t,
                ));
                assert forall|i: int| 0 <= i < c@.code.len() implies 0x30 <= #[trigger] c@.code[i]
                    as u32 && (c@.code[i] as u32) < 0x5A by {
                    assert(c@.code[i] == code_view[i]);
                }
            }
            let pre = old(self).db_view();
            assert(pre == old(self)@);
            lemma_find_code_by_name_props(pre.codes, code_view);
            if r == Err::<RedeemableCode, LedgerError>(LedgerError::DuplicateCode) {
                // Only a stored code equal to the drawn string makes the
                // insertion fail this way, and the drawn string has the
                // generated length.
                let row = find_code_by_name(pre.codes, code_view)->0;
                let kk = choose|kk: int| 0 <= kk < pre.codes.len() && pre.codes[kk] == row;
                assert(pre.codes[kk].code.len() == CODE_LENGTH);
            }
            if (forall|k: int|
                0 <= k < pre.codes.len() ==> #[trigger] pre.codes[k].code.len() != CODE_LENGTH)
                && pre.next_code_id < u64::MAX {
                // No stored code has the generated length, so no draw can
                // collide and the insertion is owed success.
                assert forall|k: int| 0 <= k < pre.codes.len() implies #[trigger] pre.codes[k].code
                    != code_view by {
                    assert(pre.codes[k].code.len() != CODE_LENGTH);
                }
                assert(find_code_by_name(pre.codes, code_view) is None);
                assert(r is Ok);
            }
        }
        r
    }

    fn get_raffle_codes(&self) -> (r: RaffleResult<Vec<RedeemableCode>>) {
        let mut out: Vec<RedeemableCode> = Vec::new();
        let mut i: usize = 0;
        while i < self.codes.len()
            invariant
                i <= self.codes@.len(),
                out@.len() == i,
                forall|k: int| 0 <= k < i ==> #[trigger] out@[k]@ == codes_view(self.codes@)[k],
            decreases self.codes@.len() - i,
        {
            let row = &self.codes[i];
            let c = RedeemableCode {
                code: row.code.clone(),
                unique_id: row.unique_id,
                remaining_uses: row.remaining_uses,
                generated_when: row.generated_when,
            };
            out.push(c);
            i = i + 1;
        }
        Ok(out)
    }

    fn get_raffle_codes_used_by_user(&self, user_id: UserID) -> (r: RaffleResult<
        Vec<RedeemableCodeId>,
    >) {
        Ok(collect_used_ids(&self.used, user_id))
    }

    fn get_raffle_code_by_name(&self, name: &str) -> (r: RaffleResult<Option<RedeemableCode>>) {
        match lookup_code_by_name(&self.codes, name) {
            Option::Some(i) => {
                let row = &self.codes[i];
                let c = RedeemableCode {
                    code: row.code.clone(),
                    unique_id: row.unique_id,
                    remaining_uses: row.remaining_uses,
                    generated_when: row.generated_when,
                };
                Ok(Some(c))
            },
            Option::None => Ok(None),
        }
    }

    fn get_raffle_code_by_id(&self, code: RedeemableCodeId) -> (r: RaffleResult<
        Option<RedeemableCode>,
    >) {
        match lookup_code_by_id(&self.codes, code) {
            Option::Some(i) => {
                let row = &self.codes[i];
                let c = RedeemableCode {
                    code: row.code.clone(),
                    unique_id: row.unique_id,
                    remaining_uses: row.remaining_uses,
                    generated_when: row.generated_when,
                };
                Ok(Some(c))
            },
            Option::None => Ok(None),
        }
    }

    fn partecipant_has_redeemed_code(
        &self,
        partecipant_id: UserID,
        code_id: RedeemableCodeId,
    ) -> (r: RaffleResult<bool>) {
        Ok(lookup_used(&self.used, partecipant_id, code_id))
    }

    fn delete_raffle_code(&mut self, code: RedeemableCodeId) -> (r: RaffleResult<bool>) {
        let was_there = lookup_code_by_id(&self.codes, code).is_some();
        let ghost cv = codes_view(self.codes@);
        let mut out: Vec<RedeemableCode> = Vec::new();
        let mut i: usize = 0;
        proof {
            assert(cv.take(0) =~= Seq::<CodeData>::empty());
            assert(codes_view(out@) =~= remove_code(cv.take(0), code));
        }
        while i < self.codes.len()
            invariant
                cv == codes_view(self.codes@),
                cv.len() == self.codes@.len(),
                i <= cv.len(),
                codes_view(out@) == remove_code(cv.take(i as int), code),
            decreases cv.len() - i,
        {
            proof {
                assert(cv.take(i as int + 1).drop_last() =~= cv.take(i as int));
                assert(cv.take(i as int + 1).last() == cv[i as int]);
            }
            let row = &self.codes[i];
            if row.unique_id != code {
                let kept = RedeemableCode {
                    code: row.code.clone(),
                    unique_id: row.unique_id,
                    remaining_uses: row.remaining_uses,
                    generated_when: row.generated_when,
                };
                let ghost before = codes_view(out@);
                out.push(kept);
                proof {
                    assert(codes_view(out@) =~= before.push(cv[i as int]));
                }
            }
            i = i + 1;
        }
        proof {
            assert(cv.take(cv.len() as int) =~= cv);
        }
        self.codes = out;
        proof {
            assert(self@ =~= delete_code_apply(old(self)@, code));
            lemma_remove_code_props(old(self)@.codes, code);
        }
        Ok(was_there)
    }

    fn validate_code(&self, code: &str) -> (r: RaffleResult<CodeValidation>) {
        match lookup_code_by_name(&self.codes, code) {
            Option::Some(i) => Ok(CodeValidation::Valid(self.codes[i].unique_id)),
            Option::None => Ok(CodeValidation::NotValid("Code not found".to_owned())),
        }
    }

    fn redeem_code(&mut self, user_id: UserID, code_id: RedeemableCodeId) -> (r: RaffleResult<
        CodeRedeemalResult,
    >) {
        if lookup_user(&self.partecipants, user_id).is_none() {
            return Ok(CodeRedeemalResult::NonExistingUser);
        }
        if lookup_code_by_id(&self.codes, code_id).is_none() {
            return Ok(CodeRedeemalResult::NonExistingCode);
        }
        if lookup_used(&self.used, user_id, code_id) {
            return Ok(CodeRedeemalResult::AlreadyRedeemed);
        }
        if self.used.len() >= MAX_TABLE_ROWS {
            return Err(LedgerError::TableFull);
        }
        proof {
            lemma_find_used_props(self@.used, user_id, code_id);
        }
        let t = timestamp_now();
        self.used.push(UsedRow { user_id, code_id, used_when: t });
        let ghost cv = codes_view(self.codes@);
        let mut out: Vec<RedeemableCode> = Vec::new();
        let mut i: usize = 0;
        proof {
            assert(cv.take(0) =~= Seq::<CodeData>::empty());
            assert(codes_view(out@) =~= purge_spent(decrement_code(cv.take(0), code_id)));
        }
        while i < self.codes.len()
            invariant
                cv == codes_view(self.codes@),
                cv.len() == self.codes@.len(),
                i <= cv.len(),
                codes_view(out@) == purge_spent(decrement_code(cv.take(i as int), code_id)),
            decreases cv.len() - i,
        {
            proof {
                assert(cv.take(i as int + 1).drop_last() =~= cv.take(i as int));
                assert(cv.take(i as int + 1).last() == cv[i as int]);
                assert(decrement_code(cv.take(i as int + 1), code_id).drop_last()
                    =~= decrement_code(cv.take(i as int), code_id));
            }
            let row = &self.codes[i];
            let ghost before = codes_view(out@);
            if row.unique_id == code_id && row.remaining_uses > 0 {
                let nr = row.remaining_uses - 1;
                if nr != 0 {
                    let kept = RedeemableCode {
                        code: row.code.clone(),
                        unique_id: row.unique_id,
                        remaining_uses: nr,
                        generated_when: row.generated_when,
                    };
                    out.push(kept);
                    proof {
                        assert(codes_view(out@) =~= before.push(
                            decrement_code(cv.take(i as int + 1), code_id).last(),
                        ));
                    }
                }
            } else {
                if row.remaining_uses != 0 {
                    let kept = RedeemableCode {
                        code: row.code.clone(),
                        unique_id: row.unique_id,
                        remaining_uses: row.remaining_uses,
                        generated_when: row.generated_when,
                    };
                    out.push(kept);
                    proof {
                        assert(codes_view(out@) =~= before.push(
                            decrement_code(cv.take(i as int + 1), code_id).last(),
                        ));
                    }
                }
            }
            i = i + 1;
        }
        proof {
            assert(cv.take(cv.len() as int) =~= cv);
        }
        self.codes = out;
        proof {
            assert(self@ =~= redeem_apply(old(self)@, user_id, code_id, t));
            assert(distinct_used_pairs(self@.used)) by {
                let s = self@.used;
                assert(forall|k: int| 0 <= k < s.len() - 1 ==> s[k] == old(self)@.used[k]);
                assert(forall|k: int|
                    0 <= k < s.len() - 1 ==> !(s[k].user_id == user_id && s[k].code_id
                        == code_id));
            }
            lemma_decrement_props(old(self)@.codes, code_id);
            lemma_purge_spent_props(decrement_code(old(self)@.codes, code_id));
            assert(codes_ok(self@.codes, self@.next_code_id)) by {
                let dec = decrement_code(old(self)@.codes, code_id);
                assert(forall|a: int, b: int|
                    0 <= a < b < dec.len() ==> dec[a].unique_id != dec[b].unique_id);
                assert(forall|a: int, b: int| 0 <= a < b < dec.len() ==> dec[a].code != dec[b].code);
                assert forall|k: int| 0 <= k < self@.codes.len() implies (
                    #[trigger] self@.codes[k].remaining_uses == -1 || self@.codes[k].remaining_uses
                        >= 1) && self@.codes[k].unique_id < self@.next_code_id by {
                    let m = choose|m: int| 0 <= m < dec.len() && self@.codes[k] == dec[m];
                }
            }
        }
        Ok(CodeRedeemalResult::Redeemed)
    }
}

/// Whether the participant rows have pairwise distinct user ids.
fn check_distinct_users(s: &Vec<PartRow>) -> (r: bool)
    ensures
        r == distinct_users(s@),
{
    let mut i: usize = 0;
    while i < s.len()
        invariant
            i <= s@.len(),
            forall|a: int, b: int| 0 <= a < b < i ==> s@[a].user_id != s@[b].user_id,
        decreases s@.len() - i,
    {
        let mut j: usize = 0;
        while j < i
            invariant
                j <= i < s@.len(),
                forall|a: int, b: int| 0 <= a < b < i ==> s@[a].user_id != s@[b].user_id,
                forall|a: int| 0 <= a < j ==> s@[a].user_id != s@[i as int].user_id,
            decreases i - j,
        {
            if s[j].user_id == s[i].user_id {
                proof {
                    assert(s@[j as int].user_id == s@[i as int].user_id);
                    assert(!distinct_users(s@));
                }
                return false;
            }
            j = j + 1;
        }
        i = i + 1;
    }
    true
}

/// Whether the referral rows have pairwise distinct referees.
fn check_distinct_referees(s: &Vec<Referral>) -> (r: bool)
    ensures
        r == distinct_referees(s@),
{
    let mut i: usize = 0;
    while i < s.len()
        invariant
            i <= s@.len(),
            forall|a: int, b: int| 0 <= a < b < i ==> s@[a].referee != s@[b].referee,
        decreases s@.len() - i,
    {
        let mut j: usize = 0;
        while j < i
            invariant
                j <= i < s@.len(),
                forall|a: int, b: int| 0 <= a < b < i ==> s@[a].referee != s@[b].referee,
                forall|a: int| 0 <= a < j ==> s@[a].referee != s@[i as int].referee,
            decreases i - j,
        {
            if s[j].referee == s[i].referee {
                proof {
                    assert(s@[j as int].referee == s@[i as int].referee);
                    assert(!distinct_referees(s@));
                }
                return false;
            }
            j = j + 1;
        }
        i = i + 1;
    }
    true
}

/// Whether the redemption rows have pairwise distinct (user, code)
/// pairs.
fn check_distinct_used(s: &Vec<UsedRow>) -> (r: bool)
    ensures
        r == distinct_used_pairs(s@),
{
    let mut i: usize = 0;
    while i < s.len()
        invariant
            i <= s@.len(),
            forall|a: int, b: int|
                0 <= a < b < i ==> !(s@[a].user_id == s@[b].user_id && s@[a].code_id
                    == s@[b].code_id),
        decreases s@.len() - i,
    {
        let mut j: usize = 0;
        while j < i
            invariant
                j <= i < s@.len(),
                forall|a: int, b: int|
                    0 <= a < b < i ==> !(s@[a].user_id == s@[b].user_id && s@[a].code_id
                        == s@[b].code_id),
                forall|a: int|
                    0 <= a < j ==> !(s@[a].user_id == s@[i as int].user_id && s@[a].code_id
                        == s@[i as int].code_id),
            decreases i - j,
        {
            if s[j].user_id == s[i].user_id && s[j].code_id == s[i].code_id {
                proof {
                    assert(s@[j as int].user_id == s@[i as int].user_id && s@[j as int].code_id
                        == s@[i as int].code_id);
                    assert(!distinct_used_pairs(s@));
                }
                return false;
            }
            j = j + 1;
        }
        i = i + 1;
    }
    true
}

/// Whether the code rows meet the code-table invariant: distinct ids,
/// distinct strings, remaining uses -1 or at least 1, ids below the
/// next free id.
fn check_codes(s: &Vec<RedeemableCode>, next_id: RedeemableCodeId) -> (r: bool)
    ensures
        r == codes_ok(codes_view(s@), next_id),
{
    let ghost cv = codes_view(s@);
    let mut i: usize = 0;
    while i < s.len()
        invariant
            cv == codes_view(s@),
            cv.len() == s@.len(),
            i <= cv.len(),
            forall|a: int, b: int| 0 <= a < b < i ==> cv[a].unique_id != cv[b].unique_id,
            forall|a: int, b: int| 0 <= a < b < i ==> cv[a].code != cv[b].code,
            forall|a: int| 0 <= a < i ==> cv[a].remaining_uses == -1 || cv[a].remaining_uses >= 1,
            forall|a: int| 0 <= a < i ==> cv[a].unique_id < next_id,
        decreases cv.len() - i,
    {
        if !(s[i].remaining_uses == -1 || s[i].remaining_uses >= 1) {
            proof {
                assert(cv[i as int] == s@[i as int]@);
                assert(!(cv[i as int].remaining_uses == -1 || cv[i as int].remaining_uses >= 1));
                assert(!codes_ok(cv, next_id));
            }
            return false;
        }
        if s[i].unique_id >= next_id {
            proof {
                assert(cv[i as int] == s@[i as int]@);
                assert(cv[i as int].unique_id >= next_id);
                assert(!codes_ok(cv, next_id));
            }
            return false;
        }
        let mut j: usize = 0;
        while j < i
            invariant
                cv == codes_view(s@),
                cv.len() == s@.len(),
                j <= i < cv.len(),
                forall|a: int, b: int| 0 <= a < b < i ==> cv[a].unique_id != cv[b].unique_id,
                forall|a: int, b: int| 0 <= a < b < i ==> cv[a].code != cv[b].code,
                forall|a: int| 0 <= a < j ==> cv[a].unique_id != cv[i as int].unique_id,
                forall|a: int| 0 <= a < j ==> cv[a].code != cv[i as int].code,
            decreases i - j,
        {
            if s[j].unique_id == s[i].unique_id {
                proof {
                    assert(cv[j as int].unique_id == cv[i as int].unique_id);
                    assert(!codes_ok(cv, next_id));
                }
                return false;
            }
            if str_eq(s[j].code.as_str(), s[i].code.as_str()) {
                proof {
                    assert(cv[j as int].code == cv[i as int].code);
                    assert(!codes_ok(cv, next_id));
                }
                return false;
            }
            j = j + 1;
        }
        i = i + 1;
    }
    true
}

/// Whether the raffle rows meet the raffle-table invariant: distinct
/// ids below the next free id, and at most one row still ongoing.
fn check_raffles(s: &Vec<RaffleRow>, next_id: RaffleID) -> (r: bool)
    ensures
        r == raffles_ok(raffles_view(s@), next_id),
{
    let ghost rv = raffles_view(s@);
    let mut i: usize = 0;
    while i < s.len()
        invariant
            rv == raffles_view(s@),
            rv.len() == s@.len(),
            i <= rv.len(),
            forall|a: int, b: int| 0 <= a < b < i ==> rv[a].raffle_id != rv[b].raffle_id,
            forall|a: int| 0 <= a < i ==> rv[a].raffle_id < next_id,
            forall|a: int, b: int|
                0 <= a < b < i ==> !(rv[a].ended_when is None && rv[b].ended_when is None),
        decreases rv.len() - i,
    {
        if s[i].raffle_id >= next_id {
            proof {
                assert(rv[i as int].raffle_id >= next_id);
                assert(!raffles_ok(rv, next_id));
            }
            return false;
        }
        let row_open = match &s[i].ended_when {
            Option::None => true,
            Option::Some(_) => false,
        };
        let mut j: usize = 0;
        while j < i
            invariant
                rv == raffles_view(s@),
                rv.len() == s@.len(),
                j <= i < rv.len(),
                row_open == (rv[i as int].ended_when is None),
                forall|a: int, b: int| 0 <= a < b < i ==> rv[a].raffle_id != rv[b].raffle_id,
                forall|a: int, b: int|
                    0 <= a < b < i ==> !(rv[a].ended_when is None && rv[b].ended_when is None),
                forall|a: int| 0 <= a < j ==> rv[a].raffle_id != rv[i as int].raffle_id,
                forall|a: int|
                    0 <= a < j ==> !(rv[a].ended_when is None && rv[i as int].ended_when is None),
            decreases i - j,
        {
            if s[j].raffle_id == s[i].raffle_id {
                proof {
                    assert(rv[j as int].raffle_id == rv[i as int].raffle_id);
                    assert(!raffles_ok(rv, next_id));
                }
                return false;
            }
            let other_open = match &s[j].ended_when {
                Option::None => true,
                Option::Some(_) => false,
            };
            if row_open && other_open {
                proof {
                    assert(rv[j as int].ended_when is None && rv[i as int].ended_when is None);
                    assert(!raffles_ok(rv, next_id));
                }
                return false;
            }
            j = j + 1;
        }
        i = i + 1;
    }
    true
}

/// The stored use count that each accepted use policy maps to.
pub open spec fn numeric_uses(c: CodeUseCount) -> i32 {
    match c {
        CodeUseCount::Counted(n) => n,
        CodeUseCount::Once => 1,
        CodeUseCount::Illimited => -1i32,
        CodeUseCount::Expired => 0i32,
        CodeUseCount::CodeNotValid => 0i32,
    }
}

/// A fresh code string of `CODE_LENGTH` chars, each drawn from the
/// bounded alphanumeric range.
fn random_code_string() -> (r: String)
    ensures
        r@.len() == CODE_LENGTH,
        forall|k: int| 0 <= k < r@.len() ==> 0x30 <= #[trigger] r@[k] as u32 && (r@[k] as u32)
            < 0x5A,
{
    let mut s = String::new();
    let mut i: usize = 0;
    while i < CODE_LENGTH
        invariant
            i <= CODE_LENGTH,
            s@.len() == i,
            forall|k: int| 0 <= k < s@.len() ==> 0x30 <= #[trigger] s@[k] as u32 && (s@[k] as u32)
                < 0x5A,
        decreases CODE_LENGTH - i,
    {
        let c = random_code_char();
        push_char(&mut s, c);
        i = i + 1;
    }
    s
}

} // verus!
