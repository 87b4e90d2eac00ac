//! Public data model of the raffle ledger: participants, referrals,
//! redeemable codes, redemption records, raffles, and the result types
//! of every ledger operation.

use vstd::prelude::*;
use crate::model::{
    LedgerView, find_user, find_referral, find_code_by_id, find_code_by_name, find_used,
    find_ongoing, referees_of, used_ids_of, partecipant_data, snapshot, matches_raffle,
    records_referral, register_apply, remove_apply, redeem_outcome, redeem_apply, code_apply,
    delete_code_apply, create_raffle_apply, stop_winners, stop_apply, MAX_TABLE_ROWS,
};
use crate::ledger::{numeric_uses, CODE_LENGTH};

verus! {

/// Identity of a participant, supplied by the caller (for instance a
/// messaging-platform account id).
pub type UserID = i64;

/// Identity of a raffle row, assigned by the ledger.
pub type RaffleID = u64;

/// Seconds since the Unix epoch.
pub type Timestamp = u64;

/// Identity of a redeemable code row, assigned by the ledger.
pub type RedeemableCodeId = u64;

/// A registered entrant in the current raffle cycle. The priority is
/// never stored: it is recomputed from the referral and redemption
/// tables on every read.
#[derive(Debug, Clone, Copy, PartialEq, Eq)]
pub struct Partecipant {
    pub user_id: UserID,
    pub joined_when: Timestamp,
    /// 1 + number of referees + number of distinct codes redeemed.
    pub priority: usize,
}

/// A directed relationship recording that `referrer` invited `referee`.
/// At most one referral row exists per referee.
#[derive(Debug, Clone, Copy, PartialEq, Eq)]
pub struct Referral {
    pub referrer: UserID,
    pub referee: UserID,
}

/// A token granting bonus priority to the participant who redeems it.
/// `remaining_uses` of -1 is the sentinel for an unlimited code; a
/// stored code otherwise always has at least one use left, because a
/// code is purged as soon as its remaining uses reach exactly zero.
#[derive(Debug, Clone, PartialEq, Eq)]
pub struct RedeemableCode {
    pub code: String,
    pub unique_id: RedeemableCodeId,
    pub remaining_uses: i32,
    pub generated_when: Timestamp,
}

/// Record of one successful redemption as exposed to callers.
#[derive(Debug, Clone, PartialEq, Eq)]
pub struct UsedCode {
    pub partecpiant_user_id: UserID,
    pub code: String,
    pub used_when: Timestamp,
}

/// A raffle as returned to callers. The description is an opaque
/// payload: the ledger stores and returns it verbatim.
#[derive(Debug, Clone, PartialEq, Eq)]
pub struct Raffle {
    pub raffle_id: RaffleID,
    pub raffle_name: String,
    pub raffle_description: String,
    pub started_when: Timestamp,
}

/// Outcome of a registration attempt or of a registration-status query.
#[derive(Debug, Clone, PartialEq, Eq)]
pub enum RegistrationStatus {
    Registered(Partecipant),
    NotRegistered,
    GenericError(String),
}

/// Use policy of a redeemable code.
#[derive(Debug, Clone, Copy, PartialEq, Eq)]
pub enum CodeUseCount {
    /// Code can be used a maximum of n times.
    Counted(i32),
    /// Same as Counted(1).
    Once,
    Expired,
    Illimited,
    CodeNotValid,
}

/// Outcome of looking a code up by its human-typed string.
#[derive(Debug, Clone, PartialEq, Eq)]
pub enum CodeValidation {
    Valid(RedeemableCodeId),
    /// The string is the reason why the code is not valid.
    NotValid(String),
}

/// Outcome of a redemption attempt.
#[derive(Debug, Clone, Copy, PartialEq, Eq)]
pub enum CodeRedeemalResult {
    Redeemed,
    AlreadyRedeemed,
    NonExistingUser,
    NonExistingCode,
}

/// Outcome of an attempt to create a raffle.
#[derive(Debug, Clone, PartialEq, Eq)]
pub enum RaffleCreationResult {
    Success(Raffle),
    OngoingRaffleExists(Raffle),
    /// The string is the reason why the creation failed.
    Generic(String),
}

impl RaffleCreationResult {
    /// True exactly when the raffle was created.
    pub fn is_success(&self) -> (r: bool)
        ensures
            r == (self is Success),
    {
        match self {
            RaffleCreationResult::Success(_) => true,
            _ => false,
        }
    }
}

/// Failure of a ledger operation that is not an expected business
/// outcome: the caller is told which constraint could not be met.
#[derive(Debug, Clone, Copy, PartialEq, Eq)]
pub enum LedgerError {
    /// A raffle lifecycle operation needed an ongoing raffle.
    NoOngoingRaffle,
    /// A freshly drawn code string collided with a stored one.
    DuplicateCode,
    /// A table reached the row bound the ledger enforces.
    TableFull,
    /// The id counter for generated rows is exhausted.
    IdsExhausted,
    /// Stored rows handed to `from_rows` violate the ledger invariant.
    InvalidRows,
}

impl LedgerError {
    /// A diagnostic message for the caller to display.
    pub fn describe(&self) -> (r: &'static str)
        ensures
            r@ == self.describe_spec(),
    {
        match self {
            LedgerError::NoOngoingRaffle => "no ongoing raffle",
            LedgerError::DuplicateCode => "generated code already exists",
            LedgerError::TableFull => "ledger table is full",
            LedgerError::IdsExhausted => "no ids left for new rows",
            LedgerError::InvalidRows => "stored rows violate the ledger invariant",
        }
    }

    /// The message `describe` returns for each variant.
    pub open spec fn describe_spec(&self) -> Seq<char> {
        match self {
            LedgerError::NoOngoingRaffle => "no ongoing raffle"@,
            LedgerError::DuplicateCode => "generated code already exists"@,
            LedgerError::TableFull => "ledger table is full"@,
            LedgerError::IdsExhausted => "no ids left for new rows"@,
            LedgerError::InvalidRows => "stored rows violate the ledger invariant"@,
        }
    }
}

/// Result of a ledger operation: a domain value or a storage failure.
pub type RaffleResult<T> = Result<T, LedgerError>;

/// The operation surface of a raffle store: every business operation
/// of the ledger, specified against the mathematical contents
/// `db_view` and the invariant `db_wf` of the store.
pub trait RaffleDB: Sized {
    /// The mathematical contents of the store.
    spec fn db_view(&self) -> LedgerView;

    /// The invariant of the store: constructors establish it, every
    /// operation requires and preserves it.
    spec fn db_wf(&self) -> bool;

    /// Releases the store.
    fn close(self) -> (r: RaffleResult<()>)
        ensures
            r is Ok,
    ;

    /// Creates a raffle unless one is ongoing: an existing ongoing
    /// raffle is returned unchanged as `OngoingRaffleExists`, never as
    /// an error. The description is stored verbatim, as an opaque
    /// payload.
    fn create_raffle(&mut self, name: &str, description: &str) -> (r: RaffleResult<
        RaffleCreationResult,
    >)
        requires
            old(self).db_wf(),
        ensures
            final(self).db_wf(),
            find_ongoing(old(self).db_view().raffles) matches Some(d) ==> (r matches Ok(res) && (res
                matches RaffleCreationResult::OngoingRaffleExists(raf) && matches_raffle(raf, d)))
                && final(self).db_view() == old(self).db_view(),
            (find_ongoing(old(self).db_view().raffles) is None && old(self).db_view().next_raffle_id == u64::MAX)
                ==> r == Err::<RaffleCreationResult, LedgerError>(LedgerError::IdsExhausted)
                && final(self).db_view() == old(self).db_view(),
            (find_ongoing(old(self).db_view().raffles) is None && old(self).db_view().next_raffle_id < u64::MAX)
                ==> (exists|t: Timestamp|
                final(self).db_view() == create_raffle_apply(old(self).db_view(), name@, description@, t)) && (
            r matches Ok(res) && (res matches RaffleCreationResult::Success(raf) && matches_raffle(
                raf,
                final(self).db_view().raffles.last(),
            ))),
    ;

    /// The unique raffle that is still ongoing, if any.
    fn get_ongoing_raffle(&self) -> (r: RaffleResult<Option<Raffle>>)
        ensures
            r matches Ok(o) && ((o is Some) == (find_ongoing(self.db_view().raffles) is Some)) && (
            o matches Some(raf) ==> matches_raffle(raf, find_ongoing(self.db_view().raffles)->0)),
    ;

    /// Stops the ongoing raffle: requires one to exist (error
    /// otherwise). Atomically, the participant set is snapshot with
    /// live priorities, all per-cycle state (participants, referrals,
    /// codes, redemptions) is cleared, the raffle is marked ended, the
    /// snapshot is ranked by descending priority (ties broken by
    /// earliest joining time, then smallest user id) and the first
    /// `num_winners` are recorded as winner rows, position 0-based in
    /// ranked order, and returned with their pre-stop priorities.
    fn stop_raffle(&mut self, num_winners: usize) -> (r: RaffleResult<Vec<Partecipant>>)
        requires
            old(self).db_wf(),
        ensures
            final(self).db_wf(),
            find_ongoing(old(self).db_view().raffles) is None ==> r == Err::<Vec<Partecipant>, LedgerError>(
                LedgerError::NoOngoingRaffle,
            ) && final(self).db_view() == old(self).db_view(),
            find_ongoing(old(self).db_view().raffles) is Some ==> (exists|t: Timestamp|
                final(self).db_view() == stop_apply(old(self).db_view(), num_winners as int, t)) && (r matches Ok(w)
                && w@ == stop_winners(old(self).db_view(), num_winners as int)),
    ;

    /// The full participant set with live priorities, in registration
    /// order.
    fn get_partecipants(&self) -> (r: RaffleResult<Vec<Partecipant>>)
        requires
            self.db_wf(),
        ensures
            r matches Ok(v) && v@ == snapshot(self.db_view()),
    ;

    /// The participant `user_id` with its live priority, if registered.
    fn get_partecipant(&self, user_id: UserID) -> (r: RaffleResult<Option<Partecipant>>)
        requires
            self.db_wf(),
        ensures
            r matches Ok(o) && o == (if find_user(self.db_view().partecipants, user_id) is Some {
                Some(partecipant_data(self.db_view(), user_id))
            } else {
                Option::<Partecipant>::None
            }),
    ;

    /// Whether `user_id` is currently registered.
    fn is_partecipant(&self, user_id: UserID) -> (r: RaffleResult<bool>)
        ensures
            r matches Ok(b) && b == (find_user(self.db_view().partecipants, user_id) is Some),
    ;

    /// Registers `user_id`. Registering an already registered user
    /// reports `NotRegistered` and changes nothing. Otherwise the
    /// participant row is inserted and, in the same atomic step, a
    /// referral row is recorded exactly under `records_referral`: a
    /// referrer that is not a participant is silently dropped, and a
    /// referee that kept a referral row from an earlier registration
    /// keeps the old one. The returned participant carries the live
    /// priority, so prior redemption and referral history is inherited
    /// on re-registration.
    fn register_partecipant(&mut self, user_id: UserID, referrer: Option<UserID>) -> (r:
        RaffleResult<RegistrationStatus>)
        requires
            old(self).db_wf(),
        ensures
            final(self).db_wf(),
            find_user(old(self).db_view().partecipants, user_id) is Some ==> r == Ok::<
                RegistrationStatus,
                LedgerError,
            >(RegistrationStatus::NotRegistered) && final(self).db_view() == old(self).db_view(),
            (find_user(old(self).db_view().partecipants, user_id) is None && records_referral(
                old(self).db_view(),
                user_id,
                referrer,
            ) && old(self).db_view().referrals.len() >= MAX_TABLE_ROWS) ==> r == Err::<
                RegistrationStatus,
                LedgerError,
            >(LedgerError::TableFull) && final(self).db_view() == old(self).db_view(),
            (find_user(old(self).db_view().partecipants, user_id) is None && !(records_referral(
                old(self).db_view(),
                user_id,
                referrer,
            ) && old(self).db_view().referrals.len() >= MAX_TABLE_ROWS)) ==> (exists|t: Timestamp|
                final(self).db_view() == register_apply(old(self).db_view(), user_id, referrer, t)) && r == Ok::<
                RegistrationStatus,
                LedgerError,
            >(RegistrationStatus::Registered(partecipant_data(final(self).db_view(), user_id))),
    ;

    /// Removes the participant row of `user_id` and reports whether
    /// one was there. Referral and redemption history is retained on
    /// purpose: a participant who leaves and rejoins keeps the earned
    /// priority.
    fn remove_partecipant(&mut self, user_id: UserID) -> (r: RaffleResult<bool>)
        requires
            old(self).db_wf(),
        ensures
            final(self).db_wf(),
            r matches Ok(b) && b == (find_user(old(self).db_view().partecipants, user_id) is Some),
            final(self).db_view() == remove_apply(old(self).db_view(), user_id),
    ;

    /// Registration status of `user_id`: the participant with its live
    /// priority, or `NotRegistered`.
    fn get_registration_status(&self, user_id: UserID) -> (r: RaffleResult<RegistrationStatus>)
        requires
            self.db_wf(),
        ensures
            r matches Ok(st) && st == (if find_user(self.db_view().partecipants, user_id) is Some {
                RegistrationStatus::Registered(partecipant_data(self.db_view(), user_id))
            } else {
                RegistrationStatus::NotRegistered
            }),
    ;

    /// The referees of `user_id`: everyone this user invited, in
    /// registration order.
    fn get_referees_of_user(&self, user_id: UserID) -> (r: RaffleResult<Vec<UserID>>)
        ensures
            r matches Ok(v) && v@ == referees_of(self.db_view().referrals, user_id),
    ;

    /// The referrer of `user_id`, if a referral was recorded for them.
    fn get_referrer_of_user(&self, user_id: UserID) -> (r: RaffleResult<Option<UserID>>)
        ensures
            r matches Ok(o) && o == (match find_referral(self.db_view().referrals, user_id) {
                Some(row) => Some(row.referrer),
                None => Option::<UserID>::None,
            }),
    ;

    /// Generates a code with a fresh random 8-character string drawn
    /// from the bounded alphanumeric range, under the given use policy:
    /// `Once` gives 1 use, `Counted(n)` gives n, `Illimited` stores the
    /// sentinel -1. A collision of the random string with a stored code
    /// is an insertion failure, surfaced as `DuplicateCode` without a
    /// retry; it can only arise when some stored code has the generated
    /// length, so while no such code is stored (and ids are left),
    /// generation is owed success.
    fn generate_raffle_code(&mut self, use_count: CodeUseCount) -> (r: RaffleResult<
        RedeemableCode,
    >)
        requires
            old(self).db_wf(),
            use_count matches CodeUseCount::Counted(n) ==> n >= 1,
            !(use_count is Expired),
            !(use_count is CodeNotValid),
        ensures
            final(self).db_wf(),
            r matches Err(e) ==> final(self).db_view() == old(self).db_view() && (e == LedgerError::DuplicateCode
                || (e == LedgerError::IdsExhausted && old(self).db_view().next_code_id == u64::MAX)),
            r == Err::<RedeemableCode, LedgerError>(LedgerError::DuplicateCode) ==> exists|k: int|
                0 <= k < old(self).db_view().codes.len() && #[trigger] old(
                    self,
                ).db_view().codes[k].code.len() == CODE_LENGTH,
            ((forall|k: int|
                0 <= k < old(self).db_view().codes.len() ==> #[trigger] old(
                    self,
                ).db_view().codes[k].code.len() != CODE_LENGTH) && old(self).db_view().next_code_id
                < u64::MAX) ==> r is Ok,
            old(self).db_view().next_code_id == u64::MAX ==> r is Err,
            r matches Ok(c) ==> c@.unique_id == old(self).db_view().next_code_id && c@.remaining_uses
                == numeric_uses(use_count) && c@.code.len() == CODE_LENGTH && c@
                == final(self).db_view().codes.last() && (exists|t: Timestamp|
                final(self).db_view() == code_apply(old(self).db_view(), c@.code, numeric_uses(use_count), t)),
            r matches Ok(c) ==> forall|i: int|
                0 <= i < c@.code.len() ==> 0x30 <= #[trigger] c@.code[i] as u32 && (c@.code[i]
                    as u32) < 0x5A,
    ;

    /// Every stored code, in generation order.
    fn get_raffle_codes(&self) -> (r: RaffleResult<Vec<RedeemableCode>>)
        ensures
            r matches Ok(v) && v@.len() == self.db_view().codes.len() && (forall|k: int|
                0 <= k < v@.len() ==> #[trigger] v@[k]@ == self.db_view().codes[k]),
    ;

    /// The ids of the codes `user_id` redeemed, in redemption order.
    /// Redemption history survives the purge of a code and the removal
    /// of the participant.
    fn get_raffle_codes_used_by_user(&self, user_id: UserID) -> (r: RaffleResult<
        Vec<RedeemableCodeId>,
    >)
        ensures
            r matches Ok(v) && v@ == used_ids_of(self.db_view().used, user_id),
    ;

    /// The stored code with the given human-typed string, if any.
    fn get_raffle_code_by_name(&self, name: &str) -> (r: RaffleResult<Option<RedeemableCode>>)
        ensures
            r matches Ok(o) && ((o is Some) == (find_code_by_name(self.db_view().codes, name@) is Some)) && (
            o matches Some(c) ==> c@ == find_code_by_name(self.db_view().codes, name@)->0),
    ;

    /// The stored code with the given id, if any.
    fn get_raffle_code_by_id(&self, code: RedeemableCodeId) -> (r: RaffleResult<
        Option<RedeemableCode>,
    >)
        ensures
            r matches Ok(o) && ((o is Some) == (find_code_by_id(self.db_view().codes, code) is Some)) && (
            o matches Some(c) ==> c@ == find_code_by_id(self.db_view().codes, code)->0),
    ;

    /// Whether the participant already redeemed the code.
    fn partecipant_has_redeemed_code(
        &self,
        partecipant_id: UserID,
        code_id: RedeemableCodeId,
    ) -> (r: RaffleResult<bool>)
        ensures
            r matches Ok(b) && b == (find_used(self.db_view().used, partecipant_id, code_id) is Some),
    ;

    /// Deletes the code with the given id and reports whether a row
    /// was there. Redemption history referring to the code is kept.
    fn delete_raffle_code(&mut self, code: RedeemableCodeId) -> (r: RaffleResult<bool>)
        requires
            old(self).db_wf(),
        ensures
            final(self).db_wf(),
            r matches Ok(b) && b == (find_code_by_id(old(self).db_view().codes, code) is Some),
            final(self).db_view() == delete_code_apply(old(self).db_view(), code),
    ;

    /// Pure lookup by code string: `Valid` exactly when a row with the
    /// string exists. Exhaustion needs no check here, because a spent
    /// code is purged and so has no row.
    fn validate_code(&self, code: &str) -> (r: RaffleResult<CodeValidation>)
        ensures
            find_code_by_name(self.db_view().codes, code@) matches Some(c) ==> r == Ok::<
                CodeValidation,
                LedgerError,
            >(CodeValidation::Valid(c.unique_id)),
            find_code_by_name(self.db_view().codes, code@) is None ==> (r matches Ok(cv) && (cv matches
            CodeValidation::NotValid(reason) && reason@ == "Code not found"@)),
    ;

    /// Redeems `code_id` for `user_id`: checks registration, code
    /// existence and prior redemption in that order, and on success
    /// atomically records the redemption, takes one use off the code
    /// unless it is unlimited, and purges any code whose remaining
    /// uses reached exactly 0.
    fn redeem_code(&mut self, user_id: UserID, code_id: RedeemableCodeId) -> (r: RaffleResult<
        CodeRedeemalResult,
    >)
        requires
            old(self).db_wf(),
        ensures
            final(self).db_wf(),
            redeem_outcome(old(self).db_view(), user_id, code_id) != CodeRedeemalResult::Redeemed ==> r
                == Ok::<CodeRedeemalResult, LedgerError>(
                redeem_outcome(old(self).db_view(), user_id, code_id),
            ) && final(self).db_view() == old(self).db_view(),
            (redeem_outcome(old(self).db_view(), user_id, code_id) == CodeRedeemalResult::Redeemed
                && old(self).db_view().used.len() >= MAX_TABLE_ROWS) ==> r == Err::<CodeRedeemalResult, LedgerError>(
                LedgerError::TableFull,
            ) && final(self).db_view() == old(self).db_view(),
            (redeem_outcome(old(self).db_view(), user_id, code_id) == CodeRedeemalResult::Redeemed
                && old(self).db_view().used.len() < MAX_TABLE_ROWS) ==> r == Ok::<CodeRedeemalResult, LedgerError>(
                CodeRedeemalResult::Redeemed,
            ) && (exists|t: Timestamp|
                final(self).db_view() == redeem_apply(old(self).db_view(), user_id, code_id, t)),
    ;
}

} // verus!
