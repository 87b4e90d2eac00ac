use userdb::config::{is_admin, is_manager, target_chat, Config};
use userdb::db::{
    CodeRedeemalResult, CodeUseCount, CodeValidation, LedgerError, RaffleCreationResult,
    RegistrationStatus,
};
use userdb::db::{RaffleDB, Referral, RedeemableCode};
use userdb::ledger::{Ledger, RaffleRow};
use userdb::model::{PartRow, UsedRow};

#[test]
fn redeem_twice_same_pair() {
    let mut db = Ledger::create().unwrap();
    db.register_partecipant(1, None).unwrap();
    let code = db.generate_raffle_code(CodeUseCount::Counted(5)).unwrap();
    assert_eq!(db.redeem_code(1, code.unique_id).unwrap(), CodeRedeemalResult::Redeemed);
    assert_eq!(db.redeem_code(1, code.unique_id).unwrap(), CodeRedeemalResult::AlreadyRedeemed);
    assert_eq!(db.redeem_code(1, code.unique_id).unwrap(), CodeRedeemalResult::AlreadyRedeemed);
}

#[test]
fn counted_code_decrements_and_purges() {
    let mut db = Ledger::create().unwrap();
    db.register_partecipant(1, None).unwrap();
    db.register_partecipant(2, None).unwrap();
    let code = db.generate_raffle_code(CodeUseCount::Counted(2)).unwrap();
    assert_eq!(code.remaining_uses, 2);
    assert_eq!(db.redeem_code(1, code.unique_id).unwrap(), CodeRedeemalResult::Redeemed);
    assert_eq!(
        db.get_raffle_code_by_id(code.unique_id).unwrap().unwrap().remaining_uses,
        1
    );
    assert_eq!(db.redeem_code(2, code.unique_id).unwrap(), CodeRedeemalResult::Redeemed);
    assert_eq!(db.get_raffle_code_by_id(code.unique_id).unwrap(), None);
}

#[test]
fn counted_code_two_users_then_gone() {
    let mut db = Ledger::create().unwrap();
    db.register_partecipant(1, None).unwrap();
    db.register_partecipant(2, None).unwrap();
    db.register_partecipant(3, None).unwrap();
    let code = db.generate_raffle_code(CodeUseCount::Counted(2)).unwrap();
    assert_eq!(db.redeem_code(1, code.unique_id).unwrap(), CodeRedeemalResult::Redeemed);
    assert_eq!(db.redeem_code(2, code.unique_id).unwrap(), CodeRedeemalResult::Redeemed);
    assert_eq!(db.redeem_code(3, code.unique_id).unwrap(), CodeRedeemalResult::NonExistingCode);
}

#[test]
fn unlimited_code_never_purged() {
    let mut db = Ledger::create().unwrap();
    for u in 1..6 {
        db.register_partecipant(u, None).unwrap();
    }
    let code = db.generate_raffle_code(CodeUseCount::Illimited).unwrap();
    assert_eq!(code.remaining_uses, -1);
    for u in 1..6 {
        assert_eq!(db.redeem_code(u, code.unique_id).unwrap(), CodeRedeemalResult::Redeemed);
        let stored = db.get_raffle_code_by_id(code.unique_id).unwrap().unwrap();
        assert_eq!(stored.remaining_uses, -1);
    }
    assert!(match db.validate_code(code.code.as_str()).unwrap() {
        CodeValidation::Valid(id) => id == code.unique_id,
        _ => false,
    });
}

#[test]
fn second_raffle_refused_while_ongoing() {
    let mut db = Ledger::create().unwrap();
    let first = db.create_raffle("First", "payload-1").unwrap();
    assert!(first.is_success());
    let first_raffle = db.get_ongoing_raffle().unwrap().unwrap();
    let second = db.create_raffle("Second", "payload-2").unwrap();
    assert!(!second.is_success());
    match second {
        RaffleCreationResult::OngoingRaffleExists(existing) => {
            assert_eq!(existing.raffle_id, first_raffle.raffle_id);
            assert_eq!(existing.raffle_name, "First");
        },
        _ => panic!("expected the ongoing raffle to be returned"),
    }
    let ongoing = db.get_ongoing_raffle().unwrap().unwrap();
    assert_eq!(ongoing.raffle_id, first_raffle.raffle_id);
}

#[test]
fn example_scenario_referral_and_stop() {
    let mut db = Ledger::create().unwrap();
    db.create_raffle("Spring", "payload").unwrap();
    let a = 100;
    let b = 200;
    let c = 300;
    db.register_partecipant(a, None).unwrap();
    db.register_partecipant(b, None).unwrap();
    db.register_partecipant(c, Some(b)).unwrap();
    let code = db.generate_raffle_code(CodeUseCount::Once).unwrap();
    assert_eq!(db.redeem_code(b, code.unique_id).unwrap(), CodeRedeemalResult::Redeemed);

    // Priority is 1 + referees + distinct codes redeemed: B has one
    // referee (C) and one redemption.
    assert_eq!(db.get_partecipant(a).unwrap().unwrap().priority, 1);
    assert_eq!(db.get_partecipant(b).unwrap().unwrap().priority, 3);
    assert_eq!(db.get_partecipant(c).unwrap().unwrap().priority, 1);

    let winners = db.stop_raffle(1).unwrap();
    assert_eq!(winners.len(), 1);
    assert_eq!(winners[0].user_id, b);
    assert_eq!(winners[0].priority, 3);

    // The whole per-cycle state is cleared and the raffle is closed.
    assert_eq!(db.get_partecipants().unwrap().len(), 0);
    assert!(db.get_ongoing_raffle().unwrap().is_none());
    assert_eq!(db.get_referees_of_user(b).unwrap().len(), 0);
    assert_eq!(db.get_raffle_codes().unwrap().len(), 0);
    assert_eq!(db.get_raffle_codes_used_by_user(b).unwrap().len(), 0);
}

#[test]
fn priority_tracks_referrals_and_codes() {
    let mut db = Ledger::create().unwrap();
    db.register_partecipant(1, None).unwrap();
    assert_eq!(db.get_partecipant(1).unwrap().unwrap().priority, 1);
    db.register_partecipant(2, Some(1)).unwrap();
    assert_eq!(db.get_partecipant(1).unwrap().unwrap().priority, 2);
    db.register_partecipant(3, Some(1)).unwrap();
    assert_eq!(db.get_partecipant(1).unwrap().unwrap().priority, 3);
    let code = db.generate_raffle_code(CodeUseCount::Counted(5)).unwrap();
    db.redeem_code(1, code.unique_id).unwrap();
    assert_eq!(db.get_partecipant(1).unwrap().unwrap().priority, 4);
    assert!(db.remove_partecipant(3).unwrap());
    // Referees are counted from referral rows, which are retained.
    assert_eq!(db.get_partecipant(1).unwrap().unwrap().priority, 4);
}

#[test]
fn remove_nonparticipant_and_twice() {
    let mut db = Ledger::create().unwrap();
    assert!(!db.remove_partecipant(42).unwrap());
    db.register_partecipant(42, None).unwrap();
    assert!(db.remove_partecipant(42).unwrap());
    assert!(!db.remove_partecipant(42).unwrap());
}

#[test]
fn rejoining_keeps_history() {
    let mut db = Ledger::create().unwrap();
    db.register_partecipant(1, None).unwrap();
    db.register_partecipant(2, Some(1)).unwrap();
    let code = db.generate_raffle_code(CodeUseCount::Counted(3)).unwrap();
    db.redeem_code(2, code.unique_id).unwrap();
    assert_eq!(db.get_partecipant(2).unwrap().unwrap().priority, 2);
    assert!(db.remove_partecipant(2).unwrap());
    assert_eq!(db.get_partecipant(2).unwrap(), None);
    // Rejoining with a different referrer keeps the old referral row.
    db.register_partecipant(3, None).unwrap();
    let status = db.register_partecipant(2, Some(3)).unwrap();
    match status {
        RegistrationStatus::Registered(p) => assert_eq!(p.priority, 2),
        _ => panic!("expected a successful registration"),
    }
    assert_eq!(db.get_referrer_of_user(2).unwrap(), Some(1));
    assert_eq!(db.get_referees_of_user(3).unwrap().len(), 0);
}

#[test]
fn referral_silently_dropped_for_unknown_referrer() {
    let mut db = Ledger::create().unwrap();
    let status = db.register_partecipant(5, Some(999)).unwrap();
    assert!(matches!(status, RegistrationStatus::Registered(_)));
    assert_eq!(db.get_referrer_of_user(5).unwrap(), None);
}

#[test]
fn self_referral_counts_at_commit_time() {
    let mut db = Ledger::create().unwrap();
    // The referrer check runs once the new participant row is in, as
    // in the storage-backed design, so naming yourself records a row.
    db.register_partecipant(7, Some(7)).unwrap();
    assert_eq!(db.get_referrer_of_user(7).unwrap(), Some(7));
    assert_eq!(db.get_partecipant(7).unwrap().unwrap().priority, 2);
}

#[test]
fn already_registered_reports_not_registered() {
    let mut db = Ledger::create().unwrap();
    db.register_partecipant(9, None).unwrap();
    let before = db.get_partecipants().unwrap().len();
    assert_eq!(db.register_partecipant(9, None).unwrap(), RegistrationStatus::NotRegistered);
    assert_eq!(db.get_partecipants().unwrap().len(), before);
}

#[test]
fn redeem_error_variants() {
    let mut db = Ledger::create().unwrap();
    let code = db.generate_raffle_code(CodeUseCount::Once).unwrap();
    assert_eq!(
        db.redeem_code(1, code.unique_id).unwrap(),
        CodeRedeemalResult::NonExistingUser
    );
    db.register_partecipant(1, None).unwrap();
    assert_eq!(db.redeem_code(1, 424242).unwrap(), CodeRedeemalResult::NonExistingCode);
}

#[test]
fn stop_without_ongoing_raffle_fails() {
    let mut db = Ledger::create().unwrap();
    assert_eq!(db.stop_raffle(1).unwrap_err(), LedgerError::NoOngoingRaffle);
    assert_eq!(
        db.stop_raffle(1).unwrap_err().describe(),
        "no ongoing raffle"
    );
}

#[test]
fn duplicate_code_string_is_an_error() {
    let mut db = Ledger::create().unwrap();
    let first = db.insert_code_with(String::from("FIXED123"), 1).unwrap();
    assert_eq!(first.code, "FIXED123");
    assert_eq!(
        db.insert_code_with(String::from("FIXED123"), 5).unwrap_err(),
        LedgerError::DuplicateCode
    );
}

#[test]
fn validate_unknown_code() {
    let db = Ledger::create().unwrap();
    match db.validate_code("NOSUCH99").unwrap() {
        CodeValidation::NotValid(reason) => assert_eq!(reason, "Code not found"),
        CodeValidation::Valid(_) => panic!("an empty ledger holds no codes"),
    }
}

#[test]
fn generated_code_shape() {
    let mut db = Ledger::create().unwrap();
    let code = db.generate_raffle_code(CodeUseCount::Once).unwrap();
    assert_eq!(code.code.len(), 8);
    for c in code.code.chars() {
        assert!(c >= '0' && c < 'Z');
    }
    assert_eq!(code.remaining_uses, 1);
    let counted = db.generate_raffle_code(CodeUseCount::Counted(7)).unwrap();
    assert_eq!(counted.remaining_uses, 7);
    assert!(counted.unique_id != code.unique_id);
    let by_name = db.get_raffle_code_by_name(code.code.as_str()).unwrap().unwrap();
    assert_eq!(by_name.unique_id, code.unique_id);
}

#[test]
fn winners_ranked_by_priority() {
    let mut db = Ledger::create().unwrap();
    db.create_raffle("Ranked", "payload").unwrap();
    for u in 1..5 {
        db.register_partecipant(u, None).unwrap();
    }
    // User 3 earns two extra points, user 2 one.
    db.register_partecipant(30, Some(3)).unwrap();
    db.register_partecipant(31, Some(3)).unwrap();
    db.register_partecipant(20, Some(2)).unwrap();
    let winners = db.stop_raffle(2).unwrap();
    assert_eq!(winners.len(), 2);
    assert_eq!(winners[0].user_id, 3);
    assert_eq!(winners[0].priority, 3);
    assert_eq!(winners[1].user_id, 2);
    assert_eq!(winners[1].priority, 2);
}

#[test]
fn stop_returns_all_when_fewer_than_asked() {
    let mut db = Ledger::create().unwrap();
    db.create_raffle("Small", "payload").unwrap();
    db.register_partecipant(1, None).unwrap();
    db.register_partecipant(2, None).unwrap();
    let winners = db.stop_raffle(10).unwrap();
    assert_eq!(winners.len(), 2);
}

#[test]
fn has_redeemed_and_used_codes() {
    let mut db = Ledger::create().unwrap();
    db.register_partecipant(1, None).unwrap();
    let code = db.generate_raffle_code(CodeUseCount::Counted(2)).unwrap();
    assert!(!db.partecipant_has_redeemed_code(1, code.unique_id).unwrap());
    db.redeem_code(1, code.unique_id).unwrap();
    assert!(db.partecipant_has_redeemed_code(1, code.unique_id).unwrap());
    let used = db.get_raffle_codes_used_by_user(1).unwrap();
    assert_eq!(used, vec![code.unique_id]);
}

#[test]
fn code_listing_and_deletion() {
    let mut db = Ledger::create().unwrap();
    let c1 = db.generate_raffle_code(CodeUseCount::Once).unwrap();
    let c2 = db.generate_raffle_code(CodeUseCount::Illimited).unwrap();
    let all = db.get_raffle_codes().unwrap();
    assert_eq!(all.len(), 2);
    assert_eq!(all[0].unique_id, c1.unique_id);
    assert_eq!(all[1].unique_id, c2.unique_id);
    assert!(db.delete_raffle_code(c1.unique_id).unwrap());
    assert_eq!(db.get_raffle_codes().unwrap().len(), 1);
}

#[test]
fn is_partecipant_tracks_registry() {
    let mut db = Ledger::create().unwrap();
    assert!(!db.is_partecipant(8).unwrap());
    db.register_partecipant(8, None).unwrap();
    assert!(db.is_partecipant(8).unwrap());
    let status = db.get_registration_status(8).unwrap();
    assert!(matches!(status, RegistrationStatus::Registered(_)));
}

#[test]
fn config_gates() {
    let config = Config { manager: 1, target_chat: -100, admin_users: vec![2, 3] };
    assert_eq!(target_chat(&config), -100);
    assert!(is_manager(&config, 1));
    assert!(!is_manager(&config, 2));
    assert!(is_admin(&config, 1));
    assert!(is_admin(&config, 2));
    assert!(is_admin(&config, 3));
    assert!(!is_admin(&config, 4));
}

#[test]
fn from_rows_rebuilds_a_ledger() {
    let partecipants = vec![
        PartRow { user_id: 1, joined_when: 100 },
        PartRow { user_id: 2, joined_when: 101 },
    ];
    let referrals = vec![Referral { referrer: 1, referee: 2 }];
    let codes = vec![RedeemableCode {
        code: String::from("AAAA1111"),
        unique_id: 1,
        remaining_uses: 3,
        generated_when: 100,
    }];
    let used = vec![UsedRow { user_id: 1, code_id: 1, used_when: 102 }];
    let raffles = vec![RaffleRow {
        raffle_id: 1,
        raffle_name: String::from("Reloaded"),
        raffle_description: String::from("payload"),
        started_when: 99,
        ended_when: None,
    }];
    let db = Ledger::from_rows(partecipants, referrals, codes, used, raffles, vec![], 2, 2)
        .unwrap();
    assert!(db.is_partecipant(1).unwrap());
    assert!(db.is_partecipant(2).unwrap());
    assert_eq!(db.get_referrer_of_user(2).unwrap(), Some(1));
    // 1 has a referee and a redeemed code; 2 only the base point.
    assert_eq!(db.get_partecipant(1).unwrap().unwrap().priority, 3);
    assert_eq!(db.get_partecipant(2).unwrap().unwrap().priority, 1);
    let code = db.get_raffle_code_by_id(1).unwrap().unwrap();
    assert_eq!(code.code, "AAAA1111");
    assert_eq!(code.remaining_uses, 3);
    assert!(db.partecipant_has_redeemed_code(1, 1).unwrap());
    assert_eq!(db.get_ongoing_raffle().unwrap().unwrap().raffle_name, "Reloaded");
}

#[test]
fn from_rows_refuses_broken_rows() {
    // Duplicate user ids.
    let twice = vec![
        PartRow { user_id: 1, joined_when: 100 },
        PartRow { user_id: 1, joined_when: 101 },
    ];
    assert_eq!(
        Ledger::from_rows(twice, vec![], vec![], vec![], vec![], vec![], 1, 1).unwrap_err(),
        LedgerError::InvalidRows
    );
    // A code id not below the next free id.
    let code = vec![RedeemableCode {
        code: String::from("BBBB2222"),
        unique_id: 5,
        remaining_uses: -1,
        generated_when: 100,
    }];
    assert_eq!(
        Ledger::from_rows(vec![], vec![], code, vec![], vec![], vec![], 5, 1).unwrap_err(),
        LedgerError::InvalidRows
    );
    // Two raffles still ongoing.
    let open_raffle = |id: u64| RaffleRow {
        raffle_id: id,
        raffle_name: String::from("R"),
        raffle_description: String::from("d"),
        started_when: 99,
        ended_when: None,
    };
    let two_open = vec![open_raffle(1), open_raffle(2)];
    assert_eq!(
        Ledger::from_rows(vec![], vec![], vec![], vec![], two_open, vec![], 1, 3).unwrap_err(),
        LedgerError::InvalidRows
    );
    // A spent code (exactly 0 remaining uses) may not be stored.
    let spent = vec![RedeemableCode {
        code: String::from("CCCC3333"),
        unique_id: 1,
        remaining_uses: 0,
        generated_when: 100,
    }];
    assert_eq!(
        Ledger::from_rows(vec![], vec![], spent, vec![], vec![], vec![], 2, 1).unwrap_err(),
        LedgerError::InvalidRows
    );
}
