use ballot::address::Address;
use ballot::ballot::{Ballot, Error};
use ballot::ledger::Ledger;
use ballot::storage::{get_candidates, get_config, get_token, get_votes, Config};
use ballot::symbol::Symbol;
use ballot::token::{BallotToken, Standing};

struct TestData {
    admin: Address,
    voters: Vec<Address>,
    token: BallotToken,
    token_address: Address,
}

fn get_test_data(num_voters: u8) -> TestData {
    let admin = Address::new("admin");
    let mut voters = Vec::new();
    let mut token = BallotToken::new();
    token.initialize(admin.clone()).unwrap();

    for i in 0..num_voters {
        let addr = Address::new(&format!("voter-{}", i));
        token.mint(addr.clone()).unwrap();
        voters.push(addr);
    }

    TestData { admin, voters, token, token_address: Address::new("token") }
}

fn create_client() -> Ballot {
    Ballot::new()
}

fn at(timestamp: u64) -> Ledger {
    Ledger::new(timestamp, 0)
}

const TS_START: u64 = 1689238800; // 2023-07-13 09:00:00
const TS_END: u64 = 1689551999; // 2023-07-16 23:59:59

#[test]
fn vote_test() {
    let ledger = at(1689238844);
    let mut client = create_client();
    let mut test_data = get_test_data(5);

    let ts_start: u64 = 1689238800;
    let ts_end: u64 = 1689551999;

    client
        .configure(test_data.admin.clone(), test_data.token_address.clone(), ts_start, ts_end)
        .unwrap();
    assert_eq!(
        client.vote(&test_data.token, &ledger, test_data.voters[0].clone(), Symbol::new("Laborist")),
        Ok(true)
    );
    assert_eq!(
        client.vote(&test_data.token, &ledger, test_data.voters[1].clone(), Symbol::new("Conserv")),
        Ok(true)
    );
    assert_eq!(
        client.vote(&test_data.token, &ledger, test_data.voters[2].clone(), Symbol::new("Conserv")),
        Ok(true)
    );

    let count = client.count(test_data.admin.clone());

    assert_eq!(count.get(&Symbol::new("Laborist")).unwrap(), 1);
    assert_eq!(count.get(&Symbol::new("Conserv")).unwrap(), 2);

    client
        .delegate(
            &mut test_data.token,
            &ledger,
            test_data.voters[3].clone(),
            test_data.voters[4].clone(),
        )
        .unwrap();
    assert_eq!(
        client.vote(&test_data.token, &ledger, test_data.voters[4].clone(), Symbol::new("Conserv")),
        Ok(true)
    );

    let count = client.count(test_data.admin.clone());

    assert_eq!(count.get(&Symbol::new("Laborist")).unwrap(), 1);
    assert_eq!(count.get(&Symbol::new("Conserv")).unwrap(), 4);
}

#[test]
fn vote_out_of_dates_test() {
    let ledger = Ledger::default();
    let mut client = create_client();
    let test_data = get_test_data(1);

    let ts_start: u64 = 1689238800;
    let ts_end: u64 = 1689551999;

    client.configure(test_data.admin, test_data.token_address, ts_start, ts_end).unwrap();
    let refused =
        client.vote(&test_data.token, &ledger, test_data.voters[0].clone(), Symbol::new("Laborist"));
    assert_eq!(refused, Err(Error::BallotOutOfDate));
    assert_eq!(refused.unwrap_err().code(), 6);
}

#[test]
fn vote_test_already_voted() {
    let mut client = create_client();
    let test_data = get_test_data(1);
    let ledger = at(1689238844);

    let ts_start: u64 = 1689238800;
    let ts_end: u64 = 1689551999;

    let voter = test_data.voters[0].clone();
    client.configure(test_data.admin, test_data.token_address, ts_start, ts_end).unwrap();
    client.vote(&test_data.token, &ledger, voter.clone(), Symbol::new("Laborist")).unwrap();
    let refused = client.vote(&test_data.token, &ledger, voter, Symbol::new("Laborist"));
    assert_eq!(refused, Err(Error::VoterHasAlreadyVoted));
    assert_eq!(refused.unwrap_err().code(), 2);
    assert_eq!(client.count(Address::new("admin")).get(&Symbol::new("Laborist")), Some(1));
}

#[test]
fn voter_cannot_delegate_since_does_not_hold_token() {
    let client = {
        let mut client = create_client();
        client
            .configure(Address::new("admin"), Address::new("token"), 1689238800, 1689551999)
            .unwrap();
        client
    };
    let mut test_data = get_test_data(0);
    let ledger = at(1689238844);

    let voter1 = Address::new("voter1");
    let voter2 = Address::new("voter2");

    let refused = client.delegate(&mut test_data.token, &ledger, voter1, voter2);
    assert_eq!(refused, Err(Error::VoterDoesNotHoldToken));
    assert_eq!(refused.unwrap_err().code(), 7);
}

#[test]
fn voter_cannot_delegate_since_target_does_not_hold_token() {
    let mut client = create_client();
    let mut test_data = get_test_data(0);
    let ledger = at(1689238844);

    let ts_start: u64 = 1689238800;
    let ts_end: u64 = 1689551999;
    let voter1 = Address::new("voter1");
    let voter2 = Address::new("voter2");

    test_data.token.mint(voter1.clone()).unwrap();
    client.configure(test_data.admin, test_data.token_address, ts_start, ts_end).unwrap();
    let refused = client.delegate(&mut test_data.token, &ledger, voter1.clone(), voter2);
    assert_eq!(refused, Err(Error::VoterDoesNotHoldToken));
    assert_eq!(refused.unwrap_err().code(), 7);
    assert!(!test_data.token.blocking(&ledger, voter1));
}

#[test]
fn voter_cannot_delegate_since_it_has_voted() {
    let mut client = create_client();
    let mut test_data = get_test_data(2);
    let ledger = at(1689238844);

    let ts_start: u64 = 1689238800;
    let ts_end: u64 = 1689551999;
    let voter1 = test_data.voters[0].clone();
    let voter2 = test_data.voters[1].clone();

    client.configure(test_data.admin, test_data.token_address, ts_start, ts_end).unwrap();
    client.vote(&test_data.token, &ledger, voter1.clone(), Symbol::new("Laborist")).unwrap();
    let refused = client.delegate(&mut test_data.token, &ledger, voter1, voter2);
    assert_eq!(refused, Err(Error::VoterOriginHasAlreadyVotedAndCannotDelegate));
    assert_eq!(refused.unwrap_err().code(), 4);
}

#[test]
fn vote_cannot_be_delegated_since_target_has_voted() {
    let mut client = create_client();
    let mut test_data = get_test_data(2);
    let ledger = at(1689238844);

    let ts_start: u64 = 1689238800;
    let ts_end: u64 = 1689551999;
    let voter1 = test_data.voters[0].clone();
    let voter2 = test_data.voters[1].clone();

    client.configure(test_data.admin, test_data.token_address, ts_start, ts_end).unwrap();
    client.vote(&test_data.token, &ledger, voter2.clone(), Symbol::new("Laborist")).unwrap();
    let refused = client.delegate(&mut test_data.token, &ledger, voter1, voter2);
    assert_eq!(refused, Err(Error::VoterTargetHasAlreadyVotedAndCannotDelegate));
    assert_eq!(refused.unwrap_err().code(), 5);
}

#[test]
fn voter_has_already_delegated_its_vote() {
    let mut client = create_client();
    let mut test_data = get_test_data(2);
    let ledger = at(1689238844);

    let ts_start: u64 = 1689238800;
    let ts_end: u64 = 1689551999;
    let voter1 = test_data.voters[0].clone();
    let voter2 = test_data.voters[1].clone();

    client.configure(test_data.admin, test_data.token_address, ts_start, ts_end).unwrap();
    client.delegate(&mut test_data.token, &ledger, voter1.clone(), voter2.clone()).unwrap();
    let refused = client.delegate(&mut test_data.token, &ledger, voter1, voter2);
    assert_eq!(refused, Err(Error::VoterHasHisVoteDelegated));
    assert_eq!(refused.unwrap_err().code(), 1);
}

#[test]
fn voter_target_has_already_a_delegated_vote() {
    let mut client = create_client();
    let mut test_data = get_test_data(3);
    let ledger = at(1689238844);

    let ts_start: u64 = 1689238800;
    let ts_end: u64 = 1689551999;
    let voter1 = test_data.voters[0].clone();
    let voter2 = test_data.voters[1].clone();
    let voter3 = test_data.voters[2].clone();

    client.configure(test_data.admin, test_data.token_address, ts_start, ts_end).unwrap();
    client.delegate(&mut test_data.token, &ledger, voter1, voter2.clone()).unwrap();
    let refused = client.delegate(&mut test_data.token, &ledger, voter3.clone(), voter2);
    assert_eq!(refused, Err(Error::VoterHasDelegatedVote));
    assert_eq!(refused.unwrap_err().code(), 3);
    assert!(!test_data.token.blocking(&ledger, voter3));
}

fn configured() -> Ballot {
    let mut client = create_client();
    client.configure(Address::new("admin"), Address::new("token"), TS_START, TS_END).unwrap();
    client
}

#[test]
fn voter_without_token_cannot_vote() {
    let mut client = configured();
    let test_data = get_test_data(1);
    // The missing token is reported before the closed window.
    let refused = client.vote(
        &test_data.token,
        &Ledger::default(),
        Address::new("stranger"),
        Symbol::new("Laborist"),
    );
    assert_eq!(refused, Err(Error::VoterDoesNotHoldToken));
    assert_eq!(refused.unwrap_err().code(), 7);
    assert_eq!(client.count(Address::new("admin")).get(&Symbol::new("Laborist")), None);
}

#[test]
fn delegated_voter_cannot_vote() {
    let mut client = configured();
    let mut test_data = get_test_data(2);
    let ledger = at(1689238844);
    let a = test_data.voters[0].clone();
    let b = test_data.voters[1].clone();

    client.delegate(&mut test_data.token, &ledger, a.clone(), b).unwrap();
    let refused = client.vote(&test_data.token, &ledger, a.clone(), Symbol::new("Laborist"));
    assert_eq!(refused, Err(Error::VoterHasHisVoteDelegated));
    assert_eq!(refused.unwrap_err().code(), 1);
    assert!(get_votes(client.storage()).is_empty());
    assert!(get_candidates(client.storage()).is_empty());
}

#[test]
fn delegation_out_of_dates() {
    let client = configured();
    let mut test_data = get_test_data(2);
    let a = test_data.voters[0].clone();
    let b = test_data.voters[1].clone();

    let refused = client.delegate(&mut test_data.token, &at(TS_END + 1), a.clone(), b);
    assert_eq!(refused, Err(Error::BallotOutOfDate));
    assert!(!test_data.token.blocking(&Ledger::default(), a));
}

#[test]
fn window_bounds_are_included() {
    let mut client = configured();
    let test_data = get_test_data(4);
    let cast = |client: &mut Ballot, i: usize, ts: u64| {
        client.vote(&test_data.token, &at(ts), test_data.voters[i].clone(), Symbol::new("Laborist"))
    };
    assert_eq!(cast(&mut client, 0, TS_START - 1), Err(Error::BallotOutOfDate));
    assert_eq!(cast(&mut client, 0, TS_START), Ok(true));
    assert_eq!(cast(&mut client, 1, TS_END), Ok(true));
    assert_eq!(cast(&mut client, 2, TS_END + 1), Err(Error::BallotOutOfDate));
    assert_eq!(client.count(Address::new("admin")).get(&Symbol::new("Laborist")), Some(2));
}

#[test]
fn a_zero_on_either_side_means_no_window() {
    let test_data = get_test_data(3);
    let windows = [(0u64, 0u64), (0, 100), (100, 0)];
    for (i, (from, to)) in windows.iter().enumerate() {
        let mut client = create_client();
        client.configure(Address::new("admin"), Address::new("token"), *from, *to).unwrap();
        assert_eq!(
            client.vote(
                &test_data.token,
                &at(5000),
                test_data.voters[i].clone(),
                Symbol::new("Laborist")
            ),
            Ok(true)
        );
    }
}

#[test]
fn plain_vote_counts_once_and_delegated_vote_twice() {
    let mut client = configured();
    let mut test_data = get_test_data(3);
    let ledger = at(1689238844);
    let a = test_data.voters[0].clone();
    let b = test_data.voters[1].clone();
    let c = test_data.voters[2].clone();
    let admin = Address::new("admin");

    client.vote(&test_data.token, &ledger, c, Symbol::new("C")).unwrap();
    assert_eq!(client.count(admin.clone()).get(&Symbol::new("C")), Some(1));
    client.delegate(&mut test_data.token, &ledger, a, b.clone()).unwrap();
    client.vote(&test_data.token, &ledger, b, Symbol::new("C")).unwrap();
    assert_eq!(client.count(admin).get(&Symbol::new("C")), Some(3));
}

#[test]
fn delegation_that_has_run_out_counts_no_more() {
    let mut client = configured();
    let mut test_data = get_test_data(2);
    let a = test_data.voters[0].clone();
    let b = test_data.voters[1].clone();

    client.delegate(&mut test_data.token, &at(TS_START), a.clone(), b.clone()).unwrap();
    let expiry = client.expiration_ledger();
    assert_eq!(expiry, 62699);
    assert!(test_data.token.blocking(&Ledger::new(TS_START, expiry), a.clone()));
    let late = Ledger::new(TS_START + 10, expiry + 1);
    assert_eq!(client.vote(&test_data.token, &late, b, Symbol::new("C")), Ok(true));
    assert_eq!(client.count(Address::new("admin")).get(&Symbol::new("C")), Some(1));
    assert_eq!(client.vote(&test_data.token, &late, a, Symbol::new("C")), Ok(true));
}

#[test]
fn expiration_ledger_formula() {
    let mut client = create_client();
    assert_eq!(client.expiration_ledger(), 60);
    client.configure(Address::new("admin"), Address::new("token"), 100, 109).unwrap();
    assert_eq!(client.expiration_ledger(), 61);
    client.configure(Address::new("admin"), Address::new("token"), 100, 110).unwrap();
    assert_eq!(client.expiration_ledger(), 62);
    client.configure(Address::new("admin"), Address::new("token"), TS_START, TS_END).unwrap();
    assert_eq!(client.expiration_ledger(), 62699);
}

#[test]
fn second_vote_is_refused_whatever_the_candidate() {
    let mut client = configured();
    let test_data = get_test_data(1);
    let ledger = at(1689238844);
    let v = test_data.voters[0].clone();

    client.vote(&test_data.token, &ledger, v.clone(), Symbol::new("Laborist")).unwrap();
    assert_eq!(
        client.vote(&test_data.token, &ledger, v.clone(), Symbol::new("Conserv")),
        Err(Error::VoterHasAlreadyVoted)
    );
    let count = client.count(Address::new("admin"));
    assert_eq!(count.get(&Symbol::new("Laborist")), Some(1));
    assert_eq!(count.get(&Symbol::new("Conserv")), None);
    assert_eq!(get_votes(client.storage()), vec![v]);
}

#[test]
fn configure_puts_window_and_token_on_record() {
    let mut client = create_client();
    assert_eq!(get_config(client.storage()), Config { from: 0, to: 0 });
    assert_eq!(
        client.configure(Address::new("admin"), Address::new("token"), TS_START, TS_END),
        Ok(true)
    );
    assert_eq!(get_config(client.storage()), Config { from: TS_START, to: TS_END });
    assert_eq!(get_token(client.storage()), Address::new("token"));
    assert_eq!(client.configure(Address::new("admin"), Address::new("other"), 1, 2), Ok(true));
    assert_eq!(get_config(client.storage()), Config { from: 1, to: 2 });
    assert_eq!(get_token(client.storage()), Address::new("other"));
}

#[test]
fn cast_goes_by_the_standing_given() {
    let mut client = configured();
    let ledger = at(1689238844);
    let holder = Standing { balance: 1, blocking: false, allowance: false };

    assert_eq!(
        client.cast(
            &ledger,
            Address::new("a"),
            Standing { balance: 0, blocking: true, allowance: true },
            Symbol::new("C")
        ),
        Err(Error::VoterDoesNotHoldToken)
    );
    assert_eq!(
        client.cast(
            &ledger,
            Address::new("a"),
            Standing { balance: 1, blocking: true, allowance: true },
            Symbol::new("C")
        ),
        Err(Error::VoterHasHisVoteDelegated)
    );
    assert_eq!(client.cast(&ledger, Address::new("a"), holder, Symbol::new("C")), Ok(true));
    assert_eq!(
        client.cast(
            &ledger,
            Address::new("b"),
            Standing { balance: 1, blocking: false, allowance: true },
            Symbol::new("C")
        ),
        Ok(true)
    );
    assert_eq!(client.count(Address::new("admin")).get(&Symbol::new("C")), Some(3));
}

#[test]
fn delegation_refusal_checks_come_in_order() {
    let mut client = configured();
    let ledger = at(1689238844);
    let holder = Standing { balance: 1, blocking: false, allowance: false };
    let none = Standing { balance: 0, blocking: false, allowance: false };
    let blocked = Standing { balance: 1, blocking: true, allowance: false };
    let allowed = Standing { balance: 1, blocking: false, allowance: true };
    let a = Address::new("a");
    let b = Address::new("b");
    let c = Address::new("c");

    client.cast(&ledger, c.clone(), holder, Symbol::new("C")).unwrap();

    assert_eq!(client.delegation_refusal(&ledger, &a, holder, &b, holder), None);
    assert_eq!(
        client.delegation_refusal(&Ledger::default(), &a, none, &b, holder),
        Some(Error::VoterDoesNotHoldToken)
    );
    assert_eq!(
        client.delegation_refusal(&Ledger::default(), &c, holder, &b, holder),
        Some(Error::BallotOutOfDate)
    );
    assert_eq!(
        client.delegation_refusal(&ledger, &c, blocked, &c, allowed),
        Some(Error::VoterOriginHasAlreadyVotedAndCannotDelegate)
    );
    assert_eq!(
        client.delegation_refusal(&ledger, &a, blocked, &c, allowed),
        Some(Error::VoterTargetHasAlreadyVotedAndCannotDelegate)
    );
    assert_eq!(
        client.delegation_refusal(&ledger, &a, blocked, &b, allowed),
        Some(Error::VoterHasHisVoteDelegated)
    );
    assert_eq!(
        client.delegation_refusal(&ledger, &a, holder, &b, allowed),
        Some(Error::VoterHasDelegatedVote)
    );
}

#[test]
fn count_lists_every_candidate() {
    let mut client = configured();
    let test_data = get_test_data(3);
    let ledger = at(1689238844);

    assert_eq!(client.count(Address::new("admin")).get(&Symbol::new("A")), None);
    for (i, name) in ["A", "B", "A"].iter().enumerate() {
        client.vote(&test_data.token, &ledger, test_data.voters[i].clone(), Symbol::new(name)).unwrap();
    }
    let count = client.count(Address::new("admin"));
    assert_eq!(count.get(&Symbol::new("A")), Some(2));
    assert_eq!(count.get(&Symbol::new("B")), Some(1));
    assert_eq!(count.get(&Symbol::new("C")), None);
    assert_eq!(get_candidates(client.storage()), vec![Symbol::new("A"), Symbol::new("B")]);
}

#[test]
fn ballot_error_codes() {
    assert_eq!(Error::VoterHasHisVoteDelegated.code(), 1);
    assert_eq!(Error::VoterHasAlreadyVoted.code(), 2);
    assert_eq!(Error::VoterHasDelegatedVote.code(), 3);
    assert_eq!(Error::VoterOriginHasAlreadyVotedAndCannotDelegate.code(), 4);
    assert_eq!(Error::VoterTargetHasAlreadyVotedAndCannotDelegate.code(), 5);
    assert_eq!(Error::BallotOutOfDate.code(), 6);
    assert_eq!(Error::VoterDoesNotHoldToken.code(), 7);
}
