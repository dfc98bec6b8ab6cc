use crate::ballot::Error as BallotError;
use crate::ledger::Ledger;
use crate::storage::BallotState;
use crate::token::{Error as TokenError, Grant, TokenState};
use vstd::prelude::*;

verus! {

/// An address holds one token or none.
pub proof fn law_balance_is_binary(s: TokenState, a: Seq<char>)
    ensures
        s.balance(a) == 0 || s.balance(a) == 1,
{
}

/// Once a token has been asked for an address, the address holds one,
/// whether the mint was carried out or refused.
pub proof fn law_mint_then_balance(s: TokenState, a: Seq<char>)
    ensures
        match s.mint(a) {
            Ok(next) => next.balance(a) == 1,
            Err(_) => s.balance(a) == 1,
        },
{
}

/// Once the token of an address has been burnt, the address holds none.
pub proof fn law_burn_then_balance(s: TokenState, a: Seq<char>)
    ensures
        s.burn(a).balance(a) == 0,
{
}

/// A mint to an address that has just received a token is refused, because
/// the address holds one already.
pub proof fn law_mint_twice(s: TokenState, a: Seq<char>)
    ensures
        s.mint(a) matches Ok(next) ==> next.mint(a) == Err::<TokenState, TokenError>(
            TokenError::AddressAlreadyHoldsToken,
        ),
{
}

/// A transfer from a holder to an address that holds nothing is carried out:
/// afterwards the first holds nothing and the second one token, every other
/// address holds what it held, and as many tokens exist as before.
pub proof fn law_transfer_moves_the_token(s: TokenState, a: Seq<char>, b: Seq<char>)
    requires
        s.wf(),
        s.balance(a) == 1,
        s.balance(b) == 0,
    ensures
        s.transfer(a, b) matches Ok(next) && next.balance(a) == 0 && next.balance(b) == 1
            && next.supply() == s.supply() && forall|c: Seq<char>|
            c != a && c != b ==> next.balance(c) == s.balance(c),
{
}

/// Every operation of the token ledger keeps its model well formed: the
/// holders stay finitely many, and no address becomes the origin of two
/// delegations on record or the target of two.
pub proof fn law_token_stays_well_formed(
    s: TokenState,
    sequence: nat,
    a: Seq<char>,
    b: Seq<char>,
    expiration: nat,
)
    requires
        s.wf(),
    ensures
        s.initialize(a) matches Ok(next) ==> next.wf(),
        s.mint(a) matches Ok(next) ==> next.wf(),
        s.transfer(a, b) matches Ok(next) ==> next.wf(),
        s.burn(a).wf(),
        s.approve(sequence, a, b, expiration) matches Ok(next) ==> next.wf(),
{
}

/// A delegation that the token ledger has put on record counts from then on
/// up to its expiration: its origin is blocked and its target holds the
/// right.
pub proof fn law_approve_records(
    s: TokenState,
    sequence: nat,
    from: Seq<char>,
    spender: Seq<char>,
    expiration: nat,
    at: nat,
)
    requires
        at <= expiration,
    ensures
        s.approve(sequence, from, spender, expiration) matches Ok(next) ==> next.blocking(from, at)
            && next.allowance(spender, at),
{
    if s.approve(sequence, from, spender, expiration) is Ok {
        let next = s.approved(from, spender, expiration);
        let g = Grant { origin: from, target: spender, expires_at: expiration };
        assert(next.grants.contains(g) && g.live(at));
    }
}

/// Whether everyone who is blocked, or holds a delegated right, at the
/// given sequence number in `s` is so in `next` too.
pub open spec fn delegations_last(s: TokenState, next: TokenState, at: nat) -> bool {
    forall|who: Seq<char>|
        #![trigger s.blocking(who, at)]
        #![trigger s.allowance(who, at)]
        (s.blocking(who, at) ==> next.blocking(who, at)) && (s.allowance(who, at)
            ==> next.allowance(who, at))
}

/// No operation of the token ledger lifts a delegation that still counts:
/// who is blocked, or holds a delegated right, at a sequence number that the
/// ledger has not passed, is so after the operation too.
pub proof fn law_delegations_last(
    s: TokenState,
    sequence: nat,
    a: Seq<char>,
    b: Seq<char>,
    expiration: nat,
    at: nat,
)
    requires
        sequence <= at,
    ensures
        s.initialize(a) matches Ok(next) ==> delegations_last(s, next, at),
        s.mint(a) matches Ok(next) ==> delegations_last(s, next, at),
        s.transfer(a, b) matches Ok(next) ==> delegations_last(s, next, at),
        delegations_last(s, s.burn(a), at),
        s.approve(sequence, a, b, expiration) matches Ok(next) ==> delegations_last(s, next, at),
{
    lemma_same_grants(s, TokenState { admin: Some(a), ..s }, at);
    lemma_same_grants(s, TokenState { holders: s.holders.insert(a), ..s }, at);
    lemma_same_grants(s, TokenState { holders: s.holders.remove(a).insert(b), ..s }, at);
    lemma_same_grants(s, s.burn(a), at);
    if s.approve(sequence, a, b, expiration) is Ok {
        let next = s.approved(a, b, expiration);
        assert forall|who: Seq<char>|
            #![trigger s.blocking(who, at)]
            #![trigger s.allowance(who, at)]
            (s.blocking(who, at) ==> next.blocking(who, at)) && (s.allowance(who, at)
                ==> next.allowance(who, at)) by {
            if s.blocking(who, at) {
                let g = choose|g: Grant| #[trigger]
                    s.grants.contains(g) && g.origin == who && g.live(at);
                assert(g.live(sequence));
                assert(g.apart(a, b));
                assert(next.grants.contains(g));
            }
            if s.allowance(who, at) {
                let g = choose|g: Grant| #[trigger]
                    s.grants.contains(g) && g.target == who && g.live(at);
                assert(g.live(sequence));
                assert(g.apart(a, b));
                assert(next.grants.contains(g));
            }
        }
    }
}

/// With the same delegations on record, the same addresses are blocked and
/// hold delegated rights.
proof fn lemma_same_grants(s: TokenState, next: TokenState, at: nat)
    requires
        next.grants == s.grants,
    ensures
        delegations_last(s, next, at),
{
    assert forall|who: Seq<char>|
        #![trigger s.blocking(who, at)]
        #![trigger s.allowance(who, at)]
        (s.blocking(who, at) ==> next.blocking(who, at)) && (s.allowance(who, at)
            ==> next.allowance(who, at)) by {
        if s.blocking(who, at) {
            let g = choose|g: Grant| #[trigger]
                s.grants.contains(g) && g.origin == who && g.live(at);
            assert(next.grants.contains(g));
        }
        if s.allowance(who, at) {
            let g = choose|g: Grant| #[trigger]
                s.grants.contains(g) && g.target == who && g.live(at);
            assert(next.grants.contains(g));
        }
    }
}

/// Who has delegated its right away cannot vote: while the delegation
/// counts, its vote is refused, and with `VoterHasHisVoteDelegated` if it
/// holds a token and the time lies in the window.
pub proof fn law_blocked_cannot_vote(
    b: BallotState,
    t: TokenState,
    ledger: Ledger,
    voter: Seq<char>,
    candidate: Seq<char>,
)
    requires
        t.blocking(voter, ledger.sequence as nat),
    ensures
        b.vote(t, ledger, voter, candidate) is Err,
        t.balance(voter) == 1 && b.window_open(ledger.timestamp) ==> b.vote(
            t,
            ledger,
            voter,
            candidate,
        ) == Err::<BallotState, BallotError>(BallotError::VoterHasHisVoteDelegated),
{
}

/// Once a delegation by `origin` has succeeded, no vote by `origin` is
/// accepted for as long as the delegation counts, on whatever ballot and
/// whatever the token ledger has done since without lifting a delegation. The
/// vote is refused with `VoterHasHisVoteDelegated` if `origin` still holds its
/// token and the time lies in the window.
pub proof fn law_delegate_then_vote(
    b: BallotState,
    t: TokenState,
    ledger: Ledger,
    origin: Seq<char>,
    target: Seq<char>,
    later_ballot: BallotState,
    later_token: TokenState,
    later: Ledger,
    candidate: Seq<char>,
)
    requires
        b.delegate(t, ledger, origin, target) is Ok,
        later.sequence <= b.expiration_ledger(),
        delegations_last(
            t.approved(origin, target, b.expiration_ledger() as nat),
            later_token,
            later.sequence as nat,
        ),
    ensures
        later_ballot.vote(later_token, later, origin, candidate) is Err,
        later_token.balance(origin) == 1 && later_ballot.window_open(later.timestamp)
            ==> later_ballot.vote(later_token, later, origin, candidate) == Err::<
            BallotState,
            BallotError,
        >(BallotError::VoterHasHisVoteDelegated),
{
    let next = t.approved(origin, target, b.expiration_ledger() as nat);
    let g = Grant { origin, target, expires_at: b.expiration_ledger() as nat };
    assert(next.grants.contains(g) && g.live(later.sequence as nat));
    assert(next.blocking(origin, later.sequence as nat));
}

/// Who has voted cannot delegate, and nobody can delegate to it: a
/// delegation from or to an address on record as having voted is refused.
pub proof fn law_voted_cannot_delegate(
    b: BallotState,
    t: TokenState,
    ledger: Ledger,
    origin: Seq<char>,
    target: Seq<char>,
)
    requires
        b.votes.contains(origin) || b.votes.contains(target),
    ensures
        b.delegate(t, ledger, origin, target) is Err,
        t.balance(origin) == 1 && t.balance(target) == 1 && b.window_open(ledger.timestamp)
            ==> b.delegate(t, ledger, origin, target) == Err::<TokenState, BallotError>(
            if b.votes.contains(origin) {
                BallotError::VoterOriginHasAlreadyVotedAndCannotDelegate
            } else {
                BallotError::VoterTargetHasAlreadyVotedAndCannotDelegate
            },
        ),
{
}

/// Once a vote by `voter` has succeeded, a delegation by `voter` on the same
/// ballot is refused, whatever the token ledger says by then.
pub proof fn law_vote_then_delegate(
    b: BallotState,
    t: TokenState,
    ledger: Ledger,
    voter: Seq<char>,
    candidate: Seq<char>,
    later_token: TokenState,
    later: Ledger,
    target: Seq<char>,
)
    requires
        b.vote(t, ledger, voter, candidate) is Ok,
    ensures
        b.vote(t, ledger, voter, candidate) matches Ok(next) && next.delegate(
            later_token,
            later,
            voter,
            target,
        ) is Err,
{
    let next = b.voted(
        voter,
        candidate,
        BallotState::weight(t.standing(voter, ledger.sequence as nat)),
    );
    assert(next.votes[b.votes.len() as int] == voter);
}

/// A vote that succeeds while the voter holds a delegated right raises the
/// candidate's count by exactly two; one that succeeds while it holds none
/// raises it by exactly one. No other count changes.
pub proof fn law_vote_weight(
    b: BallotState,
    t: TokenState,
    ledger: Ledger,
    voter: Seq<char>,
    candidate: Seq<char>,
)
    requires
        b.vote(t, ledger, voter, candidate) is Ok,
    ensures
        b.vote(t, ledger, voter, candidate) matches Ok(next) && next.tally(candidate) == b.tally(
            candidate,
        ) + (if t.allowance(voter, ledger.sequence as nat) {
            2nat
        } else {
            1nat
        }) && forall|other: Seq<char>| other != candidate ==> next.tally(other) == b.tally(other),
{
}

/// Once a delegation by `origin` to `target` has succeeded, a vote by
/// `target` that succeeds while the delegation still counts raises the
/// candidate's count by exactly two, on whatever ballot and whatever the
/// token ledger has done since without lifting a delegation.
pub proof fn law_delegated_vote_counts_double(
    b: BallotState,
    t: TokenState,
    ledger: Ledger,
    origin: Seq<char>,
    target: Seq<char>,
    later_ballot: BallotState,
    later_token: TokenState,
    later: Ledger,
    candidate: Seq<char>,
)
    requires
        b.delegate(t, ledger, origin, target) is Ok,
        later.sequence <= b.expiration_ledger(),
        delegations_last(
            t.approved(origin, target, b.expiration_ledger() as nat),
            later_token,
            later.sequence as nat,
        ),
        later_ballot.vote(later_token, later, target, candidate) is Ok,
    ensures
        later_ballot.vote(later_token, later, target, candidate) matches Ok(counted)
            && counted.tally(candidate) == later_ballot.tally(candidate) + 2,
{
    let next = t.approved(origin, target, b.expiration_ledger() as nat);
    let g = Grant { origin, target, expires_at: b.expiration_ledger() as nat };
    assert(next.grants.contains(g) && g.live(later.sequence as nat));
    assert(next.allowance(target, later.sequence as nat));
}

/// Who is on record as having voted cannot vote again: the vote is refused,
/// whatever the candidate, and with `VoterHasAlreadyVoted` if the voter
/// holds a token, the time lies in the window and the voter has not
/// delegated its right away.
pub proof fn law_voted_cannot_vote(
    b: BallotState,
    t: TokenState,
    ledger: Ledger,
    voter: Seq<char>,
    candidate: Seq<char>,
)
    requires
        b.votes.contains(voter),
    ensures
        b.vote(t, ledger, voter, candidate) is Err,
        t.balance(voter) == 1 && b.window_open(ledger.timestamp) && !t.blocking(
            voter,
            ledger.sequence as nat,
        ) ==> b.vote(t, ledger, voter, candidate) == Err::<BallotState, BallotError>(
            BallotError::VoterHasAlreadyVoted,
        ),
{
}

/// Once a vote by `voter` has succeeded, every further vote by `voter` on
/// the same ballot is refused, whatever the candidate and whatever the
/// token ledger says by then.
pub proof fn law_vote_twice(
    b: BallotState,
    t: TokenState,
    ledger: Ledger,
    voter: Seq<char>,
    candidate: Seq<char>,
    later_token: TokenState,
    later: Ledger,
    other: Seq<char>,
)
    requires
        b.vote(t, ledger, voter, candidate) is Ok,
    ensures
        b.vote(t, ledger, voter, candidate) matches Ok(next) && next.vote(
            later_token,
            later,
            voter,
            other,
        ) is Err && (later_token.balance(voter) == 1 && next.window_open(later.timestamp)
            && !later_token.blocking(voter, later.sequence as nat) ==> next.vote(
            later_token,
            later,
            voter,
            other,
        ) == Err::<BallotState, BallotError>(BallotError::VoterHasAlreadyVoted)),
{
    let next = b.voted(
        voter,
        candidate,
        BallotState::weight(t.standing(voter, ledger.sequence as nat)),
    );
    assert(next.votes[b.votes.len() as int] == voter);
}

/// The record of a ballot only grows: a vote or a new configuration strikes
/// no voter and no candidate from the record and lowers no count, and a
/// well-formed ballot stays well formed.
pub proof fn law_ballot_record_grows(
    b: BallotState,
    t: TokenState,
    ledger: Ledger,
    voter: Seq<char>,
    candidate: Seq<char>,
    token: Seq<char>,
    ts_start: u64,
    ts_end: u64,
)
    ensures
        b.vote(t, ledger, voter, candidate) matches Ok(next) ==> {
            &&& forall|v: Seq<char>| b.votes.contains(v) ==> next.votes.contains(v)
            &&& forall|c: Seq<char>| b.candidates.contains(c) ==> next.candidates.contains(c)
            &&& forall|c: Seq<char>| b.tally(c) <= next.tally(c)
            &&& next.votes.len() == b.votes.len() + 1
            &&& next.candidates.contains(candidate)
            &&& b.wf() ==> next.wf()
        },
        b.configure(token, ts_start, ts_end).votes == b.votes,
        b.configure(token, ts_start, ts_end).candidates == b.candidates,
        b.configure(token, ts_start, ts_end).counts == b.counts,
{
    if b.vote(t, ledger, voter, candidate) is Ok {
        let next = b.voted(
            voter,
            candidate,
            BallotState::weight(t.standing(voter, ledger.sequence as nat)),
        );
        assert forall|v: Seq<char>| b.votes.contains(v) implies next.votes.contains(v) by {
            let i = choose|i: int| 0 <= i < b.votes.len() && b.votes[i] == v;
            assert(next.votes[i] == v);
        }
        assert forall|c: Seq<char>| b.candidates.contains(c) implies next.candidates.contains(
            c,
        ) by {
            let i = choose|i: int| 0 <= i < b.candidates.len() && b.candidates[i] == c;
            assert(next.candidates[i] == c);
        }
        if !b.candidates.contains(candidate) {
            assert(next.candidates[b.candidates.len() as int] == candidate);
            if b.wf() {
                crate::seqs::lemma_push_fresh(b.candidates, candidate);
            }
        }
        if b.wf() {
            crate::seqs::lemma_push_fresh(b.votes, voter);
        }
    }
}

/// A target takes one delegation at a time: while an address holds a
/// delegated right, a further delegation to it is refused, and with
/// `VoterHasDelegatedVote` if every earlier check passes.
pub proof fn law_target_taken(
    b: BallotState,
    t: TokenState,
    ledger: Ledger,
    other: Seq<char>,
    target: Seq<char>,
)
    requires
        t.allowance(target, ledger.sequence as nat),
    ensures
        b.delegate(t, ledger, other, target) is Err,
        t.balance(other) == 1 && t.balance(target) == 1 && b.window_open(ledger.timestamp)
            && !b.votes.contains(other) && !b.votes.contains(target) && !t.blocking(
            other,
            ledger.sequence as nat,
        ) ==> b.delegate(t, ledger, other, target) == Err::<TokenState, BallotError>(
            BallotError::VoterHasDelegatedVote,
        ),
{
}

/// Once a delegation to `target` has succeeded, every further delegation to
/// `target` is refused for as long as the first counts, on whatever ballot
/// and whatever the token ledger has done since without lifting a
/// delegation.
pub proof fn law_delegate_twice(
    b: BallotState,
    t: TokenState,
    ledger: Ledger,
    origin: Seq<char>,
    target: Seq<char>,
    later_ballot: BallotState,
    later_token: TokenState,
    later: Ledger,
    other: Seq<char>,
)
    requires
        b.delegate(t, ledger, origin, target) is Ok,
        later.sequence <= b.expiration_ledger(),
        delegations_last(
            t.approved(origin, target, b.expiration_ledger() as nat),
            later_token,
            later.sequence as nat,
        ),
    ensures
        later_ballot.delegate(later_token, later, other, target) is Err,
{
    let next = t.approved(origin, target, b.expiration_ledger() as nat);
    let g = Grant { origin, target, expires_at: b.expiration_ledger() as nat };
    assert(next.grants.contains(g) && g.live(later.sequence as nat));
    assert(next.allowance(target, later.sequence as nat));
}

/// A ledger keeps the delegations it has, and keeping is carried along a
/// chain of ledgers.
pub proof fn law_delegations_last_along(s: TokenState, mid: TokenState, next: TokenState, at: nat)
    requires
        delegations_last(s, mid, at),
        delegations_last(mid, next, at),
    ensures
        delegations_last(s, s, at),
        delegations_last(s, next, at),
{
    assert forall|who: Seq<char>|
        #![trigger s.blocking(who, at)]
        #![trigger s.allowance(who, at)]
        (s.blocking(who, at) ==> next.blocking(who, at)) && (s.allowance(who, at)
            ==> next.allowance(who, at)) by {
        if s.blocking(who, at) {
            assert(mid.blocking(who, at));
        }
        if s.allowance(who, at) {
            assert(mid.allowance(who, at));
        }
    }
}

/// The window is enforced: while a window is set, a vote at a time outside
/// it is never accepted, and a token holder's vote is refused with
/// `BallotOutOfDate`.
pub proof fn law_window_enforced(
    b: BallotState,
    t: TokenState,
    ledger: Ledger,
    voter: Seq<char>,
    candidate: Seq<char>,
)
    requires
        b.window().from > 0,
        b.window().to > 0,
        ledger.timestamp < b.window().from || b.window().to < ledger.timestamp,
    ensures
        b.vote(t, ledger, voter, candidate) is Err,
        t.balance(voter) == 1 ==> b.vote(t, ledger, voter, candidate) == Err::<
            BallotState,
            BallotError,
        >(BallotError::BallotOutOfDate),
{
}

} // verus!
