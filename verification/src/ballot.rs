use crate::address::{contains, distinct, keys, Address};
use crate::ledger::Ledger;
use crate::storage::{
    get_candidate_votes_count, get_candidates, get_config, get_votes, store_config, store_party,
    update_candidate_count, update_votes, BallotState, Config, Storage, VCounter,
};
use crate::symbol::{distinct as distinct_symbols, names, Symbol};
use crate::tally::Tally;
use crate::token::{BallotToken, Standing, TokenState};
use crate::validation::{is_valid_date, within};
use vstd::prelude::*;

verus! {

/// Why the ballot refuses a vote or a delegation.
#[derive(Copy, Clone, Debug, Eq, PartialEq, Structural)]
pub enum Error {
    VoterHasHisVoteDelegated,
    VoterHasAlreadyVoted,
    VoterHasDelegatedVote,
    VoterOriginHasAlreadyVotedAndCannotDelegate,
    VoterTargetHasAlreadyVotedAndCannotDelegate,
    BallotOutOfDate,
    VoterDoesNotHoldToken,
}

impl Error {
    /// The number under which callers know this kind of refusal.
    pub open spec fn spec_code(self) -> u32 {
        match self {
            Error::VoterHasHisVoteDelegated => 1,
            Error::VoterHasAlreadyVoted => 2,
            Error::VoterHasDelegatedVote => 3,
            Error::VoterOriginHasAlreadyVotedAndCannotDelegate => 4,
            Error::VoterTargetHasAlreadyVotedAndCannotDelegate => 5,
            Error::BallotOutOfDate => 6,
            Error::VoterDoesNotHoldToken => 7,
        }
    }

    #[verifier::when_used_as_spec(spec_code)]
    pub fn code(self) -> (code: u32)
        ensures
            code == self.spec_code(),
    {
        match self {
            Error::VoterHasHisVoteDelegated => 1,
            Error::VoterHasAlreadyVoted => 2,
            Error::VoterHasDelegatedVote => 3,
            Error::VoterOriginHasAlreadyVotedAndCannotDelegate => 4,
            Error::VoterTargetHasAlreadyVotedAndCannotDelegate => 5,
            Error::BallotOutOfDate => 6,
            Error::VoterDoesNotHoldToken => 7,
        }
    }
}

impl BallotState {
    /// No address is on record as having voted twice, and no candidate is on
    /// record twice.
    pub open spec fn wf(self) -> bool {
        self.votes.no_duplicates() && self.candidates.no_duplicates()
    }

    /// The ballot once the token ledger and the window are on record.
    pub open spec fn configure(self, token: Seq<char>, ts_start: u64, ts_end: u64) -> BallotState {
        BallotState {
            config: Some(Config { from: ts_start, to: ts_end }),
            token: Some(token),
            ..self
        }
    }

    /// Whether votes and delegations are accepted at the given time: always
    /// while no window is set, and inside the window once one is.
    pub open spec fn window_open(self, timestamp: u64) -> bool {
        self.window().from > 0 && self.window().to > 0 ==> within(
            timestamp,
            self.window().from,
            self.window().to,
        )
    }

    /// What a vote counts for: two if the voter holds a right delegated to
    /// it, one otherwise.
    pub open spec fn weight(standing: Standing) -> nat {
        if standing.allowance {
            2
        } else {
            1
        }
    }

    /// Why the vote of `voter` is refused, if it is, given what the token
    /// ledger reports of the voter. The checks come in this order, and the
    /// first that fails names the refusal.
    pub open spec fn vote_refusal(self, ledger: Ledger, voter: Seq<char>, standing: Standing)
        -> Option<Error> {
        if standing.balance < 1 {
            Some(Error::VoterDoesNotHoldToken)
        } else if !self.window_open(ledger.timestamp) {
            Some(Error::BallotOutOfDate)
        } else if standing.blocking {
            Some(Error::VoterHasHisVoteDelegated)
        } else if self.votes.contains(voter) {
            Some(Error::VoterHasAlreadyVoted)
        } else {
            None
        }
    }

    /// The ballot once `voter` has voted for `candidate` with the given
    /// weight: the candidate is on record, the voter is the last of those who
    /// voted, and the candidate's count has grown by the weight.
    pub open spec fn voted(self, voter: Seq<char>, candidate: Seq<char>, weight: nat)
        -> BallotState {
        BallotState {
            votes: self.votes.push(voter),
            candidates: if self.candidates.contains(candidate) {
                self.candidates
            } else {
                self.candidates.push(candidate)
            },
            counts: self.counts.insert(candidate, self.tally(candidate) + weight),
            ..self
        }
    }

    /// The vote of `voter` for `candidate`, given what the token ledger
    /// reports of the voter.
    pub open spec fn cast(
        self,
        ledger: Ledger,
        voter: Seq<char>,
        standing: Standing,
        candidate: Seq<char>,
    ) -> Result<BallotState, Error> {
        match self.vote_refusal(ledger, voter, standing) {
            Some(e) => Err(e),
            None => Ok(self.voted(voter, candidate, Self::weight(standing))),
        }
    }

    /// The vote of `voter` for `candidate` against a token ledger.
    pub open spec fn vote(
        self,
        token: TokenState,
        ledger: Ledger,
        voter: Seq<char>,
        candidate: Seq<char>,
    ) -> Result<BallotState, Error> {
        self.cast(ledger, voter, token.standing(voter, ledger.sequence as nat), candidate)
    }

    /// Why the delegation by `origin` to `target` is refused, if it is, given
    /// what the token ledger reports of the two. The checks come in this
    /// order, and the first that fails names the refusal.
    pub open spec fn delegation_refusal(
        self,
        ledger: Ledger,
        origin: Seq<char>,
        origin_standing: Standing,
        target: Seq<char>,
        target_standing: Standing,
    ) -> Option<Error> {
        if origin_standing.balance < 1 || target_standing.balance < 1 {
            Some(Error::VoterDoesNotHoldToken)
        } else if !self.window_open(ledger.timestamp) {
            Some(Error::BallotOutOfDate)
        } else if self.votes.contains(origin) {
            Some(Error::VoterOriginHasAlreadyVotedAndCannotDelegate)
        } else if self.votes.contains(target) {
            Some(Error::VoterTargetHasAlreadyVotedAndCannotDelegate)
        } else if origin_standing.blocking {
            Some(Error::VoterHasHisVoteDelegated)
        } else if target_standing.allowance {
            Some(Error::VoterHasDelegatedVote)
        } else {
            None
        }
    }

    /// The sequence number up to which a delegation made on this ballot
    /// counts: one ledger for every five seconds of the window, and sixty
    /// more.
    pub open spec fn expiration_ledger(self) -> int {
        (self.window().to - self.window().from) / 5 + 60
    }

    /// Whether the token ledger can take a delegation made on this ballot at
    /// the ledger with the given sequence number: the window does not end
    /// before it starts, and the delegation's last ledger is a sequence
    /// number that has not passed.
    pub open spec fn can_approve(self, sequence: u32) -> bool {
        &&& self.window().from <= self.window().to
        &&& sequence <= self.expiration_ledger() <= u32::MAX
    }

    /// The delegation by `origin` to `target` against a token ledger: the
    /// ballot's own checks, and then the record on the token ledger.
    pub open spec fn delegate(
        self,
        token: TokenState,
        ledger: Ledger,
        origin: Seq<char>,
        target: Seq<char>,
    ) -> Result<TokenState, Error> {
        match self.delegation_refusal(
            ledger,
            origin,
            token.standing(origin, ledger.sequence as nat),
            target,
            token.standing(target, ledger.sequence as nat),
        ) {
            Some(e) => Err(e),
            None => Ok(token.approved(origin, target, self.expiration_ledger() as nat)),
        }
    }

    /// The count of every candidate on record.
    pub open spec fn count(self) -> Map<Seq<char>, nat> {
        Map::new(|c: Seq<char>| self.candidates.contains(c), |c: Seq<char>| self.tally(c))
    }
}

/// A participant, as the ballot looks at it.
struct Voter<'a> {
    id: &'a Address,
}

impl<'a> Voter<'a> {
    /// Whether the participant is on record as having voted.
    fn has_voted(&self, store: &Storage) -> (voted: bool)
        ensures
            voted == store@.votes.contains(self.id@),
    {
        let vts: Vec<Address> = get_votes(store);
        contains(&vts, self.id)
    }

    /// Whether the participant has delegated its right away.
    fn is_delegated(&self, token: &BallotToken, ledger: &Ledger) -> (delegated: bool)
        ensures
            delegated == token@.blocking(self.id@, ledger.sequence as nat),
    {
        if token.blocking(ledger, self.id.clone()) {
            return true;
        }
        false
    }

    /// Whether the participant holds a right delegated to it.
    fn has_delegated_vote(&self, token: &BallotToken, ledger: &Ledger) -> (holds: bool)
        ensures
            holds == token@.allowance(self.id@, ledger.sequence as nat),
    {
        if token.allowance(ledger, self.id.clone()) {
            return true;
        }
        false
    }

    /// What the token ledger reports of the participant.
    fn standing(&self, token: &BallotToken, ledger: &Ledger) -> (standing: Standing)
        ensures
            standing == token@.standing(self.id@, ledger.sequence as nat),
    {
        Standing {
            balance: token.balance(self.id.clone()),
            blocking: self.is_delegated(token, ledger),
            allowance: self.has_delegated_vote(token, ledger),
        }
    }
}

/// Whether votes and delegations are accepted at the ledger's time.
fn check_dates(store: &Storage, ledger: &Ledger) -> (valid: bool)
    ensures
        valid == store@.window_open(ledger.timestamp),
{
    let cfg = get_config(store);
    let mut valid = true;
    if cfg.from > 0 && cfg.to > 0 {
        valid = is_valid_date(ledger, &cfg.from, &cfg.to)
    }
    valid
}

/// The ballot: it takes the votes of token holders inside the voting window,
/// each holder once, and counts them by candidate.
pub struct Ballot {
    store: Storage,
}

impl View for Ballot {
    type V = BallotState;

    closed spec fn view(&self) -> BallotState {
        self.store@
    }
}

impl Ballot {
    /// A ballot that has been neither configured nor used.
    pub fn new() -> (ballot: Ballot)
        ensures
            ballot@ == BallotState::empty(),
            ballot@.wf(),
    {
        Ballot { store: Storage::new() }
    }

    /// The ballot that keeps what the storage holds, if no address is on
    /// record in it as having voted twice and no candidate is on record
    /// twice.
    pub fn from_storage(store: Storage) -> (ballot: Option<Ballot>)
        ensures
            ballot is Some <==> store@.wf(),
            ballot matches Some(b) ==> b@ == store@,
    {
        let votes = get_votes(&store);
        let candidates = get_candidates(&store);
        if !distinct(&votes) {
            return None;
        }
        if !distinct_symbols(&candidates) {
            return None;
        }
        Some(Ballot { store })
    }

    /// What the ballot keeps.
    pub fn storage(&self) -> (store: &Storage)
        ensures
            store@ == self@,
    {
        &self.store
    }

    /// Puts the token ledger's address and the voting window on record, in
    /// place of what was on record before. Nothing keeps a ballot from being
    /// configured again after votes have been taken: the votes stay, and the
    /// new window holds from then on. The caller has made sure that `admin`
    /// asks for it.
    pub fn configure(&mut self, admin: Address, token: Address, ts_start: u64, ts_end: u64) -> (done:
        Result<bool, Error>)
        ensures
            done == Ok::<bool, Error>(true),
            final(self)@ == old(self)@.configure(token@, ts_start, ts_end),
            old(self)@.wf() ==> final(self)@.wf(),
    {
        store_config(&mut self.store, ts_start, ts_end, token);
        Ok(true)
    }

    /// Takes the vote of `voter` for `candidate`, given what the token ledger
    /// reports of the voter at this ledger. The caller has made sure that
    /// `voter` asks for it.
    pub fn cast(
        &mut self,
        ledger: &Ledger,
        voter: Address,
        standing: Standing,
        candidate: Symbol,
    ) -> (done: Result<bool, Error>)
        requires
            old(self)@.wf(),
            old(self)@.token is Some,
            old(self)@.vote_refusal(*ledger, voter@, standing) is None ==> old(self)@.tally(
                candidate@,
            ) + BallotState::weight(standing) <= u32::MAX,
        ensures
            final(self)@.wf(),
            match old(self)@.cast(*ledger, voter@, standing, candidate@) {
                Ok(next) => done == Ok::<bool, Error>(true) && final(self)@ == next,
                Err(e) => done == Err::<bool, Error>(e) && final(self)@ == old(self)@,
            },
    {
        if standing.balance < 1 {
            return Err(Error::VoterDoesNotHoldToken);
        }
        if !check_dates(&self.store, ledger) {
            return Err(Error::BallotOutOfDate);
        }
        if standing.blocking {
            return Err(Error::VoterHasHisVoteDelegated);
        }
        let v: Voter = Voter { id: &voter };
        if v.has_voted(&self.store) {
            return Err(Error::VoterHasAlreadyVoted);
        }
        store_party(&mut self.store, &candidate);

        let mut votes: Vec<Address> = get_votes(&self.store);
        let candidate_key: VCounter = VCounter::Counter(candidate);
        let mut d_votes: u32 = 0;
        if standing.allowance {
            d_votes = 1;
        }
        let count: u32 = 1 + d_votes + get_candidate_votes_count(&self.store, &candidate_key);
        proof {
            assert(keys(votes@.push(voter)) =~= keys(votes@).push(voter@));
            crate::seqs::lemma_push_fresh(keys(votes@), voter@);
            if !old(self)@.candidates.contains(candidate@) {
                crate::seqs::lemma_push_fresh(old(self)@.candidates, candidate@);
            }
        }
        votes.push(voter);

        update_candidate_count(&mut self.store, candidate_key, count);
        update_votes(&mut self.store, votes);

        Ok(true)
    }

    /// Takes the vote of `voter` for `candidate`. The voter must hold a
    /// token, the time must lie in the window, and the voter must neither
    /// have delegated its right away nor have voted. The vote counts double
    /// if the voter holds a right delegated to it. The caller has made sure
    /// that `voter` asks for it.
    pub fn vote(
        &mut self,
        token: &BallotToken,
        ledger: &Ledger,
        voter: Address,
        candidate: Symbol,
    ) -> (done: Result<bool, Error>)
        requires
            old(self)@.wf(),
            old(self)@.token is Some,
            old(self)@.vote(token@, *ledger, voter@, candidate@) is Ok ==> old(self)@.tally(
                candidate@,
            ) + BallotState::weight(token@.standing(voter@, ledger.sequence as nat)) <= u32::MAX,
        ensures
            final(self)@.wf(),
            match old(self)@.vote(token@, *ledger, voter@, candidate@) {
                Ok(next) => done == Ok::<bool, Error>(true) && final(self)@ == next,
                Err(e) => done == Err::<bool, Error>(e) && final(self)@ == old(self)@,
            },
    {
        let standing = (Voter { id: &voter }).standing(token, ledger);
        self.cast(ledger, voter, standing, candidate)
    }

    /// Why the delegation by `o_voter` to `d_voter` is refused, if it is,
    /// given what the token ledger reports of the two at this ledger.
    pub fn delegation_refusal(
        &self,
        ledger: &Ledger,
        o_voter: &Address,
        o_standing: Standing,
        d_voter: &Address,
        d_standing: Standing,
    ) -> (refusal: Option<Error>)
        requires
            self@.token is Some,
        ensures
            refusal == self@.delegation_refusal(
                *ledger,
                o_voter@,
                o_standing,
                d_voter@,
                d_standing,
            ),
    {
        if o_standing.balance < 1 {
            return Some(Error::VoterDoesNotHoldToken);
        }
        if d_standing.balance < 1 {
            return Some(Error::VoterDoesNotHoldToken);
        }
        if !check_dates(&self.store, ledger) {
            return Some(Error::BallotOutOfDate);
        }
        let ov: Voter = Voter { id: o_voter };
        let dv: Voter = Voter { id: d_voter };

        if ov.has_voted(&self.store) {
            return Some(Error::VoterOriginHasAlreadyVotedAndCannotDelegate);
        }
        if dv.has_voted(&self.store) {
            return Some(Error::VoterTargetHasAlreadyVotedAndCannotDelegate);
        }
        if o_standing.blocking {
            return Some(Error::VoterHasHisVoteDelegated);
        }
        if d_standing.allowance {
            return Some(Error::VoterHasDelegatedVote);
        }
        None
    }

    /// The sequence number up to which a delegation made on this ballot
    /// counts.
    pub fn expiration_ledger(&self) -> (expiration_ledger: u32)
        requires
            self@.window().from <= self@.window().to,
            self@.expiration_ledger() <= u32::MAX,
        ensures
            expiration_ledger == self@.expiration_ledger(),
    {
        let config = get_config(&self.store);
        let expiration_ledger = ((config.to - config.from) / 5) + 60;
        expiration_ledger as u32
    }

    /// Delegates the right of `o_voter` to `d_voter`. Both must hold a token,
    /// the time must lie in the window, neither may have voted, `o_voter`
    /// must not have delegated already and `d_voter` must not hold a right
    /// delegated to it. The delegation is then put on record on the token
    /// ledger. The caller has made sure that `o_voter` asks for it.
    pub fn delegate(
        &self,
        token: &mut BallotToken,
        ledger: &Ledger,
        o_voter: Address,
        d_voter: Address,
    ) -> (done: Result<bool, Error>)
        requires
            old(token).wf(),
            self@.token is Some,
            self@.delegate(old(token)@, *ledger, o_voter@, d_voter@) is Ok ==> self@.can_approve(
                ledger.sequence,
            ),
        ensures
            final(token).wf(),
            match self@.delegate(old(token)@, *ledger, o_voter@, d_voter@) {
                Ok(next) => done == Ok::<bool, Error>(true) && final(token)@ == next,
                Err(e) => done == Err::<bool, Error>(e) && final(token)@ == old(token)@,
            },
    {
        let o_standing = (Voter { id: &o_voter }).standing(token, ledger);
        let d_standing = (Voter { id: &d_voter }).standing(token, ledger);
        match self.delegation_refusal(ledger, &o_voter, o_standing, &d_voter, d_standing) {
            Some(e) => {
                return Err(e);
            },
            None => {},
        }
        let expiration_ledger = self.expiration_ledger();
        let approved = token.approve(ledger, o_voter, d_voter, expiration_ledger);
        assert(approved is Ok);
        Ok(true)
    }

    /// The count of every candidate on record. The caller has made sure that
    /// `admin` asks for it.
    pub fn count(&self, admin: Address) -> (count_map: Tally)
        ensures
            count_map@ == self@.count(),
    {
        let pts = get_candidates(&self.store);
        let mut count_map: Tally = Tally::new();
        let mut i: usize = 0;
        while i < pts.len()
            invariant
                i <= pts.len(),
                names(pts@) == self.store@.candidates,
                count_map@ == Map::new(
                    |c: Seq<char>| names(pts@).take(i as int).contains(c),
                    |c: Seq<char>| self.store@.tally(c),
                ),
            decreases pts.len() - i,
        {
            let party = &pts[i];
            let candidate_key = VCounter::Counter(party.clone());
            let candidate_count: u32 = get_candidate_votes_count(&self.store, &candidate_key);
            proof {
                let before = names(pts@).take(i as int);
                let after = names(pts@).take(i + 1);
                assert(after == before.push(party@));
                assert forall|c: Seq<char>| after.contains(c) <==> (before.contains(c) || c
                    == party@) by {
                    if before.contains(c) {
                        let j = choose|j: int| 0 <= j < before.len() && before[j] == c;
                        assert(after[j] == c);
                    }
                    if c == party@ {
                        assert(after[i as int] == c);
                    }
                }
                assert(Map::new(
                    |c: Seq<char>| after.contains(c),
                    |c: Seq<char>| self.store@.tally(c),
                ) =~= count_map@.insert(party@, candidate_count as nat));
            }
            count_map.set(party.clone(), candidate_count);
            i += 1;
        }
        assert(names(pts@).take(pts.len() as int) == names(pts@));
        count_map
    }
}

} // verus!
