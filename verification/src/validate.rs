//! Which votes count: a vote is valid when its contest exists and offers its choice.

use vstd::prelude::*;
use crate::lookup::{find_choice, find_contest};
use crate::model::{ContestList, ContestView, Vote};

verus! {

/// Why a vote was left out of the tally.
#[derive(Debug, Clone, Copy, PartialEq, Eq, Structural)]
pub enum Rejection {
    /// No contest has the vote's `contest_id`.
    UnknownContest { contest_id: u64 },
    /// The vote's contest exists and offers no choice with the vote's `choice_id`.
    UnknownChoice { contest_id: u64, choice_id: u64 },
}

/// Why `vote` is rejected under `contests`, or `None` where it is valid.
pub open spec fn rejection(vote: Vote, contests: Seq<ContestView>) -> Option<Rejection> {
    match find_contest(contests, vote.contest_id) {
        None => Some(Rejection::UnknownContest { contest_id: vote.contest_id }),
        Some(contest) => match find_choice(contest.choices, vote.choice_id) {
            None => Some(
                Rejection::UnknownChoice { contest_id: vote.contest_id, choice_id: vote.choice_id },
            ),
            Some(_) => None,
        },
    }
}

/// Whether `vote` names a contest of `contests` and a choice of that contest.
pub open spec fn is_valid(vote: Vote, contests: Seq<ContestView>) -> bool {
    rejection(vote, contests) is None
}

/// The rejections of the invalid votes among `votes`, in the order of the votes.
pub open spec fn rejections(votes: Seq<Vote>, contests: Seq<ContestView>) -> Seq<Rejection>
    decreases votes.len(),
{
    if votes.len() == 0 {
        Seq::empty()
    } else {
        let earlier = rejections(votes.drop_last(), contests);
        match rejection(votes.last(), contests) {
            Some(reason) => earlier.push(reason),
            None => earlier,
        }
    }
}

/// Checks one vote against the contest definitions.
pub fn check_vote(vote: &Vote, contests: &ContestList) -> (verdict: Option<Rejection>)
    ensures
        verdict == rejection(*vote, contests@),
{
    match contests.get_by_id(vote.contest_id) {
        None => Some(Rejection::UnknownContest { contest_id: vote.contest_id }),
        Some(contest) => match contest.choices.get_by_id(vote.choice_id) {
            None => Some(
                Rejection::UnknownChoice { contest_id: vote.contest_id, choice_id: vote.choice_id },
            ),
            Some(_) => None,
        },
    }
}

/// Lists why each invalid vote of `votes` is rejected, in the order of the votes.
pub fn rejected_votes(votes: &Vec<Vote>, contests: &ContestList) -> (rejected: Vec<Rejection>)
    ensures
        rejected@ == rejections(votes@, contests@),
{
    let mut rejected: Vec<Rejection> = Vec::new();
    for i in 0..votes.len()
        invariant
            rejected@ == rejections(votes@.take(i as int), contests@),
    {
        assert(votes@.take(i + 1).drop_last() == votes@.take(i as int));
        match check_vote(&votes[i], contests) {
            Some(reason) => rejected.push(reason),
            None => {},
        }
    }
    assert(votes@.take(votes.len() as int) == votes@);
    rejected
}

} // verus!
