//! Counting votes: how many name a given choice, how many a contest accepts.

use vstd::prelude::*;
use crate::lookup::find_choice;
use crate::model::{ContestView, Vote};

verus! {

/// Whether `vote` names the choice `choice_id` of the contest `contest_id`.
pub open spec fn names(vote: Vote, contest_id: u64, choice_id: u64) -> bool {
    vote.contest_id == contest_id && vote.choice_id == choice_id
}

/// How many of `votes` name the choice `choice_id` of the contest `contest_id`.
pub open spec fn ballots(votes: Seq<Vote>, contest_id: u64, choice_id: u64) -> nat
    decreases votes.len(),
{
    if votes.len() == 0 {
        0
    } else {
        let earlier = ballots(votes.drop_last(), contest_id, choice_id);
        if names(votes.last(), contest_id, choice_id) {
            earlier + 1
        } else {
            earlier
        }
    }
}

/// Whether `vote` names `contest` and one of the choices that it offers.
pub open spec fn accepts(contest: ContestView, vote: Vote) -> bool {
    vote.contest_id == contest.id && find_choice(contest.choices, vote.choice_id) is Some
}

/// How many of `votes` the contest `contest` accepts.
pub open spec fn accepted(votes: Seq<Vote>, contest: ContestView) -> nat
    decreases votes.len(),
{
    if votes.len() == 0 {
        0
    } else {
        let earlier = accepted(votes.drop_last(), contest);
        if accepts(contest, votes.last()) {
            earlier + 1
        } else {
            earlier
        }
    }
}

/// The votes that `contest` accepts for its choice `choice_id`: the ballots
/// that name it where the contest offers the choice, and none otherwise.
pub open spec fn choice_ballots(votes: Seq<Vote>, contest: ContestView, choice_id: u64) -> nat {
    if find_choice(contest.choices, choice_id) is Some {
        ballots(votes, contest.id, choice_id)
    } else {
        0
    }
}

/// One more vote adds one ballot to the choice that it names, and none to any other.
pub proof fn lemma_ballots_push(votes: Seq<Vote>, vote: Vote, contest_id: u64, choice_id: u64)
    ensures
        ballots(votes.push(vote), contest_id, choice_id) == ballots(votes, contest_id, choice_id)
            + if names(vote, contest_id, choice_id) { 1nat } else { 0nat },
{
    assert(votes.push(vote).drop_last() == votes);
}

/// One more vote adds one to what a contest accepts where the contest accepts it.
pub proof fn lemma_accepted_push(votes: Seq<Vote>, vote: Vote, contest: ContestView)
    ensures
        accepted(votes.push(vote), contest) == accepted(votes, contest)
            + if accepts(contest, vote) { 1nat } else { 0nat },
{
    assert(votes.push(vote).drop_last() == votes);
}

/// No contest accepts more votes than there are.
pub proof fn lemma_accepted_bound(votes: Seq<Vote>, contest: ContestView)
    ensures
        accepted(votes, contest) <= votes.len(),
    decreases votes.len(),
{
    if votes.len() > 0 {
        lemma_accepted_bound(votes.drop_last(), contest);
    }
}

/// A contest accepts at least the votes that it accepts for one choice.
pub proof fn lemma_choice_ballots_bound(votes: Seq<Vote>, contest: ContestView, choice_id: u64)
    ensures
        choice_ballots(votes, contest, choice_id) <= accepted(votes, contest),
    decreases votes.len(),
{
    if votes.len() > 0 {
        lemma_choice_ballots_bound(votes.drop_last(), contest, choice_id);
    }
}

} // verus!
