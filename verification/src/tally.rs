//! The tally: per contest, the valid votes per choice, their total and the winner.
//!
//! Contests are reported in the order of their definition and choices in the
//! order in which their contest offers them. Among the choices with the most
//! votes, the one that the contest offers first wins.

use std::collections::HashMap;
use vstd::prelude::*;
use crate::counting::{
    accepted, ballots, choice_ballots, lemma_accepted_bound, lemma_accepted_push,
    lemma_ballots_push, lemma_choice_ballots_bound,
};
use crate::lookup::{
    choice_ids, contest_ids, find_choice, find_contest, first_match, lemma_find_contest,
    lemma_first_match, lemma_first_match_at, lemma_occurs_before_step, occurs_before,
};
use crate::model::{
    choice_views, contest_result_views, contest_views, result_vote_views, Contest, ContestList,
    ContestResult, ContestResultView, ContestView, ResultVote, ResultVoteView, Vote, Winner,
    WinnerView,
};
use crate::validate::{check_vote, is_valid};

verus! {

/// The per-choice results of `contest` over its first `n` choices: one entry
/// for each choice that received a vote, where the choice is the first of the
/// contest with its id, in the order of the choices.
pub open spec fn choice_results_upto(votes: Seq<Vote>, contest: ContestView, n: int) -> Seq<
    ResultVoteView,
>
    decreases n,
{
    if n <= 0 {
        Seq::empty()
    } else {
        let earlier = choice_results_upto(votes, contest, n - 1);
        let id = contest.choices[n - 1].id;
        if first_match(choice_ids(contest.choices), id) == Some(n - 1) && ballots(
            votes,
            contest.id,
            id,
        ) > 0 {
            earlier.push(
                ResultVoteView { choice_id: id, total_count: ballots(votes, contest.id, id) },
            )
        } else {
            earlier
        }
    }
}

/// The per-choice results of `contest`.
pub open spec fn choice_results(votes: Seq<Vote>, contest: ContestView) -> Seq<ResultVoteView> {
    choice_results_upto(votes, contest, contest.choices.len() as int)
}

/// The sum of the counts of `results`.
pub open spec fn sum_counts(results: Seq<ResultVoteView>) -> nat
    decreases results.len(),
{
    if results.len() == 0 {
        0
    } else {
        sum_counts(results.drop_last()) + results.last().total_count
    }
}

/// The position of the leading entry of `results`: the first of those with
/// the largest count.
pub open spec fn leader(results: Seq<ResultVoteView>) -> int
    decreases results.len(),
{
    if results.len() <= 1 {
        0
    } else {
        let before = leader(results.drop_last());
        if results[before].total_count < results.last().total_count {
            results.len() - 1
        } else {
            before
        }
    }
}

/// The winner of `contest`: the leading entry of its results, with the text of
/// the choice.
pub open spec fn winner(votes: Seq<Vote>, contest: ContestView) -> WinnerView {
    let entries = choice_results(votes, contest);
    let id = entries[leader(entries)].choice_id;
    WinnerView { choice_id: id, text: find_choice(contest.choices, id).unwrap().text }
}

/// What the tally reports of `contest`.
pub open spec fn contest_result(votes: Seq<Vote>, contest: ContestView) -> ContestResultView {
    ContestResultView {
        contest_id: contest.id,
        total_votes: accepted(votes, contest),
        results: choice_results(votes, contest),
        winner: winner(votes, contest),
    }
}

/// The tally over the first `n` contests: one result for each contest that
/// accepted a vote, where the contest is the first of the list with its id, in
/// the order of the contests.
pub open spec fn tally_upto(votes: Seq<Vote>, contests: Seq<ContestView>, n: int) -> Seq<
    ContestResultView,
>
    decreases n,
{
    if n <= 0 {
        Seq::empty()
    } else {
        let earlier = tally_upto(votes, contests, n - 1);
        let contest = contests[n - 1];
        if first_match(contest_ids(contests), contest.id) == Some(n - 1) && accepted(
            votes,
            contest,
        ) > 0 {
            earlier.push(contest_result(votes, contest))
        } else {
            earlier
        }
    }
}

/// The tally of `votes` over `contests`.
pub open spec fn tally(votes: Seq<Vote>, contests: Seq<ContestView>) -> Seq<ContestResultView> {
    tally_upto(votes, contests, contests.len() as int)
}

/// Whether `contest` accepts `vote` for one of its first `n` choices.
pub open spec fn accepts_below(contest: ContestView, vote: Vote, n: int) -> bool {
    vote.contest_id == contest.id && match first_match(
        choice_ids(contest.choices),
        vote.choice_id,
    ) {
        Some(i) => i < n,
        None => false,
    }
}

/// How many of `votes` the contest accepts for one of its first `n` choices.
pub open spec fn accepted_below(votes: Seq<Vote>, contest: ContestView, n: int) -> nat
    decreases votes.len(),
{
    if votes.len() == 0 {
        0
    } else {
        let earlier = accepted_below(votes.drop_last(), contest, n);
        if accepts_below(contest, votes.last(), n) {
            earlier + 1
        } else {
            earlier
        }
    }
}

/// A contest accepts no vote for none of its choices, and for all of its
/// choices what it accepts at all.
pub proof fn lemma_accepted_below_ends(votes: Seq<Vote>, contest: ContestView)
    ensures
        accepted_below(votes, contest, 0) == 0,
        accepted_below(votes, contest, contest.choices.len() as int) == accepted(votes, contest),
    decreases votes.len(),
{
    if votes.len() > 0 {
        lemma_accepted_below_ends(votes.drop_last(), contest);
        lemma_first_match(choice_ids(contest.choices), votes.last().choice_id);
    }
}

/// What a contest accepts for its first `n + 1` choices is what it accepts
/// for the first `n`, and the ballots of the next choice where that choice is
/// the first with its id.
pub proof fn lemma_accepted_below_step(votes: Seq<Vote>, contest: ContestView, n: int)
    requires
        0 <= n < contest.choices.len(),
    ensures
        accepted_below(votes, contest, n + 1) == accepted_below(votes, contest, n) + if first_match(
            choice_ids(contest.choices),
            contest.choices[n].id,
        ) == Some(n) {
            ballots(votes, contest.id, contest.choices[n].id)
        } else {
            0
        },
    decreases votes.len(),
{
    if votes.len() > 0 {
        lemma_accepted_below_step(votes.drop_last(), contest, n);
        let ids = choice_ids(contest.choices);
        lemma_first_match(ids, votes.last().choice_id);
        lemma_first_match(ids, contest.choices[n].id);
    }
}

/// The counts of the results over the first `n` choices sum to what the
/// contest accepts for those choices.
pub proof fn lemma_results_sum_upto(votes: Seq<Vote>, contest: ContestView, n: int)
    requires
        0 <= n <= contest.choices.len(),
    ensures
        sum_counts(choice_results_upto(votes, contest, n)) == accepted_below(votes, contest, n),
    decreases n,
{
    if n == 0 {
        lemma_accepted_below_ends(votes, contest);
    } else {
        lemma_results_sum_upto(votes, contest, n - 1);
        lemma_accepted_below_step(votes, contest, n - 1);
        let earlier = choice_results_upto(votes, contest, n - 1);
        let now = choice_results_upto(votes, contest, n);
        if now.len() > earlier.len() {
            assert(now.drop_last() == earlier);
        }
    }
}

/// What a contest accepts for its first `n` choices, it accepts.
pub proof fn lemma_accepted_below_bound(votes: Seq<Vote>, contest: ContestView, n: int)
    ensures
        accepted_below(votes, contest, n) <= accepted(votes, contest),
    decreases votes.len(),
{
    if votes.len() > 0 {
        lemma_accepted_below_bound(votes.drop_last(), contest, n);
        lemma_first_match(choice_ids(contest.choices), votes.last().choice_id);
    }
}

/// Every entry of the results names a choice that the contest offers and
/// carries the ballots of that choice, of which there is at least one.
pub proof fn lemma_results_entries(votes: Seq<Vote>, contest: ContestView, n: int, k: int)
    requires
        0 <= n <= contest.choices.len(),
        0 <= k < choice_results_upto(votes, contest, n).len(),
    ensures
        find_choice(contest.choices, choice_results_upto(votes, contest, n)[k].choice_id) is Some,
        choice_results_upto(votes, contest, n)[k].total_count == ballots(
            votes,
            contest.id,
            choice_results_upto(votes, contest, n)[k].choice_id,
        ),
        choice_results_upto(votes, contest, n)[k].total_count > 0,
    decreases n,
{
    if n > 0 {
        let earlier = choice_results_upto(votes, contest, n - 1);
        if k < earlier.len() {
            lemma_results_entries(votes, contest, n - 1, k);
        }
    }
}

/// The leading entry is an entry.
pub proof fn lemma_leader_bounds(results: Seq<ResultVoteView>)
    requires
        results.len() > 0,
    ensures
        0 <= leader(results) < results.len(),
    decreases results.len(),
{
    if results.len() > 1 {
        lemma_leader_bounds(results.drop_last());
    }
}

/// The count that `counts` holds for `choice_id`: none where it has no entry.
spec fn count_in(counts: Map<u64, u64>, choice_id: u64) -> nat {
    if counts.contains_key(choice_id) {
        counts[choice_id] as nat
    } else {
        0
    }
}

/// The counts that `sums` holds for `contest_id`: none where it has no entry.
spec fn counts_in(sums: Map<u64, HashMap<u64, u64>>, contest_id: u64) -> Map<u64, u64> {
    if sums.contains_key(contest_id) {
        sums[contest_id]@
    } else {
        Map::empty()
    }
}

/// Whether `counts` holds, for each choice that `contest` accepted a vote for,
/// the number of those votes, and nothing else.
spec fn counts_match(counts: Map<u64, u64>, votes: Seq<Vote>, contest: ContestView) -> bool {
    forall|choice_id: u64|
        {
            &&& #[trigger] counts.contains_key(choice_id) <==> choice_ballots(
                votes,
                contest,
                choice_id,
            ) > 0
            &&& count_in(counts, choice_id) == choice_ballots(votes, contest, choice_id)
        }
}

/// Whether `sums` holds, for each contest that accepted a vote, the counts of
/// that contest under its id, and nothing else.
spec fn sums_match(
    sums: Map<u64, HashMap<u64, u64>>,
    votes: Seq<Vote>,
    contests: Seq<ContestView>,
) -> bool {
    forall|contest_id: u64|
        match find_contest(contests, contest_id) {
            Some(contest) => {
                &&& #[trigger] sums.contains_key(contest_id) <==> accepted(votes, contest) > 0
                &&& sums.contains_key(contest_id) ==> counts_match(
                    sums[contest_id]@,
                    votes,
                    contest,
                )
            },
            None => !sums.contains_key(contest_id),
        }
}

/// Adds one vote for the choice `choice_id` of the contest `contest_id`.
fn record(sums: &mut HashMap<u64, HashMap<u64, u64>>, contest_id: u64, choice_id: u64)
    requires
        count_in(counts_in(old(sums)@, contest_id), choice_id) < u64::MAX,
    ensures
        final(sums)@ == old(sums)@.insert(contest_id, final(sums)@[contest_id]),
        final(sums)@[contest_id]@ == counts_in(old(sums)@, contest_id).insert(
            choice_id,
            (count_in(counts_in(old(sums)@, contest_id), choice_id) + 1) as u64,
        ),
{
    broadcast use vstd::std_specs::hash::group_hash_axioms;

    let contest_record = sums.entry(contest_id).or_insert(HashMap::new());
    let vote_record = contest_record.entry(choice_id).or_insert(0);
    *vote_record += 1;
}

/// A valid vote, once recorded, keeps the sums in step with the votes.
proof fn lemma_sums_after_valid(
    before: Map<u64, HashMap<u64, u64>>,
    after: Map<u64, HashMap<u64, u64>>,
    votes: Seq<Vote>,
    vote: Vote,
    contests: Seq<ContestView>,
)
    requires
        sums_match(before, votes, contests),
        is_valid(vote, contests),
        after == before.insert(vote.contest_id, after[vote.contest_id]),
        after[vote.contest_id]@ == counts_in(before, vote.contest_id).insert(
            vote.choice_id,
            (count_in(counts_in(before, vote.contest_id), vote.choice_id) + 1) as u64,
        ),
        votes.len() < u64::MAX,
    ensures
        sums_match(after, votes.push(vote), contests),
{
    let more = votes.push(vote);
    assert forall|contest_id: u64|
        match find_contest(contests, contest_id) {
            Some(contest) => {
                &&& #[trigger] after.contains_key(contest_id) <==> accepted(more, contest) > 0
                &&& after.contains_key(contest_id) ==> counts_match(
                    after[contest_id]@,
                    more,
                    contest,
                )
            },
            None => !after.contains_key(contest_id),
        } by {
        lemma_find_contest(contests, contest_id);
        match find_contest(contests, contest_id) {
            Some(contest) => {
                lemma_accepted_push(votes, vote, contest);
                if contest_id == vote.contest_id {
                    let old_counts = counts_in(before, contest_id);
                    let new_counts = after[contest_id]@;
                    assert forall|choice_id: u64|
                        {
                            &&& #[trigger] new_counts.contains_key(choice_id) <==> choice_ballots(
                                more,
                                contest,
                                choice_id,
                            ) > 0
                            &&& count_in(new_counts, choice_id) == choice_ballots(
                                more,
                                contest,
                                choice_id,
                            )
                        } by {
                        lemma_ballots_push(votes, vote, contest.id, choice_id);
                        lemma_choice_ballots_bound(votes, contest, choice_id);
                        lemma_accepted_bound(votes, contest);
                        if before.contains_key(contest_id) {
                            assert(old_counts.contains_key(choice_id) <==> choice_ballots(
                                votes,
                                contest,
                                choice_id,
                            ) > 0);
                        }
                    }
                } else {
                    assert(before.contains_key(contest_id) <==> accepted(votes, contest) > 0);
                    if after.contains_key(contest_id) {
                        let counts = after[contest_id]@;
                        assert(counts_match(counts, votes, contest));
                        assert forall|choice_id: u64|
                            {
                                &&& #[trigger] counts.contains_key(choice_id) <==> choice_ballots(
                                    more,
                                    contest,
                                    choice_id,
                                ) > 0
                                &&& count_in(counts, choice_id) == choice_ballots(
                                    more,
                                    contest,
                                    choice_id,
                                )
                            } by {
                            lemma_ballots_push(votes, vote, contest.id, choice_id);
                            assert(counts.contains_key(choice_id) <==> choice_ballots(
                                votes,
                                contest,
                                choice_id,
                            ) > 0);
                        }
                    }
                }
            },
            None => {},
        }
    }
}

/// An invalid vote leaves the sums in step with the votes.
proof fn lemma_sums_after_invalid(
    sums: Map<u64, HashMap<u64, u64>>,
    votes: Seq<Vote>,
    vote: Vote,
    contests: Seq<ContestView>,
)
    requires
        sums_match(sums, votes, contests),
        !is_valid(vote, contests),
    ensures
        sums_match(sums, votes.push(vote), contests),
{
    let more = votes.push(vote);
    assert forall|contest_id: u64|
        match find_contest(contests, contest_id) {
            Some(contest) => {
                &&& #[trigger] sums.contains_key(contest_id) <==> accepted(more, contest) > 0
                &&& sums.contains_key(contest_id) ==> counts_match(sums[contest_id]@, more, contest)
            },
            None => !sums.contains_key(contest_id),
        } by {
        lemma_find_contest(contests, contest_id);
        match find_contest(contests, contest_id) {
            Some(contest) => {
                lemma_accepted_push(votes, vote, contest);
                assert(sums.contains_key(contest_id) <==> accepted(votes, contest) > 0);
                if sums.contains_key(contest_id) {
                    let counts = sums[contest_id]@;
                    assert(counts_match(counts, votes, contest));
                    assert forall|choice_id: u64|
                        {
                            &&& #[trigger] counts.contains_key(choice_id) <==> choice_ballots(
                                more,
                                contest,
                                choice_id,
                            ) > 0
                            &&& count_in(counts, choice_id) == choice_ballots(
                                more,
                                contest,
                                choice_id,
                            )
                        } by {
                        lemma_ballots_push(votes, vote, contest.id, choice_id);
                        assert(counts.contains_key(choice_id) <==> choice_ballots(
                            votes,
                            contest,
                            choice_id,
                        ) > 0);
                    }
                }
            },
            None => {},
        }
    }
}

/// Sums the valid votes per contest and choice.
fn sum_votes(votes: &Vec<Vote>, contest_list: &ContestList) -> (votes_sum: HashMap<
    u64,
    HashMap<u64, u64>,
>)
    ensures
        sums_match(votes_sum@, votes@, contest_list@),
{
    let mut votes_sum: HashMap<u64, HashMap<u64, u64>> = HashMap::new();
    proof {
        assert forall|contest_id: u64|
            match find_contest(contest_list@, contest_id) {
                Some(contest) => {
                    &&& #[trigger] votes_sum@.contains_key(contest_id) <==> accepted(
                        votes@.take(0),
                        contest,
                    ) > 0
                    &&& votes_sum@.contains_key(contest_id) ==> counts_match(
                        votes_sum@[contest_id]@,
                        votes@.take(0),
                        contest,
                    )
                },
                None => !votes_sum@.contains_key(contest_id),
            } by {}
    }
    for i in 0..votes.len()
        invariant
            sums_match(votes_sum@, votes@.take(i as int), contest_list@),
    {
        let vote = votes[i];
        let ghost counted = votes@.take(i as int);
        let ghost before = votes_sum@;
        assert(votes@.take(i + 1) == counted.push(vote));
        match check_vote(&vote, contest_list) {
            Some(_) => {
                proof {
                    lemma_sums_after_invalid(before, counted, vote, contest_list@);
                }
            },
            None => {
                proof {
                    let contest = find_contest(contest_list@, vote.contest_id).unwrap();
                    lemma_choice_ballots_bound(counted, contest, vote.choice_id);
                    lemma_accepted_bound(counted, contest);
                    assert(before.contains_key(vote.contest_id) ==> counts_match(
                        before[vote.contest_id]@,
                        counted,
                        contest,
                    ));
                }
                record(&mut votes_sum, vote.contest_id, vote.choice_id);
                proof {
                    lemma_sums_after_valid(before, votes_sum@, counted, vote, contest_list@);
                }
            },
        }
    }
    assert(votes@.take(votes.len() as int) == votes@);
    votes_sum
}

/// Builds the result of one contest from the counts of its choices.
fn contest_outcome(
    contest: &Contest,
    counts: HashMap<u64, u64>,
    Ghost(votes): Ghost<Seq<Vote>>,
) -> (outcome: ContestResult)
    requires
        votes.len() <= usize::MAX,
        accepted(votes, contest@) > 0,
        counts_match(counts@, votes, contest@),
    ensures
        outcome@ == contest_result(votes, contest@),
{
    broadcast use vstd::std_specs::hash::group_hash_axioms;

    let mut counts = counts;
    let ghost all = counts@;
    let ghost ids = choice_ids(contest@.choices);
    let choices = contest.choices.as_slice();
    let mut total_votes: u64 = 0;
    let mut max_vote: u64 = 0;
    let mut winner_choice_id: u64 = 0;
    let mut results: Vec<ResultVote> = Vec::new();

    for j in 0..choices.len()
        invariant
            votes.len() <= usize::MAX,
            counts_match(all, votes, contest@),
            choice_views(choices@) == contest@.choices,
            ids == choice_ids(contest@.choices),
            forall|choice_id: u64| #[trigger]
                counts@.contains_key(choice_id) <==> all.contains_key(choice_id) && !occurs_before(
                    ids,
                    j as int,
                    choice_id,
                ),
            forall|choice_id: u64| #[trigger]
                counts@.contains_key(choice_id) ==> counts@[choice_id] == all[choice_id],
            result_vote_views(results@) == choice_results_upto(votes, contest@, j as int),
            total_votes == sum_counts(choice_results_upto(votes, contest@, j as int)),
            results.len() == 0 ==> max_vote == 0,
            results.len() > 0 ==> {
                let first = leader(result_vote_views(results@));
                &&& 0 <= first < results.len()
                &&& max_vote == results[first].total_count
                &&& winner_choice_id == results[first].choice_id
            },
    {
        let choice_id = choices[j].id;
        let ghost earlier = choice_results_upto(votes, contest@, j as int);
        proof {
            assert(contest@.choices[j as int] == choices[j as int]@);
            assert(ids[j as int] == choice_id);
            lemma_first_match_at(ids, j as int);
            lemma_results_sum_upto(votes, contest@, j + 1);
            lemma_accepted_below_bound(votes, contest@, j + 1);
            lemma_accepted_bound(votes, contest@);
            assert(all.contains_key(choice_id) <==> choice_ballots(votes, contest@, choice_id)
                > 0);
            assert forall|other: u64|
                occurs_before(ids, j + 1, other) <==> occurs_before(ids, j as int, other) || other
                    == choice_id by {
                lemma_occurs_before_step(ids, j as int, other);
            }
        }
        match counts.remove(&choice_id) {
            Some(total_count) => {
                let entry = ResultVote { choice_id, total_count };
                proof {
                    assert(choice_results_upto(votes, contest@, j + 1) == earlier.push(entry@));
                    assert(earlier.push(entry@).drop_last() == earlier);
                    assert(result_vote_views(results@.push(entry)) == result_vote_views(
                        results@,
                    ).push(entry@));
                    assert(result_vote_views(results@.push(entry)).drop_last()
                        == result_vote_views(results@));
                }
                total_votes += total_count;
                if max_vote < total_count {
                    max_vote = total_count;
                    winner_choice_id = choice_id;
                }
                results.push(entry);
            },
            None => {
                assert(choice_results_upto(votes, contest@, j + 1) == earlier);
            },
        }
    }

    proof {
        lemma_accepted_below_ends(votes, contest@);
        lemma_results_sum_upto(votes, contest@, contest@.choices.len() as int);
        lemma_leader_bounds(choice_results(votes, contest@));
        lemma_results_entries(
            votes,
            contest@,
            contest@.choices.len() as int,
            leader(choice_results(votes, contest@)),
        );
    }
    let choice = contest.choices.get_by_id(winner_choice_id).unwrap();
    let winner = Winner { choice_id: winner_choice_id, text: choice.text.clone() };
    ContestResult { contest_id: contest.id, total_votes, results, winner }
}

/// Counts the votes: for every contest of `contest_list` that received a valid
/// vote, the number of its valid votes, their count per choice and the winner.
///
/// Votes that name no contest of the list, or no choice of their contest, are
/// left out. The result is the [`tally`] of the votes.
pub fn count_votes(votes: Vec<Vote>, contest_list: ContestList) -> (contest_results: Vec<
    ContestResult,
>)
    ensures
        contest_result_views(contest_results@) == tally(votes@, contest_list@),
        contest_results@.len() == tally(votes@, contest_list@).len(),
{
    broadcast use vstd::std_specs::hash::group_hash_axioms;

    let mut votes_sum = sum_votes(&votes, &contest_list);
    let ghost all = votes_sum@;
    let ghost ids = contest_ids(contest_list@);
    let contests = contest_list.as_slice();
    let mut contest_results: Vec<ContestResult> = Vec::new();
    assert(votes@.len() == votes.len());

    for i in 0..contests.len()
        invariant
            votes@.len() <= usize::MAX,
            sums_match(all, votes@, contest_list@),
            contest_views(contests@) == contest_list@,
            ids == contest_ids(contest_list@),
            forall|contest_id: u64| #[trigger]
                votes_sum@.contains_key(contest_id) <==> all.contains_key(contest_id)
                    && !occurs_before(ids, i as int, contest_id),
            forall|contest_id: u64| #[trigger]
                votes_sum@.contains_key(contest_id) ==> votes_sum@[contest_id] == all[contest_id],
            contest_result_views(contest_results@) == tally_upto(
                votes@,
                contest_list@,
                i as int,
            ),
    {
        let contest = &contests[i];
        let ghost earlier = tally_upto(votes@, contest_list@, i as int);
        proof {
            assert(contest_list@[i as int] == contest@);
            assert(ids[i as int] == contest.id);
            lemma_first_match_at(ids, i as int);
            if !occurs_before(ids, i as int, contest.id) {
                assert(find_contest(contest_list@, contest.id) == Some(contest@));
                assert(all.contains_key(contest.id) <==> accepted(votes@, contest@) > 0);
            }
            assert forall|other: u64|
                occurs_before(ids, i + 1, other) <==> occurs_before(ids, i as int, other) || other
                    == contest.id by {
                lemma_occurs_before_step(ids, i as int, other);
            }
        }
        match votes_sum.remove(&contest.id) {
            Some(counts) => {
                let outcome = contest_outcome(contest, counts, Ghost(votes@));
                proof {
                    assert(tally_upto(votes@, contest_list@, i + 1) == earlier.push(outcome@));
                    assert(contest_result_views(contest_results@.push(outcome))
                        == contest_result_views(contest_results@).push(outcome@));
                }
                contest_results.push(outcome);
            },
            None => {
                assert(tally_upto(votes@, contest_list@, i + 1) == earlier);
            },
        }
    }
    contest_results
}

} // verus!
