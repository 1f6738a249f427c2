//! What holds of every tally.

use vstd::prelude::*;
use crate::counting::{
    accepted, ballots, choice_ballots, lemma_ballots_push, lemma_choice_ballots_bound, names,
};
use crate::lookup::{
    choice_ids, contest_ids, find_choice, find_contest, first_match, lemma_find_contest,
    lemma_first_match,
};
use crate::model::{ContestResultView, ContestView, ResultVoteView, Vote};
use crate::tally::{
    choice_results, choice_results_upto, contest_result, leader, lemma_accepted_below_ends,
    lemma_leader_bounds, lemma_results_entries, lemma_results_sum_upto, sum_counts, tally,
    tally_upto,
};
use crate::validate::is_valid;

verus! {

/// How many of `votes` are valid and name the contest `contest_id`.
pub open spec fn valid_in_contest(
    votes: Seq<Vote>,
    contests: Seq<ContestView>,
    contest_id: u64,
) -> nat
    decreases votes.len(),
{
    if votes.len() == 0 {
        0
    } else {
        let earlier = valid_in_contest(votes.drop_last(), contests, contest_id);
        if votes.last().contest_id == contest_id && is_valid(votes.last(), contests) {
            earlier + 1
        } else {
            earlier
        }
    }
}

/// How many of `votes` are valid and name the choice `choice_id` of the
/// contest `contest_id`.
pub open spec fn valid_for_choice(
    votes: Seq<Vote>,
    contests: Seq<ContestView>,
    contest_id: u64,
    choice_id: u64,
) -> nat
    decreases votes.len(),
{
    if votes.len() == 0 {
        0
    } else {
        let earlier = valid_for_choice(votes.drop_last(), contests, contest_id, choice_id);
        if names(votes.last(), contest_id, choice_id) && is_valid(votes.last(), contests) {
            earlier + 1
        } else {
            earlier
        }
    }
}

/// The valid votes among `votes`, in the order of the votes.
pub open spec fn valid_votes(votes: Seq<Vote>, contests: Seq<ContestView>) -> Seq<Vote>
    decreases votes.len(),
{
    if votes.len() == 0 {
        Seq::empty()
    } else {
        let earlier = valid_votes(votes.drop_last(), contests);
        if is_valid(votes.last(), contests) {
            earlier.push(votes.last())
        } else {
            earlier
        }
    }
}

/// Whether the entry at `w` leads `results`: no entry has a larger count, and
/// every entry before it has a smaller one.
pub open spec fn leads(results: Seq<ResultVoteView>, w: int) -> bool {
    &&& 0 <= w < results.len()
    &&& forall|j: int|
        0 <= j < results.len() ==> (#[trigger] results[j]).total_count <= results[w].total_count
    &&& forall|j: int| 0 <= j < w ==> (#[trigger] results[j]).total_count < results[w].total_count
}

/// Every entry of the tally over the first `n` contests is the result of one
/// of those contests: of one that is the first with its id and accepted a vote.
pub proof fn lemma_tally_entry(
    votes: Seq<Vote>,
    contests: Seq<ContestView>,
    n: int,
    k: int,
) -> (i: int)
    requires
        0 <= n <= contests.len(),
        0 <= k < tally_upto(votes, contests, n).len(),
    ensures
        0 <= i < n,
        first_match(contest_ids(contests), contests[i].id) == Some(i),
        accepted(votes, contests[i]) > 0,
        tally_upto(votes, contests, n)[k] == contest_result(votes, contests[i]),
    decreases n,
{
    let earlier = tally_upto(votes, contests, n - 1);
    if k < earlier.len() {
        lemma_tally_entry(votes, contests, n - 1, k)
    } else {
        n - 1
    }
}

/// Every contest among the first `n` that is the first with its id and
/// accepted a vote has its result in the tally over those contests.
pub proof fn lemma_tally_holds(
    votes: Seq<Vote>,
    contests: Seq<ContestView>,
    n: int,
    i: int,
) -> (k: int)
    requires
        0 <= i < n <= contests.len(),
        first_match(contest_ids(contests), contests[i].id) == Some(i),
        accepted(votes, contests[i]) > 0,
    ensures
        0 <= k < tally_upto(votes, contests, n).len(),
        tally_upto(votes, contests, n)[k] == contest_result(votes, contests[i]),
    decreases n,
{
    if i == n - 1 {
        tally_upto(votes, contests, n).len() - 1
    } else {
        lemma_tally_holds(votes, contests, n - 1, i)
    }
}

/// Every choice among the first `n` of a contest that is the first with its
/// id and received a vote has its entry in the results over those choices.
pub proof fn lemma_results_hold(votes: Seq<Vote>, contest: ContestView, n: int, j: int) -> (k:
    int)
    requires
        0 <= j < n <= contest.choices.len(),
        first_match(choice_ids(contest.choices), contest.choices[j].id) == Some(j),
        ballots(votes, contest.id, contest.choices[j].id) > 0,
    ensures
        0 <= k < choice_results_upto(votes, contest, n).len(),
        choice_results_upto(votes, contest, n)[k].choice_id == contest.choices[j].id,
    decreases n,
{
    if j == n - 1 {
        choice_results_upto(votes, contest, n).len() - 1
    } else {
        lemma_results_hold(votes, contest, n - 1, j)
    }
}

/// The first contest with a given id accepts exactly the valid votes that
/// name that id.
pub proof fn lemma_accepted_is_valid(
    votes: Seq<Vote>,
    contests: Seq<ContestView>,
    contest_id: u64,
)
    ensures
        match find_contest(contests, contest_id) {
            Some(contest) => accepted(votes, contest) == valid_in_contest(
                votes,
                contests,
                contest_id,
            ),
            None => valid_in_contest(votes, contests, contest_id) == 0,
        },
    decreases votes.len(),
{
    lemma_find_contest(contests, contest_id);
    if votes.len() > 0 {
        lemma_accepted_is_valid(votes.drop_last(), contests, contest_id);
    }
}

/// The first contest with a given id accepts, for each choice, exactly the
/// valid votes that name the id and the choice.
pub proof fn lemma_choice_ballots_are_valid(
    votes: Seq<Vote>,
    contests: Seq<ContestView>,
    contest_id: u64,
    choice_id: u64,
)
    ensures
        match find_contest(contests, contest_id) {
            Some(contest) => choice_ballots(votes, contest, choice_id) == valid_for_choice(
                votes,
                contests,
                contest_id,
                choice_id,
            ),
            None => valid_for_choice(votes, contests, contest_id, choice_id) == 0,
        },
    decreases votes.len(),
{
    lemma_find_contest(contests, contest_id);
    if votes.len() > 0 {
        lemma_choice_ballots_are_valid(votes.drop_last(), contests, contest_id, choice_id);
    }
}

/// The leading entry leads.
pub proof fn lemma_leader_leads(results: Seq<ResultVoteView>)
    requires
        results.len() > 0,
    ensures
        leads(results, leader(results)),
    decreases results.len(),
{
    if results.len() > 1 {
        let front = results.drop_last();
        lemma_leader_leads(front);
        let before = leader(front);
        assert forall|j: int| 0 <= j < results.len() implies (#[trigger] results[j]).total_count
            <= results[leader(results)].total_count by {
            if j < front.len() {
                assert(front[j].total_count <= front[before].total_count);
            }
        }
        assert forall|j: int| 0 <= j < leader(results) implies (#[trigger] results[j]).total_count
            < results[leader(results)].total_count by {
            assert(front[j].total_count <= front[before].total_count);
            if j < before {
                assert(front[j].total_count < front[before].total_count);
            }
        }
    }
}

/// Without votes the tally is empty, whatever the contests.
pub proof fn law_no_votes(contests: Seq<ContestView>)
    ensures
        tally(Seq::<Vote>::empty(), contests) == Seq::<ContestResultView>::empty(),
{
    let votes = Seq::<Vote>::empty();
    if tally(votes, contests).len() > 0 {
        let i = lemma_tally_entry(votes, contests, contests.len() as int, 0);
    }
}

/// Without contests the tally is empty, whatever the votes.
pub proof fn law_no_contests(votes: Seq<Vote>)
    ensures
        tally(votes, Seq::<ContestView>::empty()) == Seq::<ContestResultView>::empty(),
{
}

/// The total of every reported contest is the sum of the counts of its results.
pub proof fn law_total_is_sum(votes: Seq<Vote>, contests: Seq<ContestView>)
    ensures
        forall|k: int|
            0 <= k < tally(votes, contests).len() ==> (#[trigger] tally(
                votes,
                contests,
            )[k]).total_votes == sum_counts(tally(votes, contests)[k].results),
{
    assert forall|k: int| 0 <= k < tally(votes, contests).len() implies (#[trigger] tally(
        votes,
        contests,
    )[k]).total_votes == sum_counts(tally(votes, contests)[k].results) by {
        let i = lemma_tally_entry(votes, contests, contests.len() as int, k);
        let contest = contests[i];
        lemma_results_sum_upto(votes, contest, contest.choices.len() as int);
        lemma_accepted_below_ends(votes, contest);
    }
}

/// Every reported contest is a contest of the list, and every choice in its
/// results, its winner too, is a choice that the first contest with that id
/// offers. The winner's text is the text of that choice.
pub proof fn law_referential_integrity(votes: Seq<Vote>, contests: Seq<ContestView>)
    ensures
        forall|k: int|
            0 <= k < tally(votes, contests).len() ==> {
                let result = #[trigger] tally(votes, contests)[k];
                let contest = find_contest(contests, result.contest_id);
                &&& contest is Some
                &&& forall|j: int|
                    0 <= j < result.results.len() ==> find_choice(
                        contest.unwrap().choices,
                        (#[trigger] result.results[j]).choice_id,
                    ) is Some
                &&& find_choice(contest.unwrap().choices, result.winner.choice_id) is Some
                &&& result.winner.text == find_choice(
                    contest.unwrap().choices,
                    result.winner.choice_id,
                ).unwrap().text
            },
{
    assert forall|k: int| 0 <= k < tally(votes, contests).len() implies {
        let result = #[trigger] tally(votes, contests)[k];
        let contest = find_contest(contests, result.contest_id);
        &&& contest is Some
        &&& forall|j: int|
            0 <= j < result.results.len() ==> find_choice(
                contest.unwrap().choices,
                (#[trigger] result.results[j]).choice_id,
            ) is Some
        &&& find_choice(contest.unwrap().choices, result.winner.choice_id) is Some
        &&& result.winner.text == find_choice(
            contest.unwrap().choices,
            result.winner.choice_id,
        ).unwrap().text
    } by {
        let i = lemma_tally_entry(votes, contests, contests.len() as int, k);
        let contest = contests[i];
        let entries = choice_results(votes, contest);
        assert(find_contest(contests, contest.id) == Some(contest));
        assert forall|j: int| 0 <= j < entries.len() implies find_choice(
            contest.choices,
            (#[trigger] entries[j]).choice_id,
        ) is Some by {
            lemma_results_entries(votes, contest, contest.choices.len() as int, j);
        }
        lemma_results_sum_upto(votes, contest, contest.choices.len() as int);
        lemma_accepted_below_ends(votes, contest);
        lemma_leader_bounds(entries);
    }
}

/// The winner of every reported contest is one of its results, no result has
/// a larger count, and every result before it has a smaller one: among the
/// choices with the most votes, the one that the contest offers first wins.
pub proof fn law_winner_leads(votes: Seq<Vote>, contests: Seq<ContestView>)
    ensures
        forall|k: int|
            0 <= k < tally(votes, contests).len() ==> {
                let result = #[trigger] tally(votes, contests)[k];
                let w = leader(result.results);
                &&& leads(result.results, w)
                &&& result.results[w].choice_id == result.winner.choice_id
            },
{
    assert forall|k: int| 0 <= k < tally(votes, contests).len() implies {
        let result = #[trigger] tally(votes, contests)[k];
        let w = leader(result.results);
        &&& leads(result.results, w)
        &&& result.results[w].choice_id == result.winner.choice_id
    } by {
        let i = lemma_tally_entry(votes, contests, contests.len() as int, k);
        let contest = contests[i];
        lemma_results_sum_upto(votes, contest, contest.choices.len() as int);
        lemma_accepted_below_ends(votes, contest);
        lemma_leader_leads(choice_results(votes, contest));
    }
}

/// A contest id is reported exactly when a valid vote names it: a contest
/// without valid votes has no result.
pub proof fn law_reported_iff_valid_vote(
    votes: Seq<Vote>,
    contests: Seq<ContestView>,
    contest_id: u64,
)
    ensures
        (exists|k: int|
            0 <= k < tally(votes, contests).len() && (#[trigger] tally(
                votes,
                contests,
            )[k]).contest_id == contest_id) <==> valid_in_contest(votes, contests, contest_id) > 0,
{
    let n = contests.len() as int;
    let ids = contest_ids(contests);
    lemma_accepted_is_valid(votes, contests, contest_id);
    lemma_first_match(ids, contest_id);
    if exists|k: int|
        0 <= k < tally(votes, contests).len() && (#[trigger] tally(votes, contests)[k]).contest_id
            == contest_id {
        let k = choose|k: int|
            0 <= k < tally(votes, contests).len() && (#[trigger] tally(
                votes,
                contests,
            )[k]).contest_id == contest_id;
        let i = lemma_tally_entry(votes, contests, n, k);
        assert(find_contest(contests, contest_id) == Some(contests[i]));
    }
    if valid_in_contest(votes, contests, contest_id) > 0 {
        let i = first_match(ids, contest_id).unwrap();
        assert(contests[i].id == ids[i]);
        let k = lemma_tally_holds(votes, contests, n, i);
        assert(tally(votes, contests)[k].contest_id == contest_id);
    }
}

/// Every total counts valid votes only: the total of a reported contest is
/// the number of valid votes that name it, and the count of each of its
/// results is the number of valid votes that name the contest and the choice.
pub proof fn law_totals_count_valid_votes(votes: Seq<Vote>, contests: Seq<ContestView>)
    ensures
        forall|k: int|
            0 <= k < tally(votes, contests).len() ==> {
                let result = #[trigger] tally(votes, contests)[k];
                &&& result.total_votes == valid_in_contest(votes, contests, result.contest_id)
                &&& forall|j: int|
                    0 <= j < result.results.len() ==> (#[trigger] result.results[j]).total_count
                        == valid_for_choice(
                        votes,
                        contests,
                        result.contest_id,
                        result.results[j].choice_id,
                    )
            },
{
    assert forall|k: int| 0 <= k < tally(votes, contests).len() implies {
        let result = #[trigger] tally(votes, contests)[k];
        &&& result.total_votes == valid_in_contest(votes, contests, result.contest_id)
        &&& forall|j: int|
            0 <= j < result.results.len() ==> (#[trigger] result.results[j]).total_count
                == valid_for_choice(
                votes,
                contests,
                result.contest_id,
                result.results[j].choice_id,
            )
    } by {
        let i = lemma_tally_entry(votes, contests, contests.len() as int, k);
        let contest = contests[i];
        let entries = choice_results(votes, contest);
        assert(find_contest(contests, contest.id) == Some(contest));
        lemma_accepted_is_valid(votes, contests, contest.id);
        assert forall|j: int| 0 <= j < entries.len() implies (#[trigger] entries[j]).total_count
            == valid_for_choice(votes, contests, contest.id, entries[j].choice_id) by {
            lemma_results_entries(votes, contest, contest.choices.len() as int, j);
            lemma_choice_ballots_are_valid(votes, contests, contest.id, entries[j].choice_id);
        }
    }
}

/// Every choice that a valid vote names has an entry in the results of its
/// contest.
pub proof fn law_voted_choice_is_reported(
    votes: Seq<Vote>,
    contests: Seq<ContestView>,
    contest_id: u64,
    choice_id: u64,
)
    requires
        valid_for_choice(votes, contests, contest_id, choice_id) > 0,
    ensures
        exists|k: int, j: int|
            0 <= k < tally(votes, contests).len() && 0 <= j < tally(
                votes,
                contests,
            )[k].results.len() && tally(votes, contests)[k].contest_id == contest_id
                && #[trigger] tally(votes, contests)[k].results[j].choice_id == choice_id,
{
    let ids = contest_ids(contests);
    lemma_choice_ballots_are_valid(votes, contests, contest_id, choice_id);
    lemma_first_match(ids, contest_id);
    let i = first_match(ids, contest_id).unwrap();
    let contest = contests[i];
    assert(contest.id == ids[i]);
    lemma_choice_ballots_bound(votes, contest, choice_id);
    let k = lemma_tally_holds(votes, contests, contests.len() as int, i);
    let choice_list = choice_ids(contest.choices);
    lemma_first_match(choice_list, choice_id);
    let c = first_match(choice_list, choice_id).unwrap();
    assert(contest.choices[c].id == choice_list[c]);
    let j = lemma_results_hold(votes, contest, contest.choices.len() as int, c);
    assert(tally(votes, contests)[k].results[j].choice_id == choice_id);
}

/// Every entry of the results over the first `n` choices stands for one of
/// those choices: for one that is the first of the contest with its id.
pub proof fn lemma_results_entry(votes: Seq<Vote>, contest: ContestView, n: int, k: int) -> (j:
    int)
    requires
        0 <= n <= contest.choices.len(),
        0 <= k < choice_results_upto(votes, contest, n).len(),
    ensures
        0 <= j < n,
        first_match(choice_ids(contest.choices), contest.choices[j].id) == Some(j),
        choice_results_upto(votes, contest, n)[k].choice_id == contest.choices[j].id,
    decreases n,
{
    let earlier = choice_results_upto(votes, contest, n - 1);
    if k < earlier.len() {
        lemma_results_entry(votes, contest, n - 1, k)
    } else {
        n - 1
    }
}

/// No two entries of the results over the first `n` choices name one choice.
pub proof fn lemma_results_distinct(
    votes: Seq<Vote>,
    contest: ContestView,
    n: int,
    k1: int,
    k2: int,
)
    requires
        0 <= n <= contest.choices.len(),
        0 <= k1 < k2 < choice_results_upto(votes, contest, n).len(),
    ensures
        choice_results_upto(votes, contest, n)[k1].choice_id != choice_results_upto(
            votes,
            contest,
            n,
        )[k2].choice_id,
    decreases n,
{
    let earlier = choice_results_upto(votes, contest, n - 1);
    if k2 < earlier.len() {
        lemma_results_distinct(votes, contest, n - 1, k1, k2);
    } else {
        let j = lemma_results_entry(votes, contest, n - 1, k1);
    }
}

/// No two entries of the tally over the first `n` contests report one contest id.
pub proof fn lemma_tally_distinct(
    votes: Seq<Vote>,
    contests: Seq<ContestView>,
    n: int,
    k1: int,
    k2: int,
)
    requires
        0 <= n <= contests.len(),
        0 <= k1 < k2 < tally_upto(votes, contests, n).len(),
    ensures
        tally_upto(votes, contests, n)[k1].contest_id != tally_upto(
            votes,
            contests,
            n,
        )[k2].contest_id,
    decreases n,
{
    let earlier = tally_upto(votes, contests, n - 1);
    if k2 < earlier.len() {
        lemma_tally_distinct(votes, contests, n - 1, k1, k2);
    } else {
        let i = lemma_tally_entry(votes, contests, n - 1, k1);
    }
}

/// No contest id is reported twice, and no result of a reported contest names
/// a choice twice.
pub proof fn law_reported_once(votes: Seq<Vote>, contests: Seq<ContestView>)
    ensures
        forall|k1: int, k2: int|
            0 <= k1 < k2 < tally(votes, contests).len() ==> (#[trigger] tally(
                votes,
                contests,
            )[k1]).contest_id != (#[trigger] tally(votes, contests)[k2]).contest_id,
        forall|k: int, j1: int, j2: int|
            0 <= k < tally(votes, contests).len() && 0 <= j1 < j2 < tally(
                votes,
                contests,
            )[k].results.len() ==> (#[trigger] tally(votes, contests)[k].results[j1]).choice_id
                != (#[trigger] tally(votes, contests)[k].results[j2]).choice_id,
{
    let n = contests.len() as int;
    assert forall|k1: int, k2: int| 0 <= k1 < k2 < tally(votes, contests).len() implies (
    #[trigger] tally(votes, contests)[k1]).contest_id != (#[trigger] tally(
        votes,
        contests,
    )[k2]).contest_id by {
        lemma_tally_distinct(votes, contests, n, k1, k2);
    }
    assert forall|k: int, j1: int, j2: int|
        0 <= k < tally(votes, contests).len() && 0 <= j1 < j2 < tally(
            votes,
            contests,
        )[k].results.len() implies (#[trigger] tally(votes, contests)[k].results[j1]).choice_id
        != (#[trigger] tally(votes, contests)[k].results[j2]).choice_id by {
        let i = lemma_tally_entry(votes, contests, n, k);
        lemma_results_distinct(votes, contests[i], contests[i].choices.len() as int, j1, j2);
    }
}

/// Two sequences of votes in which every choice of `contest` has the same
/// ballots give the contest the same result.
pub proof fn lemma_same_ballots_same_result(
    votes: Seq<Vote>,
    others: Seq<Vote>,
    contest: ContestView,
)
    requires
        forall|j: int|
            0 <= j < contest.choices.len() ==> ballots(
                votes,
                contest.id,
                (#[trigger] contest.choices[j]).id,
            ) == ballots(others, contest.id, contest.choices[j].id),
    ensures
        accepted(votes, contest) == accepted(others, contest),
        contest_result(votes, contest) == contest_result(others, contest),
{
    let n = contest.choices.len() as int;
    lemma_same_ballots_same_results(votes, others, contest, n);
    lemma_results_sum_upto(votes, contest, n);
    lemma_results_sum_upto(others, contest, n);
    lemma_accepted_below_ends(votes, contest);
    lemma_accepted_below_ends(others, contest);
}

/// Two sequences of votes in which every choice of `contest` has the same
/// ballots give the same results over its first `n` choices.
pub proof fn lemma_same_ballots_same_results(
    votes: Seq<Vote>,
    others: Seq<Vote>,
    contest: ContestView,
    n: int,
)
    requires
        0 <= n <= contest.choices.len(),
        forall|j: int|
            0 <= j < contest.choices.len() ==> ballots(
                votes,
                contest.id,
                (#[trigger] contest.choices[j]).id,
            ) == ballots(others, contest.id, contest.choices[j].id),
    ensures
        choice_results_upto(votes, contest, n) == choice_results_upto(others, contest, n),
    decreases n,
{
    if n > 0 {
        lemma_same_ballots_same_results(votes, others, contest, n - 1);
        assert(ballots(votes, contest.id, contest.choices[n - 1].id) == ballots(
            others,
            contest.id,
            contest.choices[n - 1].id,
        ));
    }
}

/// Two sequences of votes that give every contest of the list the same
/// result have the same tally over its first `n` contests.
pub proof fn lemma_same_results_same_tally(
    votes: Seq<Vote>,
    others: Seq<Vote>,
    contests: Seq<ContestView>,
    n: int,
)
    requires
        0 <= n <= contests.len(),
        forall|i: int|
            0 <= i < contests.len() && first_match(
                contest_ids(contests),
                (#[trigger] contests[i]).id,
            ) == Some(i) ==> accepted(votes, contests[i]) == accepted(others, contests[i])
                && contest_result(votes, contests[i]) == contest_result(others, contests[i]),
    ensures
        tally_upto(votes, contests, n) == tally_upto(others, contests, n),
    decreases n,
{
    if n > 0 {
        lemma_same_results_same_tally(votes, others, contests, n - 1);
        let contest = contests[n - 1];
        if first_match(contest_ids(contests), contest.id) == Some(n - 1) {
            assert(accepted(votes, contest) == accepted(others, contest));
        }
    }
}

/// The valid votes have, for each choice, the ballots of the valid votes
/// that name it.
pub proof fn lemma_ballots_of_valid_votes(
    votes: Seq<Vote>,
    contests: Seq<ContestView>,
    contest_id: u64,
    choice_id: u64,
)
    ensures
        ballots(valid_votes(votes, contests), contest_id, choice_id) == valid_for_choice(
            votes,
            contests,
            contest_id,
            choice_id,
        ),
    decreases votes.len(),
{
    if votes.len() > 0 {
        lemma_ballots_of_valid_votes(votes.drop_last(), contests, contest_id, choice_id);
        lemma_ballots_push(
            valid_votes(votes.drop_last(), contests),
            votes.last(),
            contest_id,
            choice_id,
        );
    }
}

/// Invalid votes change nothing: the tally of the votes is the tally of the
/// valid votes among them.
pub proof fn law_rejection_isolation(votes: Seq<Vote>, contests: Seq<ContestView>)
    ensures
        tally(votes, contests) == tally(valid_votes(votes, contests), contests),
{
    let valid = valid_votes(votes, contests);
    assert forall|i: int|
        0 <= i < contests.len() && first_match(contest_ids(contests), (#[trigger] contests[i]).id)
            == Some(i) implies accepted(votes, contests[i]) == accepted(valid, contests[i])
        && contest_result(votes, contests[i]) == contest_result(valid, contests[i]) by {
        let contest = contests[i];
        assert(find_contest(contests, contest.id) == Some(contest));
        assert forall|j: int| 0 <= j < contest.choices.len() implies ballots(
            votes,
            contest.id,
            (#[trigger] contest.choices[j]).id,
        ) == ballots(valid, contest.id, contest.choices[j].id) by {
            let id = contest.choices[j].id;
            assert(choice_ids(contest.choices)[j] == id);
            lemma_first_match(choice_ids(contest.choices), id);
            lemma_ballots_of_valid_votes(votes, contests, contest.id, id);
            lemma_choice_ballots_are_valid(votes, contests, contest.id, id);
        }
        lemma_same_ballots_same_result(votes, valid, contest);
    }
    lemma_same_results_same_tally(votes, valid, contests, contests.len() as int);
}

/// The ballots of a choice are the occurrences of its vote among the votes.
pub proof fn lemma_ballots_are_occurrences(votes: Seq<Vote>, contest_id: u64, choice_id: u64)
    ensures
        ballots(votes, contest_id, choice_id) == votes.to_multiset().count(
            Vote { contest_id, choice_id },
        ),
    decreases votes.len(),
{
    if votes.len() == 0 {
        votes.to_multiset_ensures();
    } else {
        lemma_ballots_are_occurrences(votes.drop_last(), contest_id, choice_id);
        vstd::seq_lib::to_multiset_build(votes.drop_last(), votes.last());
        assert(votes.drop_last().push(votes.last()) == votes);
    }
}

/// The order of the votes does not matter: two sequences that hold the same
/// votes, each as often, have the same tally.
pub proof fn law_order_independent(
    votes: Seq<Vote>,
    others: Seq<Vote>,
    contests: Seq<ContestView>,
)
    requires
        votes.to_multiset() == others.to_multiset(),
    ensures
        tally(votes, contests) == tally(others, contests),
{
    assert forall|i: int|
        0 <= i < contests.len() && first_match(contest_ids(contests), (#[trigger] contests[i]).id)
            == Some(i) implies accepted(votes, contests[i]) == accepted(others, contests[i])
        && contest_result(votes, contests[i]) == contest_result(others, contests[i]) by {
        let contest = contests[i];
        assert forall|j: int| 0 <= j < contest.choices.len() implies ballots(
            votes,
            contest.id,
            (#[trigger] contest.choices[j]).id,
        ) == ballots(others, contest.id, contest.choices[j].id) by {
            lemma_ballots_are_occurrences(votes, contest.id, contest.choices[j].id);
            lemma_ballots_are_occurrences(others, contest.id, contest.choices[j].id);
        }
        lemma_same_ballots_same_result(votes, others, contest);
    }
    lemma_same_results_same_tally(votes, others, contests, contests.len() as int);
}

} // verus!
