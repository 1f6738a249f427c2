use tally_votes_exercise::{
    count_votes, Choice, ChoiceList, Contest, ContestList, ContestResult, ResultVote, Vote, Winner,
};

fn choice(id: u64, text: &str) -> Choice {
    Choice { id, text: text.to_string() }
}

fn contest(id: u64, description: &str, choices: Vec<Choice>) -> Contest {
    Contest { id, description: description.to_string(), choices: ChoiceList::new(choices) }
}

fn vote(contest_id: u64, choice_id: u64) -> Vote {
    Vote { contest_id, choice_id }
}

fn languages() -> Contest {
    contest(
        1,
        "Best Programming Language",
        vec![choice(1, "Rust"), choice(2, "Python"), choice(3, "Go")],
    )
}

fn editors() -> Contest {
    contest(2, "Best Editor", vec![choice(10, "Vim"), choice(20, "Emacs")])
}

fn sample_votes() -> Vec<Vote> {
    vec![vote(1, 1), vote(1, 1), vote(1, 2), vote(1, 3)]
}

#[test]
fn normal() {
    let contest_list = ContestList::new(vec![languages()]);
    let contest_results = count_votes(sample_votes(), contest_list);
    assert_eq!(contest_results.len(), 1);
}

#[test]
fn empty() {
    let contest_list = ContestList::new(Vec::new());
    let contest_results = count_votes(sample_votes(), contest_list);
    assert_eq!(contest_results.len(), 0);
}

#[test]
fn wrong_id() {
    let contest_list = ContestList::new(vec![languages()]);
    let votes = vec![vote(1, 1), vote(1, 99), vote(2, 1), vote(1, 2), vote(7, 7), vote(1, 1)];
    let contest_results = count_votes(votes, contest_list);
    assert_eq!(contest_results.len(), 1);
}

#[test]
fn one_contest_is_counted_exactly() {
    let contest_results = count_votes(sample_votes(), ContestList::new(vec![languages()]));
    assert_eq!(
        contest_results,
        vec![ContestResult {
            contest_id: 1,
            total_votes: 4,
            results: vec![
                ResultVote { choice_id: 1, total_count: 2 },
                ResultVote { choice_id: 2, total_count: 1 },
                ResultVote { choice_id: 3, total_count: 1 },
            ],
            winner: Winner { choice_id: 1, text: "Rust".to_string() },
        }]
    );
}

#[test]
fn unknown_choice_and_unknown_contest_leave_nothing() {
    let votes = vec![vote(1, 99), vote(2, 1)];
    let contest_results = count_votes(votes, ContestList::new(vec![languages()]));
    assert_eq!(contest_results, Vec::new());
}

#[test]
fn no_contests_no_results() {
    let votes = vec![vote(1, 1), vote(2, 2), vote(3, 3)];
    assert!(count_votes(votes, ContestList::new(Vec::new())).is_empty());
}

#[test]
fn no_votes_no_results() {
    let contest_list = ContestList::new(vec![languages(), editors()]);
    assert!(count_votes(Vec::new(), contest_list).is_empty());
}

#[test]
fn no_votes_and_no_contests_no_results() {
    assert!(count_votes(Vec::new(), ContestList::new(Vec::new())).is_empty());
}

#[test]
fn two_contests_are_summed_independently() {
    let votes = vec![vote(2, 20), vote(1, 3), vote(2, 20), vote(1, 3), vote(2, 10), vote(1, 1), vote(1, 3)];
    let contest_results = count_votes(votes, ContestList::new(vec![languages(), editors()]));
    assert_eq!(
        contest_results,
        vec![
            ContestResult {
                contest_id: 1,
                total_votes: 4,
                results: vec![
                    ResultVote { choice_id: 1, total_count: 1 },
                    ResultVote { choice_id: 3, total_count: 3 },
                ],
                winner: Winner { choice_id: 3, text: "Go".to_string() },
            },
            ContestResult {
                contest_id: 2,
                total_votes: 3,
                results: vec![
                    ResultVote { choice_id: 10, total_count: 1 },
                    ResultVote { choice_id: 20, total_count: 2 },
                ],
                winner: Winner { choice_id: 20, text: "Emacs".to_string() },
            },
        ]
    );
}

#[test]
fn contests_are_reported_in_the_order_of_their_definition() {
    let votes = vec![vote(2, 10), vote(1, 1)];
    let contest_results = count_votes(votes, ContestList::new(vec![languages(), editors()]));
    let ids: Vec<u64> = contest_results.iter().map(|r| r.contest_id).collect();
    assert_eq!(ids, vec![1, 2]);
}

#[test]
fn results_follow_the_order_of_the_choices() {
    let votes = vec![vote(1, 3), vote(1, 2), vote(1, 1), vote(1, 3)];
    let contest_results = count_votes(votes, ContestList::new(vec![languages()]));
    let ids: Vec<u64> = contest_results[0].results.iter().map(|r| r.choice_id).collect();
    assert_eq!(ids, vec![1, 2, 3]);
}

#[test]
fn a_contest_without_valid_votes_is_absent() {
    let votes = vec![vote(1, 1), vote(2, 99), vote(2, 1)];
    let contest_results = count_votes(votes, ContestList::new(vec![languages(), editors()]));
    assert_eq!(contest_results.len(), 1);
    assert_eq!(contest_results[0].contest_id, 1);
    assert!(contest_results.iter().all(|r| r.contest_id != 2));
}

#[test]
fn a_choice_without_votes_has_no_entry() {
    let votes = vec![vote(1, 2), vote(1, 2)];
    let contest_results = count_votes(votes, ContestList::new(vec![languages()]));
    assert_eq!(contest_results[0].results, vec![ResultVote { choice_id: 2, total_count: 2 }]);
    assert_eq!(contest_results[0].winner, Winner { choice_id: 2, text: "Python".to_string() });
    assert_eq!(contest_results[0].total_votes, 2);
}

#[test]
fn the_choice_offered_first_wins_a_tie() {
    let votes = vec![vote(1, 3), vote(1, 2), vote(1, 3), vote(1, 2)];
    let contest_results = count_votes(votes, ContestList::new(vec![languages()]));
    assert_eq!(contest_results[0].winner, Winner { choice_id: 2, text: "Python".to_string() });

    let votes = vec![vote(1, 2), vote(1, 3), vote(1, 1)];
    let contest_results = count_votes(votes, ContestList::new(vec![languages()]));
    assert_eq!(contest_results[0].winner, Winner { choice_id: 1, text: "Rust".to_string() });
}

#[test]
fn a_later_choice_with_more_votes_wins() {
    let votes = vec![vote(1, 1), vote(1, 3), vote(1, 2), vote(1, 3)];
    let contest_results = count_votes(votes, ContestList::new(vec![languages()]));
    assert_eq!(contest_results[0].winner, Winner { choice_id: 3, text: "Go".to_string() });
}

#[test]
fn duplicate_votes_each_count() {
    let votes = vec![vote(1, 1); 5];
    let contest_results = count_votes(votes, ContestList::new(vec![languages()]));
    assert_eq!(contest_results[0].total_votes, 5);
    assert_eq!(contest_results[0].results, vec![ResultVote { choice_id: 1, total_count: 5 }]);
}

#[test]
fn the_first_contest_with_an_id_shadows_a_later_one() {
    let shadowed = contest(1, "Shadowed", vec![choice(7, "Seven")]);
    let votes = vec![vote(1, 7), vote(1, 1), vote(1, 7)];
    let contest_results = count_votes(votes, ContestList::new(vec![languages(), shadowed]));
    assert_eq!(
        contest_results,
        vec![ContestResult {
            contest_id: 1,
            total_votes: 1,
            results: vec![ResultVote { choice_id: 1, total_count: 1 }],
            winner: Winner { choice_id: 1, text: "Rust".to_string() },
        }]
    );
}

#[test]
fn the_first_choice_with_an_id_shadows_a_later_one() {
    let doubled = contest(5, "Doubled", vec![choice(1, "First"), choice(1, "Second"), choice(2, "Other")]);
    let votes = vec![vote(5, 1), vote(5, 2), vote(5, 1)];
    let contest_results = count_votes(votes, ContestList::new(vec![doubled]));
    assert_eq!(
        contest_results,
        vec![ContestResult {
            contest_id: 5,
            total_votes: 3,
            results: vec![
                ResultVote { choice_id: 1, total_count: 2 },
                ResultVote { choice_id: 2, total_count: 1 },
            ],
            winner: Winner { choice_id: 1, text: "First".to_string() },
        }]
    );
}

#[test]
fn the_same_choice_id_in_two_contests_is_counted_apart() {
    let other = contest(2, "Other", vec![choice(1, "One"), choice(2, "Two")]);
    let votes = vec![vote(1, 1), vote(2, 1), vote(2, 1), vote(2, 2)];
    let contest_results = count_votes(votes, ContestList::new(vec![languages(), other]));
    assert_eq!(contest_results[0].results, vec![ResultVote { choice_id: 1, total_count: 1 }]);
    assert_eq!(
        contest_results[1].results,
        vec![ResultVote { choice_id: 1, total_count: 2 }, ResultVote { choice_id: 2, total_count: 1 }]
    );
    assert_eq!(contest_results[1].winner, Winner { choice_id: 1, text: "One".to_string() });
}

#[test]
fn extreme_ids_are_ordinary_ids() {
    let wide = contest(u64::MAX, "Wide", vec![choice(0, "Zero"), choice(u64::MAX, "Max")]);
    let votes = vec![vote(u64::MAX, u64::MAX), vote(u64::MAX, 0), vote(u64::MAX, u64::MAX), vote(0, 0)];
    let contest_results = count_votes(votes, ContestList::new(vec![wide]));
    assert_eq!(
        contest_results,
        vec![ContestResult {
            contest_id: u64::MAX,
            total_votes: 3,
            results: vec![
                ResultVote { choice_id: 0, total_count: 1 },
                ResultVote { choice_id: u64::MAX, total_count: 2 },
            ],
            winner: Winner { choice_id: u64::MAX, text: "Max".to_string() },
        }]
    );
}

#[test]
fn a_contest_without_choices_accepts_nothing() {
    let bare = contest(3, "Bare", Vec::new());
    let votes = vec![vote(3, 1), vote(3, 0)];
    assert!(count_votes(votes, ContestList::new(vec![bare])).is_empty());
}

#[test]
fn many_votes_are_all_counted() {
    let mut votes = Vec::new();
    for i in 0..3000u64 {
        votes.push(vote(1, 1 + i % 3));
        votes.push(vote(2, 10));
        votes.push(vote(9, 9));
    }
    let contest_results = count_votes(votes, ContestList::new(vec![languages(), editors()]));
    assert_eq!(contest_results.len(), 2);
    assert_eq!(contest_results[0].total_votes, 3000);
    assert_eq!(
        contest_results[0].results,
        vec![
            ResultVote { choice_id: 1, total_count: 1000 },
            ResultVote { choice_id: 2, total_count: 1000 },
            ResultVote { choice_id: 3, total_count: 1000 },
        ]
    );
    assert_eq!(contest_results[0].winner.choice_id, 1);
    assert_eq!(contest_results[1].total_votes, 3000);
    assert_eq!(contest_results[1].results, vec![ResultVote { choice_id: 10, total_count: 3000 }]);
}
