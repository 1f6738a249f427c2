use tally_votes_exercise::{
    check_vote, rejected_votes, Choice, ChoiceList, Contest, ContestList, Rejection, Vote,
};

fn choices() -> ChoiceList {
    ChoiceList::new(vec![
        Choice { id: 1, text: "Rust".to_string() },
        Choice { id: 2, text: "Python".to_string() },
        Choice { id: 1, text: "Again".to_string() },
        Choice { id: 3, text: "Go".to_string() },
    ])
}

fn contest_list() -> ContestList {
    ContestList::new(vec![
        Contest { id: 1, description: "Best Programming Language".to_string(), choices: choices() },
        Contest {
            id: 2,
            description: "Second".to_string(),
            choices: ChoiceList::new(vec![Choice { id: 8, text: "Eight".to_string() }]),
        },
        Contest {
            id: 1,
            description: "Shadowed".to_string(),
            choices: ChoiceList::new(vec![Choice { id: 9, text: "Nine".to_string() }]),
        },
    ])
}

#[test]
fn a_choice_is_found_by_its_id() {
    let list = choices();
    assert_eq!(list.get_by_id(2), Some(&Choice { id: 2, text: "Python".to_string() }));
    assert_eq!(list.get_by_id(3).map(|c| c.text.as_str()), Some("Go"));
}

#[test]
fn the_first_choice_with_the_id_is_found() {
    assert_eq!(choices().get_by_id(1).map(|c| c.text.as_str()), Some("Rust"));
}

#[test]
fn an_unknown_choice_is_not_found() {
    assert_eq!(choices().get_by_id(4), None);
    assert_eq!(choices().get_by_id(0), None);
    assert_eq!(ChoiceList::new(Vec::new()).get_by_id(1), None);
}

#[test]
fn a_contest_is_found_by_its_id() {
    let list = contest_list();
    assert_eq!(list.get_by_id(2).map(|c| c.description.as_str()), Some("Second"));
}

#[test]
fn the_first_contest_with_the_id_is_found() {
    let list = contest_list();
    let found = list.get_by_id(1).expect("contest 1 is defined");
    assert_eq!(found.description, "Best Programming Language");
    assert_eq!(found.choices, choices());
}

#[test]
fn an_unknown_contest_is_not_found() {
    assert!(contest_list().get_by_id(3).is_none());
    assert!(ContestList::new(Vec::new()).get_by_id(1).is_none());
}

#[test]
fn lists_give_back_what_they_hold() {
    let list = choices();
    assert_eq!(list.as_slice().len(), 4);
    assert_eq!(list.as_slice()[2].text, "Again");
    let inner = list.into_inner();
    assert_eq!(ChoiceList::new(inner), choices());

    let list = contest_list();
    assert_eq!(list.as_slice().len(), 3);
    assert_eq!(list.as_slice()[1].id, 2);
    let inner = list.into_inner();
    assert_eq!(inner[2].description, "Shadowed");
    assert_eq!(ContestList::new(inner), contest_list());
}

#[test]
fn a_valid_vote_is_not_rejected() {
    let list = contest_list();
    assert_eq!(check_vote(&Vote { contest_id: 1, choice_id: 3 }, &list), None);
    assert_eq!(check_vote(&Vote { contest_id: 2, choice_id: 8 }, &list), None);
}

#[test]
fn a_vote_for_an_unknown_contest_is_rejected() {
    let list = contest_list();
    assert_eq!(
        check_vote(&Vote { contest_id: 5, choice_id: 1 }, &list),
        Some(Rejection::UnknownContest { contest_id: 5 })
    );
    assert_eq!(
        check_vote(&Vote { contest_id: 5, choice_id: 1 }, &ContestList::new(Vec::new())),
        Some(Rejection::UnknownContest { contest_id: 5 })
    );
}

#[test]
fn a_vote_for_an_unknown_choice_is_rejected() {
    let list = contest_list();
    assert_eq!(
        check_vote(&Vote { contest_id: 2, choice_id: 1 }, &list),
        Some(Rejection::UnknownChoice { contest_id: 2, choice_id: 1 })
    );
}

#[test]
fn a_choice_of_a_shadowed_contest_is_unknown() {
    let list = contest_list();
    assert_eq!(
        check_vote(&Vote { contest_id: 1, choice_id: 9 }, &list),
        Some(Rejection::UnknownChoice { contest_id: 1, choice_id: 9 })
    );
}

#[test]
fn rejections_come_in_the_order_of_the_votes() {
    let votes = vec![
        Vote { contest_id: 1, choice_id: 99 },
        Vote { contest_id: 1, choice_id: 1 },
        Vote { contest_id: 7, choice_id: 1 },
        Vote { contest_id: 2, choice_id: 8 },
        Vote { contest_id: 1, choice_id: 99 },
    ];
    assert_eq!(
        rejected_votes(&votes, &contest_list()),
        vec![
            Rejection::UnknownChoice { contest_id: 1, choice_id: 99 },
            Rejection::UnknownContest { contest_id: 7 },
            Rejection::UnknownChoice { contest_id: 1, choice_id: 99 },
        ]
    );
}

#[test]
fn two_bad_votes_give_two_rejections() {
    let list = ContestList::new(vec![Contest {
        id: 1,
        description: "Best Programming Language".to_string(),
        choices: ChoiceList::new(vec![
            Choice { id: 1, text: "Rust".to_string() },
            Choice { id: 2, text: "Python".to_string() },
            Choice { id: 3, text: "Go".to_string() },
        ]),
    }]);
    let votes = vec![Vote { contest_id: 1, choice_id: 99 }, Vote { contest_id: 2, choice_id: 1 }];
    assert_eq!(
        rejected_votes(&votes, &list),
        vec![
            Rejection::UnknownChoice { contest_id: 1, choice_id: 99 },
            Rejection::UnknownContest { contest_id: 2 },
        ]
    );
}

#[test]
fn valid_votes_give_no_rejections() {
    let votes = vec![Vote { contest_id: 1, choice_id: 1 }, Vote { contest_id: 2, choice_id: 8 }];
    assert!(rejected_votes(&votes, &contest_list()).is_empty());
    assert!(rejected_votes(&Vec::new(), &contest_list()).is_empty());
}
