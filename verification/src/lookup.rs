//! Finding a contest or a choice by its id: the first entry with that id counts.

use vstd::prelude::*;
use crate::model::{
    choice_views, contest_views, Choice, ChoiceList, ChoiceView, Contest, ContestList, ContestView,
};

verus! {

/// Whether `i` is the position of the first entry of `ids` that equals `id`.
pub open spec fn is_first_match(ids: Seq<u64>, id: u64, i: int) -> bool {
    &&& 0 <= i < ids.len()
    &&& ids[i] == id
    &&& forall|k: int| 0 <= k < i ==> ids[k] != id
}

/// Whether one of the first `n` entries of `ids` equals `id`.
pub open spec fn occurs_before(ids: Seq<u64>, n: int, id: u64) -> bool {
    exists|k: int| 0 <= k < n && ids[k] == id
}

/// The position of the first entry of `ids` that equals `id`, if there is one.
pub open spec fn first_match(ids: Seq<u64>, id: u64) -> Option<int> {
    if exists|i: int| is_first_match(ids, id, i) {
        Some(choose|i: int| is_first_match(ids, id, i))
    } else {
        None
    }
}

/// The ids of `choices`, in order.
pub open spec fn choice_ids(choices: Seq<ChoiceView>) -> Seq<u64> {
    choices.map_values(|c: ChoiceView| c.id)
}

/// The ids of `contests`, in order.
pub open spec fn contest_ids(contests: Seq<ContestView>) -> Seq<u64> {
    contests.map_values(|c: ContestView| c.id)
}

/// The first choice of `choices` whose id is `id`, if there is one.
pub open spec fn find_choice(choices: Seq<ChoiceView>, id: u64) -> Option<ChoiceView> {
    match first_match(choice_ids(choices), id) {
        Some(i) => Some(choices[i]),
        None => None,
    }
}

/// The first contest of `contests` whose id is `id`, if there is one.
pub open spec fn find_contest(contests: Seq<ContestView>, id: u64) -> Option<ContestView> {
    match first_match(contest_ids(contests), id) {
        Some(i) => Some(contests[i]),
        None => None,
    }
}

/// A first match is the only one: `first_match` returns it.
pub proof fn lemma_first_match_is(ids: Seq<u64>, id: u64, i: int)
    requires
        is_first_match(ids, id, i),
    ensures
        first_match(ids, id) == Some(i),
{
    let j = choose|j: int| is_first_match(ids, id, j);
    assert(is_first_match(ids, id, j));
    if j < i {
        assert(ids[j] != id);
    } else if i < j {
        assert(ids[i] != id);
    }
}

/// `first_match` finds an entry exactly when some entry equals `id`, and the
/// entry that it finds is the first of them.
pub proof fn lemma_first_match(ids: Seq<u64>, id: u64)
    ensures
        match first_match(ids, id) {
            Some(i) => is_first_match(ids, id, i),
            None => forall|k: int| 0 <= k < ids.len() ==> ids[k] != id,
        },
    decreases ids.len(),
{
    if first_match(ids, id) is None {
        if ids.len() > 0 {
            let front = ids.drop_last();
            lemma_first_match(front, id);
            if first_match(front, id) is Some {
                let i = first_match(front, id).unwrap();
                assert(is_first_match(front, id, i));
                assert forall|k: int| 0 <= k < i implies ids[k] != id by {
                    assert(front[k] != id);
                }
                assert(is_first_match(ids, id, i));
            } else if ids.last() == id {
                assert forall|k: int| 0 <= k < ids.len() - 1 implies ids[k] != id by {
                    assert(front[k] != id);
                }
                assert(is_first_match(ids, id, ids.len() - 1));
            } else {
                assert forall|k: int| 0 <= k < ids.len() implies ids[k] != id by {
                    if k < ids.len() - 1 {
                        assert(front[k] != id);
                    }
                }
            }
        }
    }
}

/// An id occurs among the first `n + 1` entries where it occurs among the
/// first `n` or is the next one.
pub proof fn lemma_occurs_before_step(ids: Seq<u64>, n: int, id: u64)
    requires
        0 <= n < ids.len(),
    ensures
        occurs_before(ids, n + 1, id) <==> occurs_before(ids, n, id) || ids[n] == id,
{
    if occurs_before(ids, n + 1, id) {
        let k = choose|k: int| 0 <= k < n + 1 && ids[k] == id;
        if k < n {
            assert(occurs_before(ids, n, id));
        }
    }
    if occurs_before(ids, n, id) {
        let k = choose|k: int| 0 <= k < n && ids[k] == id;
        assert(0 <= k < n + 1 && ids[k] == id);
    }
    if ids[n] == id {
        assert(0 <= n < n + 1 && ids[n] == id);
    }
}

/// The entry at `n` is the first match of its id exactly when the id does
/// not occur before it.
pub proof fn lemma_first_match_at(ids: Seq<u64>, n: int)
    requires
        0 <= n < ids.len(),
    ensures
        first_match(ids, ids[n]) == Some(n) <==> !occurs_before(ids, n, ids[n]),
{
    lemma_first_match(ids, ids[n]);
    if !occurs_before(ids, n, ids[n]) {
        assert(is_first_match(ids, ids[n], n));
        lemma_first_match_is(ids, ids[n], n);
    } else {
        let k = choose|k: int| 0 <= k < n && ids[k] == ids[n];
        assert(ids[k] == ids[n]);
    }
}

/// What `find_contest` finds has the id asked for and is a contest of the
/// list; it finds nothing only where no contest has that id.
pub proof fn lemma_find_contest(contests: Seq<ContestView>, id: u64)
    ensures
        match find_contest(contests, id) {
            Some(contest) => contest.id == id && contests.contains(contest),
            None => forall|k: int| 0 <= k < contests.len() ==> contests[k].id != id,
        },
{
    lemma_first_match(contest_ids(contests), id);
    if first_match(contest_ids(contests), id) is None {
        assert forall|k: int| 0 <= k < contests.len() implies contests[k].id != id by {
            assert(contest_ids(contests)[k] != id);
        }
    }
}

impl ChoiceList {
    /// Retrieve a choice by its id: the first choice of the list with that id.
    pub fn get_by_id(&self, choice_id: u64) -> (found: Option<&Choice>)
        ensures
            match found {
                Some(choice) => find_choice(self@, choice_id) == Some(choice@),
                None => find_choice(self@, choice_id) is None,
            },
    {
        let choices = self.as_slice();
        let mut i: usize = 0;
        while i < choices.len()
            invariant
                i <= choices.len(),
                choice_views(choices@) == self@,
                forall|k: int| 0 <= k < i ==> choice_ids(self@)[k] != choice_id,
            decreases choices.len() - i,
        {
            if choices[i].id == choice_id {
                proof {
                    assert(self@[i as int] == choices[i as int]@);
                    assert(is_first_match(choice_ids(self@), choice_id, i as int));
                    lemma_first_match_is(choice_ids(self@), choice_id, i as int);
                }
                return Some(&choices[i]);
            }
            assert(self@[i as int] == choices[i as int]@);
            i += 1;
        }
        proof {
            lemma_first_match(choice_ids(self@), choice_id);
        }
        None
    }
}

impl ContestList {
    /// Retrieve a contest by its id: the first contest of the list with that id.
    pub fn get_by_id(&self, contest_id: u64) -> (found: Option<&Contest>)
        ensures
            match found {
                Some(contest) => find_contest(self@, contest_id) == Some(contest@),
                None => find_contest(self@, contest_id) is None,
            },
    {
        let contests = self.as_slice();
        let mut i: usize = 0;
        while i < contests.len()
            invariant
                i <= contests.len(),
                contest_views(contests@) == self@,
                forall|k: int| 0 <= k < i ==> contest_ids(self@)[k] != contest_id,
            decreases contests.len() - i,
        {
            if contests[i].id == contest_id {
                proof {
                    assert(self@[i as int] == contests[i as int]@);
                    assert(is_first_match(contest_ids(self@), contest_id, i as int));
                    lemma_first_match_is(contest_ids(self@), contest_id, i as int);
                }
                return Some(&contests[i]);
            }
            assert(self@[i as int] == contests[i as int]@);
            i += 1;
        }
        proof {
            lemma_first_match(contest_ids(self@), contest_id);
        }
        None
    }
}

} // verus!
