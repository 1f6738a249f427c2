//! The records that a tally reads and produces, each with its mathematical view.

use vstd::prelude::*;

verus! {

/// One selectable option within a contest.
#[derive(Debug, Clone, PartialEq, Eq)]
pub struct Choice {
    pub id: u64,
    pub text: String,
}

/// A [`Choice`] as contracts see it.
pub struct ChoiceView {
    pub id: u64,
    pub text: Seq<char>,
}

impl View for Choice {
    type V = ChoiceView;

    open spec fn view(&self) -> ChoiceView {
        ChoiceView { id: self.id, text: self.text@ }
    }
}

/// The views of a sequence of choices, in the same order.
pub open spec fn choice_views(choices: Seq<Choice>) -> Seq<ChoiceView> {
    choices.map_values(|c: Choice| c@)
}

/// The choices of one contest, in the order in which the contest offers them.
#[derive(Debug, Clone, PartialEq, Eq)]
pub struct ChoiceList(Vec<Choice>);

impl View for ChoiceList {
    type V = Seq<ChoiceView>;

    closed spec fn view(&self) -> Seq<ChoiceView> {
        choice_views(self.0@)
    }
}

impl ChoiceList {
    /// A list that holds `choices` in the given order.
    pub fn new(choices: Vec<Choice>) -> (list: ChoiceList)
        ensures
            list@ == choice_views(choices@),
    {
        ChoiceList(choices)
    }

    /// Gives the choices back, in order.
    pub fn into_inner(self) -> (choices: Vec<Choice>)
        ensures
            choice_views(choices@) == self@,
    {
        self.0
    }

    /// The choices as a slice, in order.
    pub fn as_slice(&self) -> (choices: &[Choice])
        ensures
            choice_views(choices@) == self@,
    {
        self.0.as_slice()
    }
}

/// A named decision with a fixed, ordered list of choices.
#[derive(Debug, Clone, PartialEq, Eq)]
pub struct Contest {
    pub id: u64,
    pub description: String,
    pub choices: ChoiceList,
}

/// A [`Contest`] as contracts see it.
pub struct ContestView {
    pub id: u64,
    pub description: Seq<char>,
    pub choices: Seq<ChoiceView>,
}

impl View for Contest {
    type V = ContestView;

    open spec fn view(&self) -> ContestView {
        ContestView { id: self.id, description: self.description@, choices: self.choices@ }
    }
}

/// The views of a sequence of contests, in the same order.
pub open spec fn contest_views(contests: Seq<Contest>) -> Seq<ContestView> {
    contests.map_values(|c: Contest| c@)
}

/// The contests that votes may refer to, in the order of their definition.
#[derive(Debug, Clone, PartialEq, Eq)]
pub struct ContestList(Vec<Contest>);

impl View for ContestList {
    type V = Seq<ContestView>;

    closed spec fn view(&self) -> Seq<ContestView> {
        contest_views(self.0@)
    }
}

impl ContestList {
    /// A list that holds `contests` in the given order.
    pub fn new(contests: Vec<Contest>) -> (list: ContestList)
        ensures
            list@ == contest_views(contests@),
    {
        ContestList(contests)
    }

    /// Gives the contests back, in order.
    pub fn into_inner(self) -> (contests: Vec<Contest>)
        ensures
            contest_views(contests@) == self@,
    {
        self.0
    }

    /// The contests as a slice, in order.
    pub fn as_slice(&self) -> (contests: &[Contest])
        ensures
            contest_views(contests@) == self@,
    {
        self.0.as_slice()
    }
}

/// A single reference to a contest and one of its choices, to be counted.
#[derive(Debug, Clone, Copy, PartialEq, Eq, Structural)]
pub struct Vote {
    pub contest_id: u64,
    pub choice_id: u64,
}

/// The valid votes that one choice received.
#[derive(Debug, Clone, Copy, PartialEq, Eq, Structural)]
pub struct ResultVote {
    pub choice_id: u64,
    pub total_count: u64,
}

/// A [`ResultVote`] as contracts see it: the count is a natural number.
pub struct ResultVoteView {
    pub choice_id: u64,
    pub total_count: nat,
}

impl View for ResultVote {
    type V = ResultVoteView;

    open spec fn view(&self) -> ResultVoteView {
        ResultVoteView { choice_id: self.choice_id, total_count: self.total_count as nat }
    }
}

/// The views of a sequence of per-choice results, in the same order.
pub open spec fn result_vote_views(results: Seq<ResultVote>) -> Seq<ResultVoteView> {
    results.map_values(|r: ResultVote| r@)
}

/// The choice that won a contest.
#[derive(Debug, Clone, PartialEq, Eq)]
pub struct Winner {
    pub choice_id: u64,
    pub text: String,
}

/// A [`Winner`] as contracts see it.
pub struct WinnerView {
    pub choice_id: u64,
    pub text: Seq<char>,
}

impl View for Winner {
    type V = WinnerView;

    open spec fn view(&self) -> WinnerView {
        WinnerView { choice_id: self.choice_id, text: self.text@ }
    }
}

/// The outcome of one contest that received at least one valid vote.
#[derive(Debug, Clone, PartialEq, Eq)]
pub struct ContestResult {
    pub contest_id: u64,
    pub total_votes: u64,
    pub results: Vec<ResultVote>,
    pub winner: Winner,
}

/// A [`ContestResult`] as contracts see it.
pub struct ContestResultView {
    pub contest_id: u64,
    pub total_votes: nat,
    pub results: Seq<ResultVoteView>,
    pub winner: WinnerView,
}

impl View for ContestResult {
    type V = ContestResultView;

    open spec fn view(&self) -> ContestResultView {
        ContestResultView {
            contest_id: self.contest_id,
            total_votes: self.total_votes as nat,
            results: result_vote_views(self.results@),
            winner: self.winner@,
        }
    }
}

/// The views of a sequence of contest results, in the same order.
pub open spec fn contest_result_views(results: Seq<ContestResult>) -> Seq<ContestResultView> {
    results.map_values(|r: ContestResult| r@)
}

} // verus!
