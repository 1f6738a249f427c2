//! Tallying of votes across independent contests.
//!
//! A contest offers a fixed list of choices; a vote names a contest and one of
//! its choices. [`count_votes`] drops the votes that name no known contest or
//! choice and reports, for every contest that received a valid vote, the total,
//! the count per choice and the winner.

pub mod model;
pub mod lookup;
pub mod validate;
pub mod counting;
pub mod tally;
pub mod laws;

pub use model::{
    Choice, ChoiceList, Contest, ContestList, ContestResult, ResultVote, Vote, Winner,
};
pub use validate::{check_vote, rejected_votes, Rejection};
pub use tally::count_votes;
