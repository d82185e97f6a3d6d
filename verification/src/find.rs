use vstd::prelude::*;
use crate::outpoint::{OutPoint, SatPoint};

verus! {

/// Where a satoshi is asked for: one satoshi, or every satoshi from `sat`
/// up to `end`, in all outputs or in the named ones only.
#[derive(Clone, Debug, PartialEq, Eq)]
pub struct Find {
    pub outpoint: Vec<OutPoint>,
    pub sat: u64,
    pub end: Option<u64>,
}

/// Where the satoshi was found.
#[derive(Clone, Copy, Debug, PartialEq, Eq)]
pub struct Output {
    pub satpoint: SatPoint,
}

/// Where a range of satoshis begins, and how many of them lie there.
#[derive(Clone, Copy, Debug, PartialEq, Eq)]
pub struct RangeOutput {
    pub satpoint: SatPoint,
    pub count: u64,
}

/// What the index is to be asked.
#[derive(Clone, Copy, Debug, PartialEq, Eq)]
pub enum Query {
    /// Where the satoshi lies.
    Sat { sat: u64 },
    /// Where the satoshis from `start` up to `end` lie.
    Range { start: u64, end: u64 },
}

/// What is reported for a search that succeeded.
#[derive(Clone, Copy, Debug, PartialEq, Eq)]
pub enum Found {
    Sat(Output),
    Range(RangeOutput),
}

/// Why a search reports nothing.
#[derive(Clone, Copy, Debug, PartialEq, Eq)]
pub enum FindError {
    /// The range does not begin before its end.
    RangeEmpty,
    /// The index holds nothing of the range.
    RangeNotMined,
    /// The index does not hold the satoshi, in any output.
    SatNotMined,
    /// The named outputs do not hold the satoshi.
    SatNotFound,
}

impl FindError {
    /// The text of the message, as a view.
    pub open spec fn text(self) -> Seq<char> {
        match self {
            FindError::RangeEmpty => "range is empty"@,
            FindError::RangeNotMined => "range has not been mined as of index height"@,
            FindError::SatNotMined => "sat has not been mined as of index height"@,
            FindError::SatNotFound => "sat was not found in satpoint(s)"@,
        }
    }

    /// The message that tells a user of the failure.
    pub fn message(&self) -> (message: String)
        ensures
            message@ == self.text(),
    {
        match self {
            FindError::RangeEmpty => "range is empty".to_owned(),
            FindError::RangeNotMined => "range has not been mined as of index height".to_owned(),
            FindError::SatNotMined => "sat has not been mined as of index height".to_owned(),
            FindError::SatNotFound => "sat was not found in satpoint(s)".to_owned(),
        }
    }
}

impl Find {
    /// What to ask the index: for a range that begins before its end, the
    /// range; for no range, the satoshi. An empty range is refused
    /// without asking.
    pub fn query(&self) -> (r: Result<Query, FindError>)
        ensures
            r == match self.end {
                Some(end) => if self.sat < end {
                    Ok(Query::Range { start: self.sat, end })
                } else {
                    Err(FindError::RangeEmpty)
                },
                None => Ok(Query::Sat { sat: self.sat }),
            },
    {
        match self.end {
            Some(end) => {
                if self.sat < end {
                    Ok(Query::Range { start: self.sat, end })
                } else {
                    Err(FindError::RangeEmpty)
                }
            },
            None => Ok(Query::Sat { sat: self.sat }),
        }
    }

    /// Decides what a search reports, from what the index answered:
    /// `satpoint` for the one satoshi, `range` for the range, each `None`
    /// where the index found nothing or was not asked.
    pub fn run(&self, satpoint: Option<SatPoint>, range: Option<RangeOutput>) -> (r: Result<
        Found,
        FindError,
    >)
        ensures
            self.end is Some && self.sat >= self.end->Some_0 ==> r == Err::<Found, FindError>(
                FindError::RangeEmpty,
            ),
            self.end is Some && self.sat < self.end->Some_0 ==> r == match range {
                Some(range) => Ok(Found::Range(range)),
                None => Err(FindError::RangeNotMined),
            },
            self.end is None ==> r == match satpoint {
                Some(satpoint) => Ok(Found::Sat(Output { satpoint })),
                None => Err(
                    if self.outpoint@.len() == 0 {
                        FindError::SatNotMined
                    } else {
                        FindError::SatNotFound
                    },
                ),
            },
    {
        match self.query() {
            Err(error) => Err(error),
            Ok(Query::Range { .. }) => match range {
                Some(range) => Ok(Found::Range(range)),
                None => Err(FindError::RangeNotMined),
            },
            Ok(Query::Sat { .. }) => match satpoint {
                Some(satpoint) => Ok(Found::Sat(Output { satpoint })),
                None => if self.outpoint.len() == 0 {
                    Err(FindError::SatNotMined)
                } else {
                    Err(FindError::SatNotFound)
                },
            },
        }
    }
}

} // verus!
