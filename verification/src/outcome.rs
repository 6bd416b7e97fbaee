//! What a check of one URL ends in, and how a failure is written down.

use crate::text::decimal;
use crate::text::to_decimal;
use vstd::prelude::*;

verus! {

/// The characters of an optional string.
pub open spec fn opt_text(s: Option<String>) -> Option<Seq<char>> {
    match s {
        Some(t) => Some(t@),
        None => None,
    }
}

/// Why a check did not succeed.
#[derive(Debug, PartialEq, Eq)]
pub enum CheckerError {
    /// No attempt was made yet. A fetcher starts with this and replaces it at
    /// its first failed attempt; it never leaves the fetcher.
    NotTried,
    /// A request was answered, but not with status 200. `location` holds the
    /// redirect target where the status was a redirection and named one.
    HttpError { status: u16, location: Option<String> },
    /// A request failed below HTTP: no connection, no address, no answer in
    /// time. `error` is the description of that failure.
    ReqwestError { error: String },
}

/// A [`CheckerError`] as plain values.
pub enum CheckerErrorView {
    NotTried,
    HttpError { status: u16, location: Option<Seq<char>> },
    ReqwestError { error: Seq<char> },
}

impl View for CheckerError {
    type V = CheckerErrorView;

    open spec fn view(&self) -> CheckerErrorView {
        match *self {
            CheckerError::NotTried => CheckerErrorView::NotTried,
            CheckerError::HttpError { status, location } => CheckerErrorView::HttpError {
                status,
                location: opt_text(location),
            },
            CheckerError::ReqwestError { error } => CheckerErrorView::ReqwestError { error: error@ },
        }
    }
}

/// The line that reports the failure `error` of the check of `url`:
/// `[<status>] <url> -> <location>` for a status with a redirect target,
/// `[<status>] <url>` for a status without one, and the error written out
/// with its variant's name for the other two.
pub open spec fn diagnostic(error: CheckerErrorView, url: Seq<char>) -> Seq<char> {
    match error {
        CheckerErrorView::HttpError { status, location: Some(target) } => "["@ + decimal(
            status as nat,
        ) + "] "@ + url + " -> "@ + target,
        CheckerErrorView::HttpError { status, location: None } => "["@ + decimal(status as nat)
            + "] "@ + url,
        CheckerErrorView::ReqwestError { error } => "ReqwestError { error: "@ + error + " }"@,
        CheckerErrorView::NotTried => "NotTried"@,
    }
}

/// Every diagnostic has at least one character.
pub proof fn lemma_diagnostic_nonempty(error: CheckerErrorView, url: Seq<char>)
    ensures
        diagnostic(error, url).len() > 0,
{
    reveal_strlit("[");
    reveal_strlit("ReqwestError { error: ");
    reveal_strlit("NotTried");
}

impl CheckerError {
    /// Writes the line that reports this failure of the check of `url`.
    pub fn message(&self, url: &str) -> (line: String)
        ensures
            line@ == diagnostic(self@, url@),
            line@.len() > 0,
    {
        proof {
            lemma_diagnostic_nonempty(self@, url@);
        }
        match self {
            CheckerError::HttpError { status, location } => {
                let mut line = String::from_str("[");
                let number = to_decimal(*status as u64);
                line.append(number.as_str());
                line.append("] ");
                line.append(url);
                match location {
                    Some(target) => {
                        line.append(" -> ");
                        line.append(target.as_str());
                    },
                    None => {},
                }
                line
            },
            CheckerError::ReqwestError { error } => {
                let mut line = String::from_str("ReqwestError { error: ");
                line.append(error.as_str());
                line.append(" }");
                line
            },
            CheckerError::NotTried => String::from_str("NotTried"),
        }
    }

    /// A copy of this error.
    pub fn duplicate(&self) -> (copy: CheckerError)
        ensures
            copy@ == self@,
    {
        match self {
            CheckerError::NotTried => CheckerError::NotTried,
            CheckerError::HttpError { status, location } => {
                let location = match location {
                    Some(target) => Some(target.clone()),
                    None => None,
                };
                CheckerError::HttpError { status: *status, location }
            },
            CheckerError::ReqwestError { error } => CheckerError::ReqwestError {
                error: error.clone(),
            },
        }
    }
}

/// What the check of one URL ended in.
#[derive(Debug, PartialEq, Eq)]
pub enum CheckOutcome {
    /// A request was answered with status 200.
    Success,
    /// Every attempt failed; this is the failure of the last one.
    Failure(CheckerError),
}

/// A [`CheckOutcome`] as plain values.
pub enum CheckOutcomeView {
    Success,
    Failure(CheckerErrorView),
}

impl View for CheckOutcome {
    type V = CheckOutcomeView;

    open spec fn view(&self) -> CheckOutcomeView {
        match *self {
            CheckOutcome::Success => CheckOutcomeView::Success,
            CheckOutcome::Failure(error) => CheckOutcomeView::Failure(error@),
        }
    }
}

impl CheckOutcome {
    /// A copy of this outcome.
    pub fn duplicate(&self) -> (copy: CheckOutcome)
        ensures
            copy@ == self@,
    {
        match self {
            CheckOutcome::Success => CheckOutcome::Success,
            CheckOutcome::Failure(error) => CheckOutcome::Failure(error.duplicate()),
        }
    }
}

/// The mark that is printed when a check is over: a check mark for a success,
/// a cross for a failure, each followed by a space.
pub open spec fn progress_marker(outcome: CheckOutcomeView) -> Seq<char> {
    match outcome {
        CheckOutcomeView::Success => "\u{2714} "@,
        CheckOutcomeView::Failure(_) => "\u{2718} "@,
    }
}

impl CheckOutcome {
    /// The mark to print for this outcome.
    pub fn marker(&self) -> (mark: &'static str)
        ensures
            mark@ == progress_marker(self@),
    {
        match self {
            CheckOutcome::Success => "\u{2714} ",
            CheckOutcome::Failure(_) => "\u{2718} ",
        }
    }
}

} // verus!
