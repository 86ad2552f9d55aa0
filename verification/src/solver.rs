//! The solver's side of an analysis, without the solver.
//!
//! An analysis writes its queries down instead of sending them. Whoever
//! owns a solver sends them one by one, in order, and hands the answers back;
//! the functions here say which query is due and what the answers amount to.
//! The solver confirms an assertion by printing `unsat` on a line of its own
//! and by nothing else.
use vstd::prelude::*;
use vstd::string::*;
use crate::error::{AnalysisError, AnalysisErrorView, duplicate, result_view};
use crate::text::{same, texts};
use crate::tree::Span;

verus! {

/// One verification query: the solver text to send, and the span of the
/// assertion that it decides.
#[derive(Clone, Debug, PartialEq, Eq)]
pub struct Query {
    pub smt: String,
    pub span: Span,
}

pub struct QueryView {
    pub smt: Seq<char>,
    pub span: Span,
}

impl View for Query {
    type V = QueryView;

    open spec fn view(&self) -> QueryView {
        QueryView { smt: self.smt@, span: self.span }
    }
}

pub open spec fn queries_view(queries: Seq<Query>) -> Seq<QueryView> {
    queries.map_values(|q: Query| q@)
}

/// What an analysis leaves behind: the queries it issued, in order, and how
/// the walk itself ended.
#[derive(Debug, PartialEq, Eq)]
pub struct Report {
    pub queries: Vec<Query>,
    pub outcome: Result<(), AnalysisError>,
}

pub struct ReportView {
    pub queries: Seq<QueryView>,
    pub outcome: Result<(), AnalysisErrorView>,
}

impl View for Report {
    type V = ReportView;

    open spec fn view(&self) -> ReportView {
        ReportView { queries: queries_view(self.queries@), outcome: result_view(self.outcome) }
    }
}

/// What is to be done next about a report.
#[derive(Debug, PartialEq, Eq)]
pub enum Step {
    /// Send the query at this index and come back with the answer.
    Ask(usize),
    /// The run is over, with this result.
    Done(Result<(), AnalysisError>),
}

pub enum StepView {
    Ask(int),
    Done(Result<(), AnalysisErrorView>),
}

impl View for Step {
    type V = StepView;

    open spec fn view(&self) -> StepView {
        match *self {
            Step::Ask(index) => StepView::Ask(index as int),
            Step::Done(result) => StepView::Done(result_view(result)),
        }
    }
}

/// The only answer that confirms an assertion.
pub open spec fn confirms(output: Seq<char>) -> bool {
    output == "unsat\n"@
}

/// What one answer means for its query: the assertion holds, or it failed
/// to verify, with the solver's words and the assertion's span.
pub open spec fn verdict(query: QueryView, output: Seq<char>) -> Result<(), AnalysisErrorView> {
    if confirms(output) {
        Ok(())
    } else {
        Err(AnalysisErrorView::VerifyError { message: output, span: query.span })
    }
}

/// The step that is due when the queries before the `i`-th are confirmed:
/// the first answer from there on that confirms nothing ends the run; the
/// first query without an answer is to be asked; when no query is left, the
/// run ends as the walk did.
pub open spec fn step_from(report: ReportView, outputs: Seq<Seq<char>>, i: int) -> StepView
    decreases report.queries.len() - i,
{
    if i < 0 || i >= report.queries.len() {
        StepView::Done(report.outcome)
    } else if i >= outputs.len() {
        StepView::Ask(i)
    } else if !confirms(outputs[i]) {
        StepView::Done(verdict(report.queries[i], outputs[i]))
    } else {
        step_from(report, outputs, i + 1)
    }
}

/// The step that is due for a report, given the answers to its first
/// queries.
pub open spec fn next_step(report: ReportView, outputs: Seq<Seq<char>>) -> StepView {
    step_from(report, outputs, 0)
}

/// Judges the solver's answer to one query.
pub fn judge(query: &Query, output: String) -> (r: Result<(), AnalysisError>)
    ensures
        result_view(r) == verdict(query@, output@),
{
    if same(output.as_str(), "unsat\n") {
        Ok(())
    } else {
        Err(AnalysisError::VerifyError { message: output, span: query.span })
    }
}

impl Report {
    /// Says what is due, given the answers to the first queries: see
    /// `next_step`.
    pub fn advance(&self, outputs: &Vec<String>) -> (r: Step)
        ensures
            r@ == next_step(self@, texts(outputs@)),
    {
        let mut i: usize = 0;
        while i < self.queries.len()
            invariant
                0 <= i <= self.queries.len(),
                step_from(self@, texts(outputs@), i as int) == next_step(self@, texts(outputs@)),
            decreases self.queries.len() - i,
        {
            if i >= outputs.len() {
                return Step::Ask(i);
            }
            assert(texts(outputs@)[i as int] == outputs@[i as int]@);
            assert(self@.queries[i as int] == self.queries@[i as int]@);
            match judge(&self.queries[i], outputs[i].clone()) {
                Ok(()) => {},
                Err(e) => {
                    return Step::Done(Err(e));
                },
            }
            i = i + 1;
        }
        match &self.outcome {
            Ok(()) => Step::Done(Ok(())),
            Err(e) => Step::Done(Err(duplicate(e))),
        }
    }
}

} // verus!
