//! What an analysis can fail with, and what the analysis of one statement
//! hands back.
use vstd::prelude::*;
use vstd::string::*;
use crate::tree::Span;

verus! {

/// What an analysis can fail with.
#[derive(Clone, Debug, PartialEq, Eq)]
pub enum AnalysisError {
    /// The function map has no function under this key.
    FunctionNotFound(u64),
    /// A construct that the engine has no rule for; the text says which.
    UnsupportedPattern(String),
    /// An operator without a solver token; the text is its name.
    UnsupportedOperator(String),
    /// A variable was read before anything was declared for it.
    UnboundVariable(u64),
    /// No error of the analysed program: the value asked for is a free
    /// choice. A `let` takes it as leave to state no equality; no statement
    /// and no analysis ends with it.
    RandFunctions,
    /// The solver did not confirm the assertion at `span`; `message` is
    /// what it printed.
    VerifyError { message: String, span: Span },
}

pub enum AnalysisErrorView {
    FunctionNotFound(u64),
    UnsupportedPattern(Seq<char>),
    UnsupportedOperator(Seq<char>),
    UnboundVariable(u64),
    RandFunctions,
    VerifyError { message: Seq<char>, span: Span },
}

impl View for AnalysisError {
    type V = AnalysisErrorView;

    open spec fn view(&self) -> AnalysisErrorView {
        match *self {
            AnalysisError::FunctionNotFound(id) => AnalysisErrorView::FunctionNotFound(id),
            AnalysisError::UnsupportedPattern(what) => AnalysisErrorView::UnsupportedPattern(what@),
            AnalysisError::UnsupportedOperator(op) => AnalysisErrorView::UnsupportedOperator(op@),
            AnalysisError::UnboundVariable(id) => AnalysisErrorView::UnboundVariable(id),
            AnalysisError::RandFunctions => AnalysisErrorView::RandFunctions,
            AnalysisError::VerifyError { message, span } => AnalysisErrorView::VerifyError {
                message: message@,
                span,
            },
        }
    }
}

/// The refusal of a construct, by its description.
pub open spec fn unsupported_view(what: Seq<char>) -> AnalysisErrorView {
    AnalysisErrorView::UnsupportedPattern(what)
}

/// The refusal of a construct, by its description.
pub fn unsupported(what: &str) -> (e: AnalysisError)
    ensures
        e@ == unsupported_view(what@),
{
    AnalysisError::UnsupportedPattern(String::from_str(what))
}

/// A result with both of its sides taken by their views.
pub open spec fn result_view<T: View>(r: Result<T, AnalysisError>) -> Result<
    T::V,
    AnalysisErrorView,
> {
    match r {
        Ok(t) => Ok(t@),
        Err(e) => Err(e@),
    }
}

/// A copy of an error.
pub fn duplicate(e: &AnalysisError) -> (r: AnalysisError)
    ensures
        r@ == e@,
{
    match e {
        AnalysisError::FunctionNotFound(id) => AnalysisError::FunctionNotFound(*id),
        AnalysisError::UnsupportedPattern(what) => AnalysisError::UnsupportedPattern(what.clone()),
        AnalysisError::UnsupportedOperator(op) => AnalysisError::UnsupportedOperator(op.clone()),
        AnalysisError::UnboundVariable(id) => AnalysisError::UnboundVariable(*id),
        AnalysisError::RandFunctions => AnalysisError::RandFunctions,
        AnalysisError::VerifyError { message, span } => AnalysisError::VerifyError {
            message: message.clone(),
            span: *span,
        },
    }
}

/// What the analysis of one statement hands back: whether it was a `return`,
/// and with which rendered value; or whether it was the annotation of a loop
/// invariant, which the statement after it must answer.
#[derive(Clone, Debug, PartialEq, Eq)]
pub enum AnalysisType {
    Return(Option<String>),
    Invariant,
    Other,
}

pub enum AnalysisTypeView {
    Return(Option<Seq<char>>),
    Invariant,
    Other,
}

impl View for AnalysisType {
    type V = AnalysisTypeView;

    open spec fn view(&self) -> AnalysisTypeView {
        match *self {
            AnalysisType::Return(Some(value)) => AnalysisTypeView::Return(Some(value@)),
            AnalysisType::Return(None) => AnalysisTypeView::Return(None),
            AnalysisType::Invariant => AnalysisTypeView::Invariant,
            AnalysisType::Other => AnalysisTypeView::Other,
        }
    }
}

impl AnalysisType {
    /// Whether the statement was a `return`.
    pub fn is_return(&self) -> (b: bool)
        ensures
            b == (self@ is Return),
    {
        match self {
            AnalysisType::Return(..) => true,
            AnalysisType::Invariant => false,
            AnalysisType::Other => false,
        }
    }
}

} // verus!
