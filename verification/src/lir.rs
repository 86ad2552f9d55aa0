//! The entries of a path log.
use vstd::prelude::*;
use vstd::string::*;
use crate::error::{AnalysisError, AnalysisErrorView, result_view, unsupported, unsupported_view};
use crate::text::{joined, negated, negated_text, unary, unary_text};
use crate::tree::{Span, Ty};

verus! {

#[derive(Clone, Debug, PartialEq, Eq)]
pub enum LirKind {
    /// Brings in a symbolic name of a type.
    Declaration { name: String, ty: Ty },
    /// A boolean constraint, in solver syntax, that holds at this point.
    Assume(String),
    /// Solver text rendered earlier, taken over as it is.
    Assumptions(String),
}

/// One entry of a path log, with the span of the source that caused it.
#[derive(Clone, Debug, PartialEq, Eq)]
pub struct Lir {
    pub kind: LirKind,
    pub span: Span,
}

pub enum LirKindView {
    Declaration { name: Seq<char>, ty: Ty },
    Assume(Seq<char>),
    Assumptions(Seq<char>),
}

pub struct LirView {
    pub kind: LirKindView,
    pub span: Span,
}

impl View for LirKind {
    type V = LirKindView;

    open spec fn view(&self) -> LirKindView {
        match *self {
            LirKind::Declaration { name, ty } => LirKindView::Declaration { name: name@, ty },
            LirKind::Assume(constraint) => LirKindView::Assume(constraint@),
            LirKind::Assumptions(text) => LirKindView::Assumptions(text@),
        }
    }
}

impl View for Lir {
    type V = LirView;

    open spec fn view(&self) -> LirView {
        LirView { kind: self.kind@, span: self.span }
    }
}

/// The entry that declares `name`.
pub open spec fn declaration(name: Seq<char>, ty: Ty, span: Span) -> LirView {
    LirView { kind: LirKindView::Declaration { name, ty }, span }
}

/// The entry that assumes `constraint`.
pub open spec fn assumption(constraint: Seq<char>, span: Span) -> LirView {
    LirView { kind: LirKindView::Assume(constraint), span }
}

/// The entry that takes over rendered text.
pub open spec fn snapshot(text: Seq<char>, span: Span) -> LirView {
    LirView { kind: LirKindView::Assumptions(text), span }
}

/// The solver's sort for a type, where it has one.
pub open spec fn sort_text(ty: Ty) -> Option<Seq<char>> {
    match ty {
        Ty::Bool => Some("Bool"@),
        Ty::Int => Some("Int"@),
        Ty::Float => Some("Real"@),
        Ty::Str => Some("String"@),
        Ty::Other => None,
    }
}

/// `(declare-const name sort)` and a line end.
pub open spec fn declare_text(name: Seq<char>, sort: Seq<char>) -> Seq<char> {
    "(declare-const "@ + name + " "@ + sort + ")\n"@
}

/// `(assert constraint)` and a line end.
pub open spec fn assert_text(constraint: Seq<char>) -> Seq<char> {
    unary_text("assert"@, constraint) + "\n"@
}

/// The solver statement of an entry: a declaration of a constant for a
/// `Declaration`, an `assert` for an `Assume`, the text itself for
/// `Assumptions`. A declaration of a type without a sort is refused.
pub open spec fn smt_text(entry: LirView) -> Result<Seq<char>, AnalysisErrorView> {
    match entry.kind {
        LirKindView::Declaration { name, ty } => match sort_text(ty) {
            Some(sort) => Ok(declare_text(name, sort)),
            None => Err(unsupported_view("Unsupported type"@)),
        },
        LirKindView::Assume(constraint) => Ok(assert_text(constraint)),
        LirKindView::Assumptions(text) => Ok(text),
    }
}

/// The solver statement that asks for a counterexample to an assumed
/// constraint: the `assert` of its negation.
pub open spec fn refute_text(entry: LirView) -> Seq<char> {
    assert_text(negated_text(entry.kind->Assume_0))
}

/// The solver's sort for a type, where it has one.
pub fn sort_name(ty: Ty) -> (r: Option<&'static str>)
    ensures
        match r {
            Some(s) => sort_text(ty) == Some(s@),
            None => sort_text(ty) is None,
        },
{
    match ty {
        Ty::Bool => Some("Bool"),
        Ty::Int => Some("Int"),
        Ty::Float => Some("Real"),
        Ty::Str => Some("String"),
        Ty::Other => None,
    }
}

impl Lir {
    /// An entry that assumes a constraint.
    pub fn new_assume(constraint: String, span: Span) -> (r: Lir)
        ensures
            r@ == assumption(constraint@, span),
    {
        Lir { kind: LirKind::Assume(constraint), span }
    }

    /// An entry that declares a symbolic name.
    pub fn new_parameter(name: String, ty: Ty, span: Span) -> (r: Lir)
        ensures
            r@ == declaration(name@, ty, span),
    {
        Lir { kind: LirKind::Declaration { name, ty }, span }
    }

    /// An entry that takes over rendered solver text.
    pub fn new_assumptions(text: String, span: Span) -> (r: Lir)
        ensures
            r@ == snapshot(text@, span),
    {
        Lir { kind: LirKind::Assumptions(text), span }
    }

    /// The span of the source that caused the entry.
    pub fn get_span(&self) -> (r: Span)
        ensures
            r == self@.span,
    {
        self.span
    }

    /// A copy of the entry.
    pub fn duplicate(&self) -> (r: Lir)
        ensures
            r@ == self@,
    {
        let kind = match &self.kind {
            LirKind::Declaration { name, ty } => LirKind::Declaration { name: name.clone(), ty: *ty },
            LirKind::Assume(constraint) => LirKind::Assume(constraint.clone()),
            LirKind::Assumptions(text) => LirKind::Assumptions(text.clone()),
        };
        Lir { kind, span: self.span }
    }

    /// The solver statement of the entry: see `smt_text`.
    pub fn to_smt(&self) -> (r: Result<String, AnalysisError>)
        ensures
            result_view(r) == smt_text(self@),
    {
        match &self.kind {
            LirKind::Declaration { name, ty } => match sort_name(*ty) {
                Some(sort) => {
                    let mut s = String::from_str("(declare-const ");
                    s.append(name.as_str());
                    s.append(" ");
                    s.append(sort);
                    s.append(")\n");
                    Ok(s)
                },
                None => Err(unsupported("Unsupported type")),
            },
            LirKind::Assume(constraint) => {
                let mut s = unary("assert", constraint.as_str());
                s.append("\n");
                Ok(s)
            },
            LirKind::Assumptions(text) => Ok(text.clone()),
        }
    }

    /// The solver statement that asks for a counterexample to the entry's
    /// constraint: see `refute_text`.
    pub fn to_assert(&self) -> (r: String)
        requires
            self@.kind is Assume,
        ensures
            r@ == refute_text(self@),
    {
        match &self.kind {
            LirKind::Assume(constraint) => {
                let not = negated(constraint.as_str());
                let mut s = unary("assert", not.as_str());
                s.append("\n");
                s
            },
            _ => String::new(),
        }
    }
}

} // verus!
