//! The analyser: the state of one analysis run and the walk that drives it.
//!
//! The analyser never talks to a solver. Where the program asserts
//! something, it writes the query down; `crate::solver` says what to make of
//! the answers.
use std::collections::HashMap;
use vstd::prelude::*;
use vstd::string::*;
use crate::analyze::model::{
    Outcome, State, analysis, assigned, assume_in, declare_in, initial, name_of, queried,
    state_wf,
};
use crate::context::{Context, ContextView, rendered, rendered_for_check};
use crate::error::{AnalysisError, AnalysisErrorView, result_view, unsupported};
use crate::lir::Lir;
use crate::solver::{Query, Report, queries_view};
use crate::text::{marked, scoped, segments, split_path, starts_with, texts};
use crate::tree::{FnDef, RExpr, RExprKind, RThir, Span, Ty};

pub mod constraint;
pub mod model;
pub mod scope;
pub mod walk;

verus! {

broadcast use vstd::std_specs::hash::group_hash_axioms;

pub open spec fn contexts_view(contexts: Seq<Context>) -> Seq<ContextView> {
    contexts.map_values(|c: Context| c@)
}

/// The state of one analysis run over the program `fn_map`: the scope that
/// is being filled, the scopes that wait for it to finish, and the queries
/// issued so far.
pub struct Analyzer<'a> {
    pub fn_map: &'a HashMap<u64, RThir>,
    pub context_stack: Vec<Context>,
    pub current_context: Context,
    pub queries: Vec<Query>,
}

impl<'a> View for Analyzer<'a> {
    type V = State;

    open spec fn view(&self) -> State {
        State {
            current: self.current_context@,
            stack: contexts_view(self.context_stack@),
            queries: queries_view(self.queries@),
        }
    }
}

/// Analyses the program `fn_map` from its entry function `main_id`: see
/// `analysis`.
pub fn analyze(main_id: u64, fn_map: &HashMap<u64, RThir>) -> (r: Report)
    ensures
        queries_view(r.queries@) == analysis(fn_map@, main_id).state.queries,
        result_view(r.outcome) == analysis(fn_map@, main_id).result,
{
    Analyzer::run(main_id, fn_map)
}

impl<'a> Analyzer<'a> {
    /// The functions of the program, by their keys.
    pub open spec fn fns(&self) -> Map<u64, RThir> {
        self.fn_map@
    }

    /// Whether this analyser is what `before` becomes by a step with the
    /// outcome `o` and the result `r`. No step takes a scope off the stack
    /// that it has not put there, and every step keeps the analyser in order.
    pub open spec fn follows<T: View>(
        &self,
        before: &Self,
        r: Result<T, AnalysisError>,
        o: Outcome<T::V>,
    ) -> bool {
        &&& self.fn_map == before.fn_map
        &&& self@ == o.state
        &&& result_view(r) == o.result
        &&& self@.stack.len() >= before@.stack.len()
        &&& before.wf() ==> self.wf()
    }

    /// Whether the analyser is in order: no scope of it binds a variable
    /// twice.
    pub open spec fn wf(&self) -> bool {
        state_wf(self@)
    }

    /// An analyser at the start of a run: in the scope `main`, with nothing
    /// logged, bound or asked.
    pub fn new(fn_map: &'a HashMap<u64, RThir>) -> (r: Self)
        ensures
            r.fn_map == fn_map,
            r@ == initial(),
            r.wf(),
    {
        let r = Analyzer {
            fn_map,
            context_stack: Vec::new(),
            current_context: Context::new(),
            queries: Vec::new(),
        };
        assert(r@.stack =~= Seq::empty());
        assert(r@.queries =~= Seq::empty());
        assert(r@.current =~= initial().current);
        r
    }

    /// Runs the whole analysis from the entry function: see `analysis`.
    pub fn run(main_id: u64, fn_map: &'a HashMap<u64, RThir>) -> (r: Report)
        ensures
            queries_view(r.queries@) == analysis(fn_map@, main_id).state.queries,
            result_view(r.outcome) == analysis(fn_map@, main_id).result,
    {
        let mut analyzer = Analyzer::new(fn_map);
        let outcome = match analyzer.get_fn(main_id) {
            Ok(main) => analyzer.analyze_main(main, fn_map.len()),
            Err(e) => Err(e),
        };
        Report { queries: analyzer.queries, outcome }
    }

    /// Writes down the query for the assertion that was logged last: see
    /// `queried`.
    pub fn verify(&mut self) -> (r: Result<(), AnalysisError>)
        ensures
            final(self).follows(old(self), r, queried(old(self)@)),
    {
        let mut smt = match self.get_current_assumptions_for_verify() {
            Ok(smt) => smt,
            Err(e) => {
                return Err(e);
            },
        };
        smt.append("(check-sat)");
        let query = Query { smt, span: self.get_current_span() };
        self.queries.push(query);
        assert(queries_view(self.queries@) =~= queries_view(old(self).queries@).push(query@));
        Ok(())
    }

    /// The query text of the current scope.
    pub fn get_current_assumptions_for_verify(&self) -> (r: Result<String, AnalysisError>)
        ensures
            result_view(r) == rendered_for_check(self@.current.path),
    {
        self.current_context.get_assumptions_for_verify()
    }

    /// The solver text of the current scope's log.
    pub fn get_current_assumptions(&self) -> (r: Result<String, AnalysisError>)
        ensures
            result_view(r) == rendered(self@.current.path),
    {
        self.current_context.get_assumptions()
    }

    /// The span of the entry that the current scope logged last.
    pub fn get_current_span(&self) -> (r: Span)
        requires
            self@.current.path.len() > 0,
        ensures
            r == self@.current.path.last().span,
    {
        self.current_context.get_latest_span()
    }

    /// The function under a key of the function map.
    pub fn get_fn(&self, fn_id: u64) -> (r: Result<&'a RThir, AnalysisError>)
        ensures
            match r {
                Ok(f) => self.fns().contains_key(fn_id) && *f == self.fns()[fn_id],
                Err(e) => !self.fns().contains_key(fn_id) && e@
                    == AnalysisErrorView::FunctionNotFound(fn_id),
            },
    {
        let fns = self.fn_map;
        match fns.get(&fn_id) {
            Some(f) => Ok(f),
            None => Err(AnalysisError::FunctionNotFound(fn_id)),
        }
    }

    /// The function that a call names, where the program defines it.
    pub fn get_local_fn(&self, def: &FnDef) -> (r: Result<Option<&'a RThir>, AnalysisError>)
        ensures
            match r {
                Ok(Some(f)) => def.local is Some && self.fns().contains_key(def.local->0) && *f
                    == self.fns()[def.local->0],
                Ok(None) => def.local is None,
                Err(e) => def.local is Some && !self.fns().contains_key(def.local->0) && e@
                    == AnalysisErrorView::FunctionNotFound(def.local->0),
            },
    {
        match def.local {
            Some(id) => match self.get_fn(id) {
                Ok(f) => Ok(Some(f)),
                Err(e) => Err(e),
            },
            None => Ok(None),
        }
    }

    /// The segments of the path that a call names.
    pub fn get_fn_info(&self, def: &FnDef) -> (r: Vec<String>)
        ensures
            texts(r@) == segments(def.path@),
    {
        split_path(def.path.as_str())
    }

    /// The current symbolic name of a variable.
    pub fn get_var(&self, var_id: u64) -> (r: Result<String, AnalysisError>)
        ensures
            result_view(r) == name_of(self@, var_id),
    {
        match self.current_context.get_var(var_id) {
            Ok((name, _)) => Ok(name),
            Err(e) => Err(e),
        }
    }

    /// Assumes a constraint in the current scope.
    pub fn add_assumption(&mut self, constraint: String, span: Span)
        ensures
            final(self).fn_map == old(self).fn_map,
            final(self)@ == assume_in(old(self)@, constraint@, span),
            old(self).wf() ==> final(self).wf(),
    {
        let new_assumption = Lir::new_assume(constraint, span);
        self.current_context.add_assumption(new_assumption);
        assert(self@.stack == old(self)@.stack);
    }

    /// Declares a symbolic name in the current scope and binds a variable to
    /// it.
    pub fn add_parameter(&mut self, name: String, ty: Ty, var_id: u64, span: Span)
        ensures
            final(self).fn_map == old(self).fn_map,
            final(self)@ == declare_in(old(self)@, name@, ty, var_id, span),
            old(self).wf() ==> final(self).wf(),
    {
        let parameter = Lir::new_parameter(name.clone(), ty, span);
        self.current_context.add_assumption(parameter);
        self.current_context.insert_var(var_id, name, ty);
        assert(self@.stack == old(self)@.stack);
    }

    /// Rebinds the target of an assignment to a fresh name, and gives that
    /// name and the one it had.
    pub fn assign_new_value(&mut self, expr: &RExpr) -> (r: Result<(String, String), AnalysisError>)
        ensures
            final(self).fn_map == old(self).fn_map,
            final(self)@ == assigned(old(self)@, *expr).state,
            final(self)@.stack == old(self)@.stack,
            old(self).wf() ==> final(self).wf(),
            match r {
                Ok((fresh, current)) => assigned(old(self)@, *expr).result == Ok::<
                    (Seq<char>, Seq<char>),
                    AnalysisErrorView,
                >((fresh@, current@)),
                Err(e) => assigned(old(self)@, *expr).result == Err::<
                    (Seq<char>, Seq<char>),
                    AnalysisErrorView,
                >(e@),
            },
    {
        match &expr.kind {
            RExprKind::VarRef { id } => {
                let (current_symbol, ty) = match self.current_context.get_var(*id) {
                    Ok(found) => found,
                    Err(e) => {
                        return Err(e);
                    },
                };
                let new_symbol = if starts_with(
                    current_symbol.as_str(),
                    self.current_context.name.as_str(),
                ) {
                    marked(current_symbol.as_str())
                } else {
                    scoped(self.current_context.name.as_str(), current_symbol.as_str())
                };
                self.add_parameter(new_symbol.clone(), ty, *id, expr.span);
                Ok((new_symbol, current_symbol))
            },
            _ => Err(unsupported("Unsupported assignment target")),
        }
    }
}

} // verus!
