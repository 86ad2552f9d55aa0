//! The walk over the program tree.
//!
//! Expressions in value position are lowered to constraint text; statements
//! change the current scope. The two call each other, and both enter nested
//! scopes for branches and for inlined calls.
use vstd::prelude::*;
use vstd::string::*;
use crate::analyze::Analyzer;
use crate::analyze::model::{
    entry_fn, params_declared, settled, assign, assign_op, block, call, conditional, entered_arm, extern_fn, is_free_choice,
    let_statement, local_fn, loop_checked, name_of, nested_name, params_bound, pattern, statement,
    statements, t3assert, t3assume, value_assumed, value_of, value_of_block, value_of_call,
    value_of_if, value_of_local,
};
use crate::error::{
    AnalysisError, AnalysisErrorView, AnalysisType, result_view, unsupported, unsupported_view,
};
use crate::text::{equal, marked, negated, same, scoped, texts};
use crate::tree::{RExpr, RExprKind, RParam, RPatKind, RThir, Span};

verus! {

/// The name of a scope of kind `kind` that is entered from `enclosing`.
fn nest(kind: &str, enclosing: &str) -> (r: String)
    ensures
        r@ == nested_name(kind@, enclosing@),
{
    if same(kind, enclosing) {
        marked(kind)
    } else {
        String::from_str(kind)
    }
}

/// Turns the signal of a free choice into the refusal of a free value.
fn settle<T>(r: Result<T, AnalysisError>) -> (out: Result<T, AnalysisError>)
    ensures
        match r {
            Err(AnalysisError::RandFunctions) => out is Err && out->Err_0@ == unsupported_view(
                "Free value outside a let"@,
            ),
            _ => out == r,
        },
{
    match r {
        Err(AnalysisError::RandFunctions) => Err(unsupported("Free value outside a let")),
        other => other,
    }
}

impl<'a> Analyzer<'a> {
    /// Analyses an entry function: see `entry_fn`.
    pub fn analyze_main(&mut self, rthir: &RThir, depth: usize) -> (r: Result<(), AnalysisError>)
        requires
            old(self).wf(),
        ensures
            final(self).follows(
                old(self),
                r,
                entry_fn(old(self).fns(), depth as nat, old(self)@, *rthir),
            ),
    {
        if depth == 0 {
            return Err(unsupported("Call depth exhausted"));
        }
        match self.declare_params(&rthir.params) {
            Ok(()) => {},
            Err(e) => {
                return Err(e);
            },
        }
        match &rthir.body {
            Some(body) => self.analyze_body(body, depth - 1),
            None => Ok(()),
        }
    }

    /// Declares the parameters of an entry function: see `params_declared`.
    pub fn declare_params(&mut self, params: &Vec<RParam>) -> (r: Result<(), AnalysisError>)
        requires
            old(self).wf(),
        ensures
            final(self).follows(old(self), r, params_declared(old(self)@, params@, 0)),
    {
        let ghost goal = params_declared(self@, params@, 0);
        let mut i: usize = 0;
        while i < params.len()
            invariant
                0 <= i <= params.len(),
                self.fn_map == old(self).fn_map,
                self.wf(),
                self@.stack.len() >= old(self)@.stack.len(),
                goal == params_declared(old(self)@, params@, 0),
                params_declared(self@, params@, i as int) == goal,
            decreases params.len() - i,
        {
            if let Some(pat) = &params[i].pat {
                if let RExprKind::Pat { kind } = &pat.kind {
                    match kind {
                        RPatKind::Binding { name, ty, var } => {
                            let context_name = scoped(
                                self.current_context.name.as_str(),
                                name.as_str(),
                            );
                            self.add_parameter(context_name, *ty, *var, pat.span);
                        },
                        RPatKind::Wild => {},
                        RPatKind::Other => {
                            return Err(unsupported("Unsupported pattern"));
                        },
                    }
                }
            }
            i = i + 1;
        }
        Ok(())
    }

    /// Analyses a function of the program for given arguments, in the current
    /// scope: see `local_fn`.
    pub fn analyze_local_fn(&mut self, rthir: &RThir, args: &Vec<RExpr>, depth: usize) -> (r:
        Result<(), AnalysisError>)
        requires
            old(self).wf(),
        ensures
            final(self).follows(
                old(self),
                r,
                local_fn(old(self).fns(), depth as nat, old(self)@, *rthir, args@),
            ),
        decreases depth, args, 2int,
    {
        if depth == 0 {
            return Err(unsupported("Call depth exhausted"));
        }
        match self.analyze_params(&rthir.params, args, depth) {
            Ok(()) => {},
            Err(e) => {
                return Err(e);
            },
        }
        match &rthir.body {
            Some(body) => self.analyze_body(body, depth - 1),
            None => Ok(()),
        }
    }

    /// Binds parameters to arguments, pair by pair: see `params_bound`.
    pub fn analyze_params(&mut self, params: &Vec<RParam>, args: &Vec<RExpr>, depth: usize) -> (r:
        Result<(), AnalysisError>)
        requires
            old(self).wf(),
        ensures
            final(self).follows(
                old(self),
                r,
                params_bound(old(self).fns(), depth as nat, old(self)@, params@, args@, 0),
            ),
        decreases depth, args, 1int,
    {
        let ghost fns = self.fns();
        let ghost goal = params_bound(fns, depth as nat, self@, params@, args@, 0);
        let mut i: usize = 0;
        while i < params.len() && i < args.len()
            invariant
                0 <= i,
                self.fn_map == old(self).fn_map,
                self.wf(),
                fns == self.fns(),
                self@.stack.len() >= old(self)@.stack.len(),
                goal == params_bound(fns, depth as nat, old(self)@, params@, args@, 0),
                params_bound(fns, depth as nat, self@, params@, args@, i as int) == goal,
            decreases args.len() - i,
        {
            if let Some(pat) = &params[i].pat {
                if let RExprKind::Pat { kind } = &pat.kind {
                    match kind {
                        RPatKind::Binding { name, ty, var } => {
                            let context_name = scoped(
                                self.current_context.name.as_str(),
                                name.as_str(),
                            );
                            self.add_parameter(context_name.clone(), *ty, *var, pat.span);
                            proof {
                                assert(decreases_to!(*args => args@[i as int]));
                            }
                            let value = match self.expr_to_constraint(&args[i], depth) {
                                Ok(value) => value,
                                Err(e) => {
                                    return Err(e);
                                },
                            };
                            self.add_assumption(
                                equal(context_name.as_str(), value.as_str()),
                                args[i].span,
                            );
                        },
                        RPatKind::Wild => {},
                        RPatKind::Other => {
                            return Err(unsupported("Unsupported pattern"));
                        },
                    }
                }
            }
            i = i + 1;
        }
        Ok(())
    }

    /// Analyses a block in statement position: see `block`.
    pub fn analyze_body(&mut self, body: &RExpr, depth: usize) -> (r: Result<(), AnalysisError>)
        requires
            old(self).wf(),
        ensures
            final(self).follows(old(self), r, block(old(self).fns(), depth as nat, old(self)@, *body)),
        decreases depth, body, 0int,
    {
        match &body.kind {
            RExprKind::Block { stmts, expr } => {
                proof {
                    assert(decreases_to!(*body => body.kind->Block_stmts));
                }
                match self.analyze_stmts(stmts, depth) {
                    Ok(AnalysisType::Return(_)) => {
                        return Ok(());
                    },
                    Ok(_) => {},
                    Err(e) => {
                        return Err(e);
                    },
                }
                match expr {
                    Some(last) => match self.analyze_expr(last, depth) {
                        Ok(AnalysisType::Invariant) => Err(unsupported("Invariant without loop")),
                        Ok(_) => Ok(()),
                        Err(e) => Err(e),
                    },
                    None => Ok(()),
                }
            },
            _ => Err(unsupported("Unknown body pattern")),
        }
    }

    /// Analyses the statements of a block up to and with the first that
    /// returns.
    pub fn analyze_stmts(&mut self, stmts: &Vec<RExpr>, depth: usize) -> (r: Result<
        AnalysisType,
        AnalysisError,
    >)
        requires
            old(self).wf(),
        ensures
            final(self).follows(
                old(self),
                r,
                statements(old(self).fns(), depth as nat, old(self)@, stmts@, 0),
            ),
        decreases depth, stmts, 1int,
    {
        let ghost fns = self.fns();
        let ghost goal = statements(fns, depth as nat, self@, stmts@, 0);
        let mut i: usize = 0;
        while i < stmts.len()
            invariant
                0 <= i,
                self.fn_map == old(self).fn_map,
                self.wf(),
                fns == self.fns(),
                self@.stack.len() >= old(self)@.stack.len(),
                goal == statements(fns, depth as nat, old(self)@, stmts@, 0),
                statements(fns, depth as nat, self@, stmts@, i as int) == goal,
            decreases stmts.len() - i,
        {
            proof {
                assert(decreases_to!(*stmts => stmts@[i as int]));
            }
            match self.analyze_expr(&stmts[i], depth) {
                Ok(AnalysisType::Return(value)) => {
                    return Ok(AnalysisType::Return(value));
                },
                Ok(AnalysisType::Invariant) => {
                    match self.analyze_loop(stmts, i, depth) {
                        Ok(()) => {},
                        Err(e) => {
                            return Err(e);
                        },
                    }
                    i = i + 1;
                },
                Ok(AnalysisType::Other) => {},
                Err(e) => {
                    return Err(e);
                },
            }
            i = i + 1;
        }
        Ok(AnalysisType::Other)
    }

    /// Checks the loop that stands behind the annotation `stmts[at]`
    /// against the invariant that the annotation names: see `loop_checked`.
    pub fn analyze_loop(&mut self, stmts: &Vec<RExpr>, at: usize, depth: usize) -> (r: Result<
        (),
        AnalysisError,
    >)
        requires
            old(self).wf(),
        ensures
            final(self).follows(
                old(self),
                r,
                loop_checked(old(self).fns(), depth as nat, old(self)@, stmts@, at as int),
            ),
        decreases depth, stmts, 0int,
    {
        if at >= stmts.len() || stmts.len() - at < 2 {
            return Err(unsupported("Invariant without loop"));
        }
        match (&stmts[at].kind, &stmts[at + 1].kind) {
            (RExprKind::Call { def, args }, RExprKind::Loop { body }) => {
                if args.len() == 0 {
                    return Err(unsupported("Missing argument"));
                }
                proof {
                    assert(decreases_to!(*stmts => stmts@[at as int].kind->Call_args@[0]));
                    assert(decreases_to!(*stmts => stmts@[at + 1].kind->Loop_body));
                }
                let before = match self.expr_to_constraint(&args[0], depth) {
                    Ok(before) => before,
                    Err(e) => {
                        return settle(Err(e));
                    },
                };
                self.add_assumption(before, args[0].span);
                match self.analyze_block(body, depth) {
                    Ok(()) => {},
                    Err(e) => {
                        return Err(e);
                    },
                }
                let after = match self.expr_to_constraint(&args[0], depth) {
                    Ok(after) => after,
                    Err(e) => {
                        return settle(Err(e));
                    },
                };
                self.add_assumption(after, args[0].span);
                self.verify()
            },
            _ => Err(unsupported("Invariant without loop")),
        }
    }

    /// Analyses one statement: see `statement`.
    pub fn analyze_expr(&mut self, expr: &RExpr, depth: usize) -> (r: Result<
        AnalysisType,
        AnalysisError,
    >)
        requires
            old(self).wf(),
        ensures
            final(self).follows(
                old(self),
                r,
                statement(old(self).fns(), depth as nat, old(self)@, *expr),
            ),
        decreases depth, expr, 10int,
    {
        let done = match &expr.kind {
            RExprKind::Literal { .. } => self.analyze_literal(expr, depth),
            RExprKind::VarRef { .. } => self.analyze_var_ref(expr, depth),
            RExprKind::Binary { .. } => self.analyze_binary(expr, depth),
            RExprKind::Pat { kind } => self.analyze_pat(kind, expr.span),
            RExprKind::Call { .. } => {
                return settle(self.analyze_fn(expr, depth));
            },
            RExprKind::LetStmt { .. } => self.analyze_let_stmt(expr, depth),
            RExprKind::Return { value } => {
                return match value {
                    Some(v) => match self.expr_to_constraint(v, depth) {
                        Ok(text) => Ok(AnalysisType::Return(Some(text))),
                        Err(e) => settle(Err(e)),
                    },
                    None => Ok(AnalysisType::Return(None)),
                };
            },
            RExprKind::AssignOp { .. } => self.analyze_assign_op(expr, depth),
            RExprKind::Assign { .. } => self.analyze_assign(expr, depth),
            RExprKind::If { .. } => self.analyze_if(expr, depth),
            _ => {
                return Err(unsupported("Unknown expr"));
            },
        };
        match done {
            Ok(()) => Ok(AnalysisType::Other),
            Err(e) => settle(Err(e)),
        }
    }

    /// Assumes the value of a literal that stands as a statement.
    pub fn analyze_literal(&mut self, expr: &RExpr, depth: usize) -> (r: Result<(), AnalysisError>)
        requires
            old(self).wf(),
        ensures
            final(self).follows(
                old(self),
                r,
                value_assumed(old(self).fns(), depth as nat, old(self)@, *expr),
            ),
        decreases depth, expr, 9int,
    {
        let constraint = match self.expr_to_constraint(expr, depth) {
            Ok(constraint) => constraint,
            Err(e) => {
                return Err(e);
            },
        };
        self.add_assumption(constraint, expr.span);
        Ok(())
    }

    /// Assumes the value of a variable that stands as a statement.
    pub fn analyze_var_ref(&mut self, expr: &RExpr, depth: usize) -> (r: Result<(), AnalysisError>)
        requires
            old(self).wf(),
        ensures
            final(self).follows(
                old(self),
                r,
                value_assumed(old(self).fns(), depth as nat, old(self)@, *expr),
            ),
        decreases depth, expr, 9int,
    {
        let constraint = match self.expr_to_constraint(expr, depth) {
            Ok(constraint) => constraint,
            Err(e) => {
                return Err(e);
            },
        };
        self.add_assumption(constraint, expr.span);
        Ok(())
    }

    /// Assumes the value of a binary operation that stands as a statement.
    pub fn analyze_binary(&mut self, expr: &RExpr, depth: usize) -> (r: Result<(), AnalysisError>)
        requires
            old(self).wf(),
        ensures
            final(self).follows(
                old(self),
                r,
                value_assumed(old(self).fns(), depth as nat, old(self)@, *expr),
            ),
        decreases depth, expr, 9int,
    {
        let constraint = match self.expr_to_constraint(expr, depth) {
            Ok(constraint) => constraint,
            Err(e) => {
                return Err(e);
            },
        };
        self.add_assumption(constraint, expr.span);
        Ok(())
    }

    /// Analyses a pattern that stands as a statement: see `pattern`.
    pub fn analyze_pat(&mut self, kind: &RPatKind, span: Span) -> (r: Result<(), AnalysisError>)
        requires
            old(self).wf(),
        ensures
            final(self).follows(old(self), r, pattern(old(self)@, *kind, span)),
    {
        match kind {
            RPatKind::Wild => Ok(()),
            RPatKind::Binding { name, ty, var } => {
                self.add_parameter(name.clone(), *ty, *var, span);
                Ok(())
            },
            RPatKind::Other => Err(unsupported("Unsupported pattern")),
        }
    }

    /// Analyses a call in statement position: see `call`.
    pub fn analyze_fn(&mut self, expr: &RExpr, depth: usize) -> (r: Result<
        AnalysisType,
        AnalysisError,
    >)
        requires
            old(self).wf(),
        ensures
            final(self).follows(old(self), r, call(old(self).fns(), depth as nat, old(self)@, *expr)),
        decreases depth, expr, 3int,
    {
        match &expr.kind {
            RExprKind::Call { def, args } => {
                let mut fn_info = self.get_fn_info(def);
                let ghost info = texts(fn_info@);
                match self.get_local_fn(def) {
                    Err(e) => Err(e),
                    Ok(Some(fun)) => {
                        let last = match fn_info.pop() {
                            Some(last) => last,
                            None => {
                                return Err(unsupported("fn info not found"));
                            },
                        };
                        assert(last@ == info.last());
                        let name = nest(last.as_str(), self.current_context.name.as_str());
                        match self.save_and_switch_ctxt(name, expr.span) {
                            Ok(()) => {},
                            Err(e) => {
                                return Err(e);
                            },
                        }
                        proof {
                            assert(decreases_to!(*expr => expr.kind->Call_args));
                        }
                        match self.analyze_local_fn(fun, args, depth) {
                            Ok(()) => {
                                let fn_ctxt = self.restore_ctxt();
                                self.merge_ctxt(fn_ctxt);
                                Ok(AnalysisType::Other)
                            },
                            Err(why) => Err(why),
                        }
                    },
                    Ok(None) => self.analyze_extern_fn(expr, depth),
                }
            },
            _ => Err(unsupported("Unknown expr")),
        }
    }

    /// Analyses the call of a function from outside the program: see
    /// `extern_fn`.
    pub fn analyze_extern_fn(&mut self, expr: &RExpr, depth: usize) -> (r: Result<
        AnalysisType,
        AnalysisError,
    >)
        requires
            old(self).wf(),
        ensures
            final(self).follows(
                old(self),
                r,
                extern_fn(old(self).fns(), depth as nat, old(self)@, *expr),
            ),
        decreases depth, expr, 2int,
    {
        match &expr.kind {
            RExprKind::Call { def, args } => {
                let fn_info = self.get_fn_info(def);
                assert(fn_info.len() == texts(fn_info@).len());
                if fn_info.len() >= 2 && same(fn_info[0].as_str(), "t3modules") {
                    assert(texts(fn_info@)[0] == fn_info@[0]@);
                    assert(texts(fn_info@)[1] == fn_info@[1]@);
                    if same(fn_info[1].as_str(), "t3assert") {
                        match self.analyze_t3assert(expr, depth) {
                            Ok(()) => Ok(AnalysisType::Other),
                            Err(e) => Err(e),
                        }
                    } else if same(fn_info[1].as_str(), "t3assume") {
                        match self.analyze_t3assume(expr, depth) {
                            Ok(()) => Ok(AnalysisType::Other),
                            Err(e) => Err(e),
                        }
                    } else if same(fn_info[1].as_str(), "invariant") {
                        if args.len() == 0 {
                            Err(unsupported("Missing argument"))
                        } else {
                            Ok(AnalysisType::Invariant)
                        }
                    } else {
                        Err(unsupported("Unknown function!"))
                    }
                } else {
                    assert(fn_info.len() >= 2 ==> texts(fn_info@)[0] == fn_info@[0]@);
                    Err(unsupported("Unknown function!"))
                }
            },
            _ => Err(unsupported("Unknown expr")),
        }
    }

    /// Analyses a `let`: see `let_statement`.
    pub fn analyze_let_stmt(&mut self, expr: &RExpr, depth: usize) -> (r: Result<
        (),
        AnalysisError,
    >)
        requires
            old(self).wf(),
        ensures
            final(self).follows(
                old(self),
                r,
                let_statement(old(self).fns(), depth as nat, old(self)@, *expr),
            ),
        decreases depth, expr, 0int,
    {
        match &expr.kind {
            RExprKind::LetStmt { pattern, initializer, else_block } => {
                if let RExprKind::Pat { kind: RPatKind::Binding { name, ty, var } } = &pattern.kind {
                    let name = scoped(self.current_context.name.as_str(), name.as_str());
                    self.add_parameter(name.clone(), *ty, *var, pattern.span);
                    if let Some(init) = initializer {
                        let scopes = self.context_stack.len();
                        match self.expr_to_constraint(init, depth) {
                            Ok(value) => {
                                self.add_assumption(
                                    equal(name.as_str(), value.as_str()),
                                    init.span,
                                );
                            },
                            Err(err) => match err {
                                AnalysisError::RandFunctions => {
                                    if self.context_stack.len() != scopes {
                                        return Err(AnalysisError::RandFunctions);
                                    }
                                },
                                _ => {
                                    return Err(err);
                                },
                            },
                        }
                    }
                    Ok(())
                } else {
                    Err(unsupported("Unsupported let pattern"))
                }
            },
            _ => Err(unsupported("Unknown expr")),
        }
    }

    /// Analyses a compound assignment: see `assign_op`.
    pub fn analyze_assign_op(&mut self, expr: &RExpr, depth: usize) -> (r: Result<
        (),
        AnalysisError,
    >)
        requires
            old(self).wf(),
        ensures
            final(self).follows(
                old(self),
                r,
                assign_op(old(self).fns(), depth as nat, old(self)@, *expr),
            ),
        decreases depth, expr, 0int,
    {
        match &expr.kind {
            RExprKind::AssignOp { op, lhs, rhs } => {
                let rhs = match self.expr_to_constraint(rhs, depth) {
                    Ok(rhs) => rhs,
                    Err(e) => {
                        return Err(e);
                    },
                };
                let (new_lhs, lhs) = match self.assign_new_value(lhs) {
                    Ok(names) => names,
                    Err(e) => {
                        return Err(e);
                    },
                };
                let constraint = match Self::bin_op_to_constraint(*op, &lhs, &rhs) {
                    Ok(constraint) => constraint,
                    Err(e) => {
                        return Err(e);
                    },
                };
                self.add_assumption(equal(new_lhs.as_str(), constraint.as_str()), expr.span);
                Ok(())
            },
            _ => Err(unsupported("Unknown expr")),
        }
    }

    /// Analyses a plain assignment: see `assign`.
    pub fn analyze_assign(&mut self, expr: &RExpr, depth: usize) -> (r: Result<(), AnalysisError>)
        requires
            old(self).wf(),
        ensures
            final(self).follows(
                old(self),
                r,
                assign(old(self).fns(), depth as nat, old(self)@, *expr),
            ),
        decreases depth, expr, 0int,
    {
        match &expr.kind {
            RExprKind::Assign { lhs, rhs } => {
                let rhs = match self.expr_to_constraint(rhs, depth) {
                    Ok(rhs) => rhs,
                    Err(e) => {
                        return Err(e);
                    },
                };
                let (new_lhs, _) = match self.assign_new_value(lhs) {
                    Ok(names) => names,
                    Err(e) => {
                        return Err(e);
                    },
                };
                self.add_assumption(equal(new_lhs.as_str(), rhs.as_str()), expr.span);
                Ok(())
            },
            _ => Err(unsupported("Unknown expr")),
        }
    }

    /// Enters the scope of a branch arm and assumes the arm's guard there.
    pub fn enter_arm(&mut self, kind: &str, guard: &String, block_span: Span, cond_span: Span)
        -> (r: Result<(), AnalysisError>)
        requires
            old(self).wf(),
        ensures
            final(self).follows(
                old(self),
                r,
                entered_arm(old(self)@, kind@, guard@, block_span, cond_span),
            ),
    {
        let name = nest(kind, self.current_context.name.as_str());
        match self.save_and_switch_ctxt(name, block_span) {
            Ok(()) => {},
            Err(e) => {
                return Err(e);
            },
        }
        self.add_assumption(guard.clone(), cond_span);
        Ok(())
    }

    /// Analyses a conditional in statement position: see `conditional`.
    pub fn analyze_if(&mut self, expr: &RExpr, depth: usize) -> (r: Result<(), AnalysisError>)
        requires
            old(self).wf(),
        ensures
            final(self).follows(
                old(self),
                r,
                conditional(old(self).fns(), depth as nat, old(self)@, *expr),
            ),
        decreases depth, expr, 0int,
    {
        match &expr.kind {
            RExprKind::If { cond, then, else_opt } => {
                let cond_str = match self.expr_to_constraint(cond, depth) {
                    Ok(cond_str) => cond_str,
                    Err(e) => {
                        return Err(e);
                    },
                };
                match self.enter_arm("then", &cond_str, then.span, cond.span) {
                    Ok(()) => {},
                    Err(e) => {
                        return Err(e);
                    },
                }
                match self.analyze_block(then, depth) {
                    Ok(()) => {},
                    Err(e) => {
                        return Err(e);
                    },
                }
                let then_ctxt = self.restore_ctxt();
                let mut else_ctxt = None;
                if let Some(else_block) = else_opt {
                    let not_cond = negated(cond_str.as_str());
                    match self.enter_arm("else", &not_cond, else_block.span, cond.span) {
                        Ok(()) => {},
                        Err(e) => {
                            return Err(e);
                        },
                    }
                    match self.analyze_block(else_block, depth) {
                        Ok(()) => {},
                        Err(e) => {
                            return Err(e);
                        },
                    }
                    else_ctxt = Some(self.restore_ctxt());
                }
                self.merge_then_else_ctxt(cond_str, then_ctxt, else_ctxt);
                Ok(())
            },
            _ => Err(unsupported("Unknown expr")),
        }
    }

    /// Analyses the block of a branch arm, as a function body is analysed.
    pub fn analyze_block(&mut self, body: &RExpr, depth: usize) -> (r: Result<(), AnalysisError>)
        requires
            old(self).wf(),
        ensures
            final(self).follows(old(self), r, block(old(self).fns(), depth as nat, old(self)@, *body)),
        decreases depth, body, 1int,
    {
        self.analyze_body(body, depth)
    }

    /// Lowers an expression in value position to its constraint text: see
    /// `value_of`.
    pub fn expr_to_constraint(&mut self, arg: &RExpr, depth: usize) -> (r: Result<
        String,
        AnalysisError,
    >)
        requires
            old(self).wf(),
        ensures
            final(self).follows(
                old(self),
                r,
                value_of(old(self).fns(), depth as nat, old(self)@, *arg),
            ),
        decreases depth, arg, 8int,
    {
        match &arg.kind {
            RExprKind::Literal { lit, neg } => Self::literal_to_constraint(lit, *neg),
            RExprKind::VarRef { id } => self.var_ref_to_constraint(*id),
            RExprKind::LogicalOp { op, lhs, rhs } => {
                let lhs_str = match self.expr_to_constraint(lhs, depth) {
                    Ok(lhs_str) => lhs_str,
                    Err(e) => {
                        return Err(e);
                    },
                };
                let rhs_str = match self.expr_to_constraint(rhs, depth) {
                    Ok(rhs_str) => rhs_str,
                    Err(e) => {
                        return Err(e);
                    },
                };
                Self::logical_op_to_constraint(*op, &lhs_str, &rhs_str)
            },
            RExprKind::Unary { op, arg } => {
                let arg_str = match self.expr_to_constraint(arg, depth) {
                    Ok(arg_str) => arg_str,
                    Err(e) => {
                        return Err(e);
                    },
                };
                Self::un_op_to_constraint(*op, &arg_str)
            },
            RExprKind::Binary { op, lhs, rhs } => {
                let lhs_str = match self.expr_to_constraint(lhs, depth) {
                    Ok(lhs_str) => lhs_str,
                    Err(e) => {
                        return Err(e);
                    },
                };
                let rhs_str = match self.expr_to_constraint(rhs, depth) {
                    Ok(rhs_str) => rhs_str,
                    Err(e) => {
                        return Err(e);
                    },
                };
                Self::bin_op_to_constraint(*op, &lhs_str, &rhs_str)
            },
            RExprKind::Call { .. } => self.fn_to_constraint(arg, depth),
            RExprKind::If { .. } => self.if_to_constraint(arg, depth),
            _ => Err(unsupported("Unknown value")),
        }
    }

    /// The current symbolic name of a variable.
    pub fn var_ref_to_constraint(&self, id: u64) -> (r: Result<String, AnalysisError>)
        ensures
            result_view(r) == name_of(self@, id),
    {
        self.get_var(id)
    }

    /// The value of a call: see `value_of_call`.
    pub fn fn_to_constraint(&mut self, expr: &RExpr, depth: usize) -> (r: Result<
        String,
        AnalysisError,
    >)
        requires
            old(self).wf(),
        ensures
            final(self).follows(
                old(self),
                r,
                value_of_call(old(self).fns(), depth as nat, old(self)@, *expr),
            ),
        decreases depth, expr, 3int,
    {
        match &expr.kind {
            RExprKind::Call { def, args } => {
                let mut fn_info = self.get_fn_info(def);
                let ghost info = texts(fn_info@);
                match self.get_local_fn(def) {
                    Err(e) => Err(e),
                    Ok(Some(fun)) => {
                        let last = match fn_info.pop() {
                            Some(last) => last,
                            None => {
                                return Err(unsupported("fn info not found"));
                            },
                        };
                        assert(last@ == info.last());
                        let name = nest(last.as_str(), self.current_context.name.as_str());
                        match self.save_and_switch_ctxt(name, expr.span) {
                            Ok(()) => {},
                            Err(e) => {
                                return Err(e);
                            },
                        }
                        proof {
                            assert(decreases_to!(*expr => expr.kind->Call_args));
                        }
                        match self.local_fn_to_constraint(fun, args, depth) {
                            Ok(value) => {
                                let fn_ctxt = self.restore_ctxt();
                                self.merge_ctxt(fn_ctxt);
                                Ok(value)
                            },
                            Err(why) => Err(why),
                        }
                    },
                    Ok(None) => Self::extern_fn_to_constraint(fn_info),
                }
            },
            _ => Err(unsupported("Unknown value")),
        }
    }

    /// The value of a function of the program for given arguments, in the
    /// current scope: see `value_of_local`.
    pub fn local_fn_to_constraint(&mut self, rthir: &RThir, args: &Vec<RExpr>, depth: usize) -> (r:
        Result<String, AnalysisError>)
        requires
            old(self).wf(),
        ensures
            final(self).follows(
                old(self),
                r,
                value_of_local(old(self).fns(), depth as nat, old(self)@, *rthir, args@),
            ),
        decreases depth, args, 2int,
    {
        if depth == 0 {
            return Err(unsupported("Call depth exhausted"));
        }
        match self.analyze_params(&rthir.params, args, depth) {
            Ok(()) => {},
            Err(e) => {
                return Err(e);
            },
        }
        match &rthir.body {
            Some(body) => self.block_to_constraint(body, depth - 1),
            None => Err(unsupported("Body not found")),
        }
    }

    /// The value of a call of a function from outside the program: none. A
    /// free-choice primitive says so by `RandFunctions`; any other function is
    /// refused.
    pub fn extern_fn_to_constraint(fn_info: Vec<String>) -> (r: Result<String, AnalysisError>)
        ensures
            r is Err,
            r->Err_0@ == if texts(fn_info@).len() >= 2 && texts(fn_info@)[0] == "t3modules"@
                && is_free_choice(texts(fn_info@)[1]) {
                AnalysisErrorView::RandFunctions
            } else {
                unsupported_view("Unknown function!"@)
            },
    {
        assert(fn_info.len() == texts(fn_info@).len());
        if fn_info.len() >= 2 && same(fn_info[0].as_str(), "t3modules") {
            assert(texts(fn_info@)[0] == fn_info@[0]@);
            assert(texts(fn_info@)[1] == fn_info@[1]@);
            let name = fn_info[1].as_str();
            if same(name, "rand_bool") || same(name, "rand_int") || same(name, "rand_float") {
                Err(AnalysisError::RandFunctions)
            } else {
                Err(unsupported("Unknown function!"))
            }
        } else {
            assert(fn_info.len() >= 2 ==> texts(fn_info@)[0] == fn_info@[0]@);
            Err(unsupported("Unknown function!"))
        }
    }

    /// The value of a conditional: see `value_of_if`.
    pub fn if_to_constraint(&mut self, expr: &RExpr, depth: usize) -> (r: Result<
        String,
        AnalysisError,
    >)
        requires
            old(self).wf(),
        ensures
            final(self).follows(
                old(self),
                r,
                value_of_if(old(self).fns(), depth as nat, old(self)@, *expr),
            ),
        decreases depth, expr, 0int,
    {
        match &expr.kind {
            RExprKind::If { cond, then, else_opt } => {
                let cond_str = match self.expr_to_constraint(cond, depth) {
                    Ok(cond_str) => cond_str,
                    Err(e) => {
                        return Err(e);
                    },
                };
                match self.enter_arm("then", &cond_str, then.span, cond.span) {
                    Ok(()) => {},
                    Err(e) => {
                        return Err(e);
                    },
                }
                let then_value = match self.block_to_constraint(then, depth) {
                    Ok(then_value) => then_value,
                    Err(e) => {
                        return Err(e);
                    },
                };
                let then_ctxt = self.restore_ctxt();
                let else_block = match else_opt {
                    Some(else_block) => else_block,
                    None => {
                        return Err(unsupported("Else block of if initializer not found"));
                    },
                };
                let not_cond = negated(cond_str.as_str());
                match self.enter_arm("else", &not_cond, else_block.span, cond.span) {
                    Ok(()) => {},
                    Err(e) => {
                        return Err(e);
                    },
                }
                let else_value = match self.block_to_constraint(else_block, depth) {
                    Ok(else_value) => else_value,
                    Err(e) => {
                        return Err(e);
                    },
                };
                let else_ctxt = Some(self.restore_ctxt());
                let ite = Analyzer::value_to_ite(cond_str.clone(), then_value, else_value);
                self.merge_then_else_ctxt(cond_str, then_ctxt, else_ctxt);
                Ok(ite)
            },
            _ => Err(unsupported("Unknown value")),
        }
    }

    /// The value of a block: see `value_of_block`.
    pub fn block_to_constraint(&mut self, block: &RExpr, depth: usize) -> (r: Result<
        String,
        AnalysisError,
    >)
        requires
            old(self).wf(),
        ensures
            final(self).follows(
                old(self),
                r,
                value_of_block(old(self).fns(), depth as nat, old(self)@, *block),
            ),
        decreases depth, block, 0int,
    {
        match &block.kind {
            RExprKind::Block { stmts, expr } => {
                proof {
                    assert(decreases_to!(*block => block.kind->Block_stmts));
                }
                match self.analyze_stmts(stmts, depth) {
                    Ok(AnalysisType::Return(Some(value))) => {
                        return Ok(value);
                    },
                    Ok(AnalysisType::Return(None)) => {
                        return Err(unsupported("No value with return"));
                    },
                    Ok(_) => {},
                    Err(e) => {
                        return Err(e);
                    },
                }
                match expr {
                    Some(last) => self.expr_to_constraint(last, depth),
                    None => Ok(String::new()),
                }
            },
            _ => Err(unsupported("Unknown body pattern")),
        }
    }

    /// Analyses the assert primitive: see `t3assert`.
    pub fn analyze_t3assert(&mut self, expr: &RExpr, depth: usize) -> (r: Result<
        (),
        AnalysisError,
    >)
        requires
            old(self).wf(),
        ensures
            final(self).follows(
                old(self),
                r,
                t3assert(old(self).fns(), depth as nat, old(self)@, *expr),
            ),
        decreases depth, expr, 1int,
    {
        match self.analyze_t3assume(expr, depth) {
            Ok(()) => {},
            Err(e) => {
                return Err(e);
            },
        }
        self.verify()
    }

    /// Analyses the assume primitive: see `t3assume`.
    pub fn analyze_t3assume(&mut self, expr: &RExpr, depth: usize) -> (r: Result<
        (),
        AnalysisError,
    >)
        requires
            old(self).wf(),
        ensures
            final(self).follows(
                old(self),
                r,
                t3assume(old(self).fns(), depth as nat, old(self)@, *expr),
            ),
        decreases depth, expr, 0int,
    {
        match &expr.kind {
            RExprKind::Call { def, args } => {
                if args.len() == 0 {
                    return Err(unsupported("Missing argument"));
                }
                proof {
                    assert(decreases_to!(*expr => expr.kind->Call_args@[0]));
                }
                let constraint = match self.expr_to_constraint(&args[0], depth) {
                    Ok(constraint) => constraint,
                    Err(e) => {
                        return Err(e);
                    },
                };
                self.add_assumption(constraint, args[0].span);
                Ok(())
            },
            _ => Err(unsupported("Unknown expr")),
        }
    }
}

} // verus!
