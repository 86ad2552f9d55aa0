//! What an analysis computes, as a function of the program and the state.
//!
//! Each function here is the mathematical counterpart of one step of the
//! analyser: it takes the state before the step and gives the state after it
//! together with the step's result. A step that fails still has a state: the
//! one that the analysis had reached when it gave up.
//!
//! `depth` is the number of function bodies that may still be entered, one
//! inside the other. It is what makes the walk finite on a program that calls
//! itself. Arguments are rendered at the depth of the call that they belong
//! to; only the callee's body runs one level further down.
use vstd::prelude::*;
use crate::analyze::constraint::{bin_op_text, literal_text, logical_op_text, un_op_text};
use crate::analyze::scope::{ArmView, absorbed, adapted_ctxt};
use crate::context::{
    ContextView, VarView, bound, distinct_ids, logged, lookup, rendered, rendered_for_check,
};
use crate::error::{AnalysisErrorView, AnalysisTypeView, unsupported_view};
use crate::lir::{assumption, declaration, snapshot};
use crate::solver::QueryView;
use crate::text::{equal_text, ite_text, marked_text, negated_text, scoped_text, segments};
use crate::tree::{RExpr, RExprKind, RParam, RPatKind, RThir, Span, Ty};

verus! {

/// The state of an analysis: the scope that is being filled, the scopes
/// that wait for it to finish, and the queries issued so far.
#[verifier::ext_equal]
pub struct State {
    pub current: ContextView,
    pub stack: Seq<ContextView>,
    pub queries: Seq<QueryView>,
}

/// Whether a state is in order: no scope of it binds a variable twice.
pub open spec fn state_wf(s: State) -> bool {
    &&& distinct_ids(s.current.vars)
    &&& forall|i: int| 0 <= i < s.stack.len() ==> distinct_ids((#[trigger] s.stack[i]).vars)
}

/// The state after a step, and what the step gave.
pub struct Outcome<T> {
    pub state: State,
    pub result: Result<T, AnalysisErrorView>,
}

pub open spec fn done<T>(state: State, value: T) -> Outcome<T> {
    Outcome { state, result: Ok(value) }
}

pub open spec fn fail<T>(state: State, error: AnalysisErrorView) -> Outcome<T> {
    Outcome { state, result: Err(error) }
}

/// A failed outcome, as the outcome of the step around it.
pub open spec fn failed<T, U>(o: Outcome<T>) -> Outcome<U> {
    Outcome { state: o.state, result: Err(o.result->Err_0) }
}

/// A finished outcome with its value put aside.
pub open spec fn finished<T>(o: Outcome<T>) -> Outcome<()> {
    Outcome { state: o.state, result: Ok(()) }
}

/// The outcome of a statement that is no `return`.
pub open spec fn other<T>(o: Outcome<T>) -> Outcome<AnalysisTypeView> {
    if o.result is Err {
        failed(o)
    } else {
        done(o.state, AnalysisTypeView::Other)
    }
}

/// A free choice is a signal between the steps of the analysis and no
/// result of one: where it comes up as the failure of a step that needs a
/// value, the step fails with the refusal of a free value.
pub open spec fn settled<T>(o: Outcome<T>) -> Outcome<T> {
    if o.result is Err && o.result->Err_0 is RandFunctions {
        fail(o.state, unsupported_view("Free value outside a let"@))
    } else {
        o
    }
}

/// The state in which an analysis starts: the scope `main`, empty.
pub open spec fn initial() -> State {
    State {
        current: ContextView { name: "main"@, path: Seq::empty(), vars: Seq::empty() },
        stack: Seq::empty(),
        queries: Seq::empty(),
    }
}

pub open spec fn with_current(s: State, current: ContextView) -> State {
    State { current, stack: s.stack, queries: s.queries }
}

/// The state with `constraint` assumed in the current scope.
pub open spec fn assume_in(s: State, constraint: Seq<char>, span: Span) -> State {
    with_current(s, logged(s.current, assumption(constraint, span)))
}

/// The state with `name` declared in the current scope and `var` bound to
/// it.
pub open spec fn declare_in(s: State, name: Seq<char>, ty: Ty, var: u64, span: Span) -> State {
    with_current(
        s,
        bound(logged(s.current, declaration(name, ty, span)), (VarView { id: var, name, ty })),
    )
}

/// The current symbolic name of a variable.
pub open spec fn name_of(s: State, id: u64) -> Result<Seq<char>, AnalysisErrorView> {
    match lookup(s.current.vars, id) {
        Some(var) => Ok(var.name),
        None => Err(AnalysisErrorView::UnboundVariable(id)),
    }
}

/// The name of a nested scope: its kind, with a marker behind it where the
/// enclosing scope has that very name.
pub open spec fn nested_name(kind: Seq<char>, enclosing: Seq<char>) -> Seq<char> {
    if kind == enclosing {
        marked_text(kind)
    } else {
        kind
    }
}

/// Entering a nested scope: the current scope goes onto the stack; the new
/// one starts with the parent's rendered log as its only entry and with the
/// parent's variable map. Where the parent's log does not render, the scope
/// is not entered and the state stays as it is.
pub open spec fn entered(s: State, name: Seq<char>, span: Span) -> Outcome<()> {
    match rendered(s.current.path) {
        Err(e) => fail(s, e),
        Ok(text) => done(
            State {
                current: ContextView {
                    name,
                    path: seq![snapshot(text, span)],
                    vars: s.current.vars,
                },
                stack: s.stack.push(s.current),
                queries: s.queries,
            },
            (),
        ),
    }
}

/// Entering a branch arm: the nested scope, with the arm's guard assumed.
pub open spec fn entered_arm(
    s: State,
    kind: Seq<char>,
    guard: Seq<char>,
    block_span: Span,
    cond_span: Span,
) -> Outcome<()> {
    let e = entered(s, nested_name(kind, s.current.name), block_span);
    if e.result is Err {
        e
    } else {
        done(assume_in(e.state, guard, cond_span), ())
    }
}

/// Leaving a nested scope: the scope on top of the stack is current again.
pub open spec fn left(s: State) -> State {
    State { current: s.stack.last(), stack: s.stack.drop_last(), queries: s.queries }
}

/// Leaving an inlined call: the caller takes the callee's scope over as it
/// is.
pub open spec fn merged_call(s: State, callee: ContextView) -> State {
    with_current(s, absorbed(s.current, (ArmView { guard: None, ctxt: callee }), None))
}

pub open spec fn else_arm(cond: Seq<char>, else_ctxt: Option<ContextView>) -> Option<ArmView> {
    match else_ctxt {
        Some(ctxt) => Some(
            ArmView {
                guard: Some(negated_text(cond)),
                ctxt: adapted_ctxt(negated_text(cond), ctxt),
            },
        ),
        None => None,
    }
}

/// Leaving a branch: the parent takes the `then` scope over under the
/// condition and the `else` scope, where there is one, under its negation.
pub open spec fn merged_branch(
    s: State,
    cond: Seq<char>,
    then_ctxt: ContextView,
    else_ctxt: Option<ContextView>,
) -> State {
    with_current(
        s,
        absorbed(
            s.current,
            (ArmView { guard: Some(cond), ctxt: adapted_ctxt(cond, then_ctxt) }),
            else_arm(cond, else_ctxt),
        ),
    )
}

/// The fresh name for a variable that is assigned to in a scope: one more
/// marker where its name already starts with the scope's name, else its name
/// put under the scope.
pub open spec fn reassigned_name(scope: Seq<char>, current: Seq<char>) -> Seq<char> {
    if scope.is_prefix_of(current) {
        marked_text(current)
    } else {
        scoped_text(scope, current)
    }
}

/// Rebinding the target of an assignment: declares its fresh name and gives
/// that name together with the one it had.
pub open spec fn assigned(s: State, lhs: RExpr) -> Outcome<(Seq<char>, Seq<char>)> {
    match lhs.kind {
        RExprKind::VarRef { id } => match lookup(s.current.vars, id) {
            Some(var) => {
                let fresh = reassigned_name(s.current.name, var.name);
                done(declare_in(s, fresh, var.ty, id, lhs.span), (fresh, var.name))
            },
            None => fail(s, AnalysisErrorView::UnboundVariable(id)),
        },
        _ => fail(s, unsupported_view("Unsupported assignment target"@)),
    }
}

/// Issuing the query for the assertion that was logged last: everything
/// before it as assumed, its negation, and the command to check.
pub open spec fn queried(s: State) -> Outcome<()> {
    match rendered_for_check(s.current.path) {
        Err(e) => fail(s, e),
        Ok(text) => done(
            State {
                current: s.current,
                stack: s.stack,
                queries: s.queries.push(
                    QueryView { smt: text + "(check-sat)"@, span: s.current.path.last().span },
                ),
            },
            (),
        ),
    }
}

/// The primitives that stand for a free choice of a value.
pub open spec fn is_free_choice(name: Seq<char>) -> bool {
    name == "rand_bool"@ || name == "rand_int"@ || name == "rand_float"@
}

/// The value of an expression: its constraint text. Operands are rendered
/// from left to right; a conditional and a call change the state on the way.
pub open spec fn value_of(fns: Map<u64, RThir>, depth: nat, s: State, e: RExpr) -> Outcome<
    Seq<char>,
>
    decreases depth, e, 8int,
{
    match e.kind {
        RExprKind::Literal { lit, neg } => Outcome { state: s, result: literal_text(lit, neg) },
        RExprKind::VarRef { id } => Outcome { state: s, result: name_of(s, id) },
        RExprKind::LogicalOp { op, lhs, rhs } => {
            let l = value_of(fns, depth, s, *lhs);
            if l.result is Err {
                l
            } else {
                let r = value_of(fns, depth, l.state, *rhs);
                if r.result is Err {
                    r
                } else {
                    done(r.state, logical_op_text(op, l.result->Ok_0, r.result->Ok_0))
                }
            }
        },
        RExprKind::Unary { op, arg } => {
            let a = value_of(fns, depth, s, *arg);
            if a.result is Err {
                a
            } else {
                Outcome { state: a.state, result: un_op_text(op, a.result->Ok_0) }
            }
        },
        RExprKind::Binary { op, lhs, rhs } => {
            let l = value_of(fns, depth, s, *lhs);
            if l.result is Err {
                l
            } else {
                let r = value_of(fns, depth, l.state, *rhs);
                if r.result is Err {
                    r
                } else {
                    Outcome {
                        state: r.state,
                        result: bin_op_text(op, l.result->Ok_0, r.result->Ok_0),
                    }
                }
            }
        },
        RExprKind::Call { def, args } => value_of_call(fns, depth, s, e),
        RExprKind::If { cond, then, else_opt } => value_of_if(fns, depth, s, e),
        _ => fail(s, unsupported_view("Unknown value"@)),
    }
}

/// The value of a call: of a function of the program, the value of its
/// body, analysed in a scope of its own; of a free-choice primitive, the
/// signal that there is no value to state.
pub open spec fn value_of_call(fns: Map<u64, RThir>, depth: nat, s: State, e: RExpr) -> Outcome<
    Seq<char>,
>
    decreases depth, e, 3int,
{
    match e.kind {
        RExprKind::Call { def, args } => {
            let info = segments(def.path@);
            match def.local {
                Some(id) => if !fns.contains_key(id) {
                    fail(s, AnalysisErrorView::FunctionNotFound(id))
                } else if info.len() == 0 {
                    fail(s, unsupported_view("fn info not found"@))
                } else {
                    let n = entered(s, nested_name(info.last(), s.current.name), e.span);
                    if n.result is Err {
                        failed(n)
                    } else {
                        let v = value_of_local(fns, depth, n.state, fns[id], args@);
                        if v.result is Err {
                            v
                        } else {
                            done(merged_call(left(v.state), v.state.current), v.result->Ok_0)
                        }
                    }
                },
                None => if info.len() >= 2 && info[0] == "t3modules"@ && is_free_choice(info[1]) {
                    fail(s, AnalysisErrorView::RandFunctions)
                } else {
                    fail(s, unsupported_view("Unknown function!"@))
                },
            }
        },
        _ => fail(s, unsupported_view("Unknown value"@)),
    }
}

/// The value of a function's body for given arguments, once its scope is
/// entered.
pub open spec fn value_of_local(
    fns: Map<u64, RThir>,
    depth: nat,
    s: State,
    f: RThir,
    args: Seq<RExpr>,
) -> Outcome<Seq<char>>
    decreases depth, args, args.len() + 1,
{
    if depth == 0 {
        fail(s, unsupported_view("Call depth exhausted"@))
    } else {
        let p = params_bound(fns, depth, s, f.params@, args, 0);
        if p.result is Err {
            failed(p)
        } else {
            match f.body {
                Some(body) => value_of_block(fns, (depth - 1) as nat, p.state, body),
                None => fail(p.state, unsupported_view("Body not found"@)),
            }
        }
    }
}

/// The value of a conditional with both arms: `(ite c t e)`, after each arm
/// has run in a scope of its own and both have been merged.
pub open spec fn value_of_if(fns: Map<u64, RThir>, depth: nat, s: State, e: RExpr) -> Outcome<
    Seq<char>,
>
    decreases depth, e, 0int,
{
    match e.kind {
        RExprKind::If { cond, then, else_opt } => {
            let c = value_of(fns, depth, s, *cond);
            if c.result is Err {
                c
            } else {
                let guard = c.result->Ok_0;
                let n = entered_arm(c.state, "then"@, guard, then.span, cond.span);
                if n.result is Err {
                    failed(n)
                } else {
                    let t = value_of_block(fns, depth, n.state, *then);
                    if t.result is Err {
                        t
                    } else {
                        let back = left(t.state);
                        match else_opt {
                            None => fail(
                                back,
                                unsupported_view("Else block of if initializer not found"@),
                            ),
                            Some(els) => {
                                let m = entered_arm(
                                    back,
                                    "else"@,
                                    negated_text(guard),
                                    els.span,
                                    cond.span,
                                );
                                if m.result is Err {
                                    failed(m)
                                } else {
                                    let f = value_of_block(fns, depth, m.state, *els);
                                    if f.result is Err {
                                        f
                                    } else {
                                        done(
                                            merged_branch(
                                                left(f.state),
                                                guard,
                                                t.state.current,
                                                Some(f.state.current),
                                            ),
                                            ite_text(guard, t.result->Ok_0, f.result->Ok_0),
                                        )
                                    }
                                }
                            },
                        }
                    }
                }
            }
        },
        _ => fail(s, unsupported_view("Unknown value"@)),
    }
}

/// The value of a block: that of the first `return` among its statements,
/// else that of its trailing expression, else the empty text.
pub open spec fn value_of_block(fns: Map<u64, RThir>, depth: nat, s: State, block: RExpr)
    -> Outcome<Seq<char>>
    decreases depth, block, 0int,
{
    match block.kind {
        RExprKind::Block { stmts, expr } => {
            let o = statements(fns, depth, s, stmts@, 0);
            match o.result {
                Err(e) => failed(o),
                Ok(AnalysisTypeView::Return(Some(value))) => done(o.state, value),
                Ok(AnalysisTypeView::Return(None)) => fail(
                    o.state,
                    unsupported_view("No value with return"@),
                ),
                Ok(_) => match expr {
                    Some(last) => value_of(fns, depth, o.state, *last),
                    None => done(o.state, Seq::empty()),
                },
            }
        },
        _ => fail(s, unsupported_view("Unknown body pattern"@)),
    }
}

/// The statements of a block from the `i`-th on, one after the other, up
/// to and with the first that fails or returns. The annotation of a loop
/// invariant takes the statement after it along: see `loop_checked`.
pub open spec fn statements(fns: Map<u64, RThir>, depth: nat, s: State, stmts: Seq<RExpr>, i: int)
    -> Outcome<AnalysisTypeView>
    decreases depth, stmts, stmts.len() - i,
{
    if i < 0 || i >= stmts.len() {
        done(s, AnalysisTypeView::Other)
    } else {
        let o = statement(fns, depth, s, stmts[i]);
        if o.result is Err || o.result->Ok_0 is Return {
            o
        } else if o.result->Ok_0 is Invariant {
            if i + 1 >= stmts.len() {
                fail(o.state, unsupported_view("Invariant without loop"@))
            } else {
                let l = loop_checked(fns, depth, o.state, stmts, i);
                if l.result is Err {
                    failed(l)
                } else {
                    statements(fns, depth, l.state, stmts, i + 2)
                }
            }
        } else {
            statements(fns, depth, o.state, stmts, i + 1)
        }
    }
}

/// The check of a loop against its invariant. The `i`-th statement is the
/// annotation and names the invariant; the statement after it must be the
/// loop. The invariant is assumed as it reads before the loop; the loop's
/// body is analysed once, in the current scope; then the invariant is
/// asserted as it reads after the body, which issues a query. The analysis
/// goes on from there: it looks at one pass through the body and at no
/// second one.
pub open spec fn loop_checked(fns: Map<u64, RThir>, depth: nat, s: State, stmts: Seq<RExpr>, i: int)
    -> Outcome<()>
    decreases depth, stmts, 0int,
{
    if i < 0 || i + 1 >= stmts.len() {
        fail(s, unsupported_view("Invariant without loop"@))
    } else {
        match (stmts[i].kind, stmts[i + 1].kind) {
            (RExprKind::Call { def, args }, RExprKind::Loop { body }) => if args.len() == 0 {
                fail(s, unsupported_view("Missing argument"@))
            } else {
                let before = value_of(fns, depth, s, args[0]);
                if before.result is Err {
                    failed(settled(before))
                } else {
                    let b = block(
                        fns,
                        depth,
                        assume_in(before.state, before.result->Ok_0, args[0].span),
                        *body,
                    );
                    if b.result is Err {
                        b
                    } else {
                        let after = value_of(fns, depth, b.state, args[0]);
                        if after.result is Err {
                            failed(settled(after))
                        } else {
                            queried(assume_in(after.state, after.result->Ok_0, args[0].span))
                        }
                    }
                }
            },
            _ => fail(s, unsupported_view("Invariant without loop"@)),
        }
    }
}

/// A block in statement position: its statements, and its trailing
/// expression as one more statement unless a statement returned.
pub open spec fn block(fns: Map<u64, RThir>, depth: nat, s: State, body: RExpr) -> Outcome<()>
    decreases depth, body, 0int,
{
    match body.kind {
        RExprKind::Block { stmts, expr } => {
            let o = statements(fns, depth, s, stmts@, 0);
            if o.result is Err {
                failed(o)
            } else if o.result->Ok_0 is Return {
                finished(o)
            } else {
                match expr {
                    Some(last) => {
                        let t = statement(fns, depth, o.state, *last);
                        if t.result is Err {
                            failed(t)
                        } else if t.result->Ok_0 is Invariant {
                            fail(t.state, unsupported_view("Invariant without loop"@))
                        } else {
                            finished(t)
                        }
                    },
                    None => finished(o),
                }
            }
        },
        _ => fail(s, unsupported_view("Unknown body pattern"@)),
    }
}

/// One statement. A kind of node that has no rule here is refused. A free
/// choice that no `let` inside the statement has taken is refused as well.
pub open spec fn statement(fns: Map<u64, RThir>, depth: nat, s: State, e: RExpr) -> Outcome<
    AnalysisTypeView,
>
    decreases depth, e, 10int,
{
    settled(
        match e.kind {
        RExprKind::Literal { lit, neg } => other(value_assumed(fns, depth, s, e)),
        RExprKind::VarRef { id } => other(value_assumed(fns, depth, s, e)),
        RExprKind::Binary { op, lhs, rhs } => other(value_assumed(fns, depth, s, e)),
        RExprKind::Pat { kind } => other(pattern(s, kind, e.span)),
        RExprKind::Call { def, args } => call(fns, depth, s, e),
        RExprKind::LetStmt { pattern, initializer, else_block } => other(
            let_statement(fns, depth, s, e),
        ),
        RExprKind::Return { value } => match value {
            Some(v) => {
                let o = value_of(fns, depth, s, *v);
                if o.result is Err {
                    failed(o)
                } else {
                    done(o.state, AnalysisTypeView::Return(Some(o.result->Ok_0)))
                }
            },
            None => done(s, AnalysisTypeView::Return(None)),
        },
        RExprKind::AssignOp { op, lhs, rhs } => other(assign_op(fns, depth, s, e)),
        RExprKind::Assign { lhs, rhs } => other(assign(fns, depth, s, e)),
        RExprKind::If { cond, then, else_opt } => other(conditional(fns, depth, s, e)),
        _ => fail(s, unsupported_view("Unknown expr"@)),
    },
    )
}

/// An expression that stands as a statement: its value is assumed.
pub open spec fn value_assumed(fns: Map<u64, RThir>, depth: nat, s: State, e: RExpr) -> Outcome<()>
    decreases depth, e, 9int,
{
    let o = value_of(fns, depth, s, e);
    if o.result is Err {
        failed(o)
    } else {
        done(assume_in(o.state, o.result->Ok_0, e.span), ())
    }
}

/// A pattern that stands as a statement: a binding declares its name as it
/// is, a wildcard does nothing.
pub open spec fn pattern(s: State, kind: RPatKind, span: Span) -> Outcome<()> {
    match kind {
        RPatKind::Wild => done(s, ()),
        RPatKind::Binding { name, ty, var } => done(
            declare_in(s, name@, ty, var, span),
            (),
        ),
        RPatKind::Other => fail(s, unsupported_view("Unsupported pattern"@)),
    }
}

/// A `let`: declares the bound name under the scope and, where there is an
/// initializer with a value, states their equality. An initializer that is a
/// free choice leaves the name unconstrained. A free choice that comes up
/// inside a scope which the initializer has entered is no such leave: there
/// it stands where a value is needed, and the `let` fails with it.
pub open spec fn let_statement(fns: Map<u64, RThir>, depth: nat, s: State, e: RExpr) -> Outcome<()>
    decreases depth, e, 0int,
{
    match e.kind {
        RExprKind::LetStmt { pattern, initializer, else_block } => match pattern.kind {
            RExprKind::Pat { kind: RPatKind::Binding { name, ty, var } } => {
                let symbol = scoped_text(s.current.name, name@);
                let declared = declare_in(s, symbol, ty, var, pattern.span);
                match initializer {
                    Some(init) => {
                        let o = value_of(fns, depth, declared, *init);
                        match o.result {
                            Ok(value) => done(
                                assume_in(o.state, equal_text(symbol, value), init.span),
                                (),
                            ),
                            Err(AnalysisErrorView::RandFunctions) => if o.state.stack.len()
                                == declared.stack.len() {
                                done(o.state, ())
                            } else {
                                fail(o.state, AnalysisErrorView::RandFunctions)
                            },
                            Err(error) => fail(o.state, error),
                        }
                    },
                    None => done(declared, ()),
                }
            },
            _ => fail(s, unsupported_view("Unsupported let pattern"@)),
        },
        _ => fail(s, unsupported_view("Unknown expr"@)),
    }
}

/// A plain assignment: the right-hand side is rendered under the old
/// bindings, then the target gets its fresh name, equal to that value.
pub open spec fn assign(fns: Map<u64, RThir>, depth: nat, s: State, e: RExpr) -> Outcome<()>
    decreases depth, e, 0int,
{
    match e.kind {
        RExprKind::Assign { lhs, rhs } => {
            let r = value_of(fns, depth, s, *rhs);
            if r.result is Err {
                failed(r)
            } else {
                let a = assigned(r.state, *lhs);
                if a.result is Err {
                    failed(a)
                } else {
                    done(
                        assume_in(a.state, equal_text(a.result->Ok_0.0, r.result->Ok_0), e.span),
                        (),
                    )
                }
            }
        },
        _ => fail(s, unsupported_view("Unknown expr"@)),
    }
}

/// A compound assignment: as a plain one, with the operator applied to the
/// target's old name and the right-hand side as the value.
pub open spec fn assign_op(fns: Map<u64, RThir>, depth: nat, s: State, e: RExpr) -> Outcome<()>
    decreases depth, e, 0int,
{
    match e.kind {
        RExprKind::AssignOp { op, lhs, rhs } => {
            let r = value_of(fns, depth, s, *rhs);
            if r.result is Err {
                failed(r)
            } else {
                let a = assigned(r.state, *lhs);
                if a.result is Err {
                    failed(a)
                } else {
                    match bin_op_text(op, a.result->Ok_0.1, r.result->Ok_0) {
                        Ok(value) => done(
                            assume_in(a.state, equal_text(a.result->Ok_0.0, value), e.span),
                            (),
                        ),
                        Err(error) => fail(a.state, error),
                    }
                }
            }
        },
        _ => fail(s, unsupported_view("Unknown expr"@)),
    }
}

/// A conditional in statement position: each arm runs in a scope of its
/// own, under its guard, and the arms are merged into the parent.
pub open spec fn conditional(fns: Map<u64, RThir>, depth: nat, s: State, e: RExpr) -> Outcome<()>
    decreases depth, e, 0int,
{
    match e.kind {
        RExprKind::If { cond, then, else_opt } => {
            let c = value_of(fns, depth, s, *cond);
            if c.result is Err {
                failed(c)
            } else {
                let guard = c.result->Ok_0;
                let n = entered_arm(c.state, "then"@, guard, then.span, cond.span);
                if n.result is Err {
                    failed(n)
                } else {
                    let t = block(fns, depth, n.state, *then);
                    if t.result is Err {
                        failed(t)
                    } else {
                        let back = left(t.state);
                        match else_opt {
                            None => done(
                                merged_branch(back, guard, t.state.current, None),
                                (),
                            ),
                            Some(els) => {
                                let m = entered_arm(
                                    back,
                                    "else"@,
                                    negated_text(guard),
                                    els.span,
                                    cond.span,
                                );
                                if m.result is Err {
                                    failed(m)
                                } else {
                                    let f = block(fns, depth, m.state, *els);
                                    if f.result is Err {
                                        failed(f)
                                    } else {
                                        done(
                                            merged_branch(
                                                left(f.state),
                                                guard,
                                                t.state.current,
                                                Some(f.state.current),
                                            ),
                                            (),
                                        )
                                    }
                                }
                            },
                        }
                    }
                }
            }
        },
        _ => fail(s, unsupported_view("Unknown expr"@)),
    }
}

/// A call in statement position: a function of the program is inlined in a
/// scope named after it, and that scope is merged into the caller's; any
/// other function must be one of the primitives.
pub open spec fn call(fns: Map<u64, RThir>, depth: nat, s: State, e: RExpr) -> Outcome<
    AnalysisTypeView,
>
    decreases depth, e, 3int,
{
    match e.kind {
        RExprKind::Call { def, args } => {
            let info = segments(def.path@);
            match def.local {
                Some(id) => if !fns.contains_key(id) {
                    fail(s, AnalysisErrorView::FunctionNotFound(id))
                } else if info.len() == 0 {
                    fail(s, unsupported_view("fn info not found"@))
                } else {
                    let n = entered(s, nested_name(info.last(), s.current.name), e.span);
                    if n.result is Err {
                        failed(n)
                    } else {
                        let o = local_fn(fns, depth, n.state, fns[id], args@);
                        if o.result is Err {
                            failed(o)
                        } else {
                            done(
                                merged_call(left(o.state), o.state.current),
                                AnalysisTypeView::Other,
                            )
                        }
                    }
                },
                None => extern_fn(fns, depth, s, e),
            }
        },
        _ => fail(s, unsupported_view("Unknown expr"@)),
    }
}

/// A function of the program for given arguments, in the current scope:
/// its parameters are bound, then its body runs. Entering the body takes one
/// from the depth; with none left, the function is refused.
pub open spec fn local_fn(fns: Map<u64, RThir>, depth: nat, s: State, f: RThir, args: Seq<RExpr>)
    -> Outcome<()>
    decreases depth, args, args.len() + 1,
{
    if depth == 0 {
        fail(s, unsupported_view("Call depth exhausted"@))
    } else {
        let p = params_bound(fns, depth, s, f.params@, args, 0);
        if p.result is Err {
            p
        } else {
            match f.body {
                Some(body) => block(fns, (depth - 1) as nat, p.state, body),
                None => p,
            }
        }
    }
}

/// Binding parameters to arguments, pair by pair from the `i`-th on, as
/// far as both go: a binding declares the parameter's name under the scope
/// and states its equality with the argument's value; a wildcard, and a
/// parameter without a pattern, bind nothing.
pub open spec fn params_bound(
    fns: Map<u64, RThir>,
    depth: nat,
    s: State,
    params: Seq<RParam>,
    args: Seq<RExpr>,
    i: int,
) -> Outcome<()>
    decreases depth, args, args.len() - i,
{
    if i < 0 || i >= params.len() || i >= args.len() {
        done(s, ())
    } else {
        match params[i].pat {
            Some(pat) => match pat.kind {
                RExprKind::Pat { kind } => match kind {
                    RPatKind::Binding { name, ty, var } => {
                        let symbol = scoped_text(s.current.name, name@);
                        let declared = declare_in(s, symbol, ty, var, pat.span);
                        let o = value_of(fns, depth, declared, args[i]);
                        if o.result is Err {
                            failed(o)
                        } else {
                            params_bound(
                                fns,
                                depth,
                                assume_in(
                                    o.state,
                                    equal_text(symbol, o.result->Ok_0),
                                    args[i].span,
                                ),
                                params,
                                args,
                                i + 1,
                            )
                        }
                    },
                    RPatKind::Wild => params_bound(fns, depth, s, params, args, i + 1),
                    RPatKind::Other => fail(s, unsupported_view("Unsupported pattern"@)),
                },
                _ => params_bound(fns, depth, s, params, args, i + 1),
            },
            None => params_bound(fns, depth, s, params, args, i + 1),
        }
    }
}

/// A call of a function from outside the program. Three primitives are
/// known, all under `t3modules`: `t3assert` and `t3assume`, and `invariant`,
/// which only announces that the next statement is a loop to be checked
/// against its argument. Every other path is refused.
pub open spec fn extern_fn(fns: Map<u64, RThir>, depth: nat, s: State, e: RExpr) -> Outcome<
    AnalysisTypeView,
>
    decreases depth, e, 2int,
{
    match e.kind {
        RExprKind::Call { def, args } => {
            let info = segments(def.path@);
            if info.len() >= 2 && info[0] == "t3modules"@ && info[1] == "t3assert"@ {
                other(t3assert(fns, depth, s, e))
            } else if info.len() >= 2 && info[0] == "t3modules"@ && info[1] == "t3assume"@ {
                other(t3assume(fns, depth, s, e))
            } else if info.len() >= 2 && info[0] == "t3modules"@ && info[1] == "invariant"@ {
                if args.len() == 0 {
                    fail(s, unsupported_view("Missing argument"@))
                } else {
                    done(s, AnalysisTypeView::Invariant)
                }
            } else {
                fail(s, unsupported_view("Unknown function!"@))
            }
        },
        _ => fail(s, unsupported_view("Unknown expr"@)),
    }
}

/// The assert primitive: its condition is logged as the assume primitive
/// logs it, and the query that checks it is issued.
pub open spec fn t3assert(fns: Map<u64, RThir>, depth: nat, s: State, e: RExpr) -> Outcome<()>
    decreases depth, e, 1int,
{
    let a = t3assume(fns, depth, s, e);
    if a.result is Err {
        a
    } else {
        queried(a.state)
    }
}

/// The assume primitive: the value of its first argument is assumed.
pub open spec fn t3assume(fns: Map<u64, RThir>, depth: nat, s: State, e: RExpr) -> Outcome<()>
    decreases depth, e, 0int,
{
    match e.kind {
        RExprKind::Call { def, args } => if args.len() == 0 {
            fail(s, unsupported_view("Missing argument"@))
        } else {
            let o = value_of(fns, depth, s, args[0]);
            if o.result is Err {
                failed(o)
            } else {
                done(assume_in(o.state, o.result->Ok_0, args[0].span), ())
            }
        },
        _ => fail(s, unsupported_view("Unknown expr"@)),
    }
}

/// Declaring the parameters of the entry function from the `i`-th on: a
/// binding declares the parameter's name under the scope and binds the
/// parameter to it, with no equality, since nobody passes an argument; a
/// wildcard, and a parameter without a pattern, declare nothing.
pub open spec fn params_declared(s: State, params: Seq<RParam>, i: int) -> Outcome<()>
    decreases params.len() - i,
{
    if i < 0 || i >= params.len() {
        done(s, ())
    } else {
        match params[i].pat {
            Some(pat) => match pat.kind {
                RExprKind::Pat { kind } => match kind {
                    RPatKind::Binding { name, ty, var } => params_declared(
                        declare_in(s, scoped_text(s.current.name, name@), ty, var, pat.span),
                        params,
                        i + 1,
                    ),
                    RPatKind::Wild => params_declared(s, params, i + 1),
                    RPatKind::Other => fail(s, unsupported_view("Unsupported pattern"@)),
                },
                _ => params_declared(s, params, i + 1),
            },
            None => params_declared(s, params, i + 1),
        }
    }
}

/// The entry function, in the current scope: its parameters are declared
/// as free values, then its body runs. Entering the body takes one from the
/// depth.
pub open spec fn entry_fn(fns: Map<u64, RThir>, depth: nat, s: State, f: RThir) -> Outcome<()> {
    if depth == 0 {
        fail(s, unsupported_view("Call depth exhausted"@))
    } else {
        let p = params_declared(s, f.params@, 0);
        if p.result is Err {
            p
        } else {
            match f.body {
                Some(body) => block(fns, (depth - 1) as nat, p.state, body),
                None => p,
            }
        }
    }
}

/// The whole analysis of a program from its entry function: the entry runs
/// in the scope `main` with its parameters declared, and as many bodies may
/// be entered one inside the other as the program has functions.
pub open spec fn analysis(fns: Map<u64, RThir>, main_id: u64) -> Outcome<()> {
    if fns.contains_key(main_id) {
        entry_fn(fns, fns.len(), initial(), fns[main_id])
    } else {
        fail(initial(), AnalysisErrorView::FunctionNotFound(main_id))
    }
}

} // verus!
