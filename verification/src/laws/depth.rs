//! The depth of inlining is enough for a program whose calls go down in
//! rank.
//!
//! The analysis enters at most as many function bodies, one inside the
//! other, as the program has functions. This module shows that the limit is
//! never met by a program whose functions can be ranked so that every call
//! goes to a function of a lower rank.
use vstd::prelude::*;
use crate::analyze::model::{
    Outcome, State, analysis, assume_in, block, call, conditional, declare_in, entered,
    entered_arm, extern_fn, initial, left, let_statement, local_fn, loop_checked, nested_name,
    params_bound, params_declared, statement, statements, t3assert, t3assume, value_of, value_of_block,
    value_of_call, value_of_if, value_of_local,
};
use crate::context::{rendered, rendered_for_check};
use crate::error::{AnalysisErrorView, unsupported_view};
use crate::lir::LirView;
use crate::text::{equal_text, negated_text, scoped_text, segments};
use crate::tree::{RExpr, RExprKind, RParam, RPatKind, RThir};

verus! {

/// Whether every call in `e` of a function of the program names a function
/// of a rank below `bound`.
pub open spec fn calls_below(e: RExpr, rank: spec_fn(u64) -> nat, bound: nat) -> bool
    decreases e,
{
    match e.kind {
        RExprKind::Unary { op, arg } => calls_below(*arg, rank, bound),
        RExprKind::Binary { op, lhs, rhs } => calls_below(*lhs, rank, bound) && calls_below(
            *rhs,
            rank,
            bound,
        ),
        RExprKind::LogicalOp { op, lhs, rhs } => calls_below(*lhs, rank, bound) && calls_below(
            *rhs,
            rank,
            bound,
        ),
        RExprKind::Assign { lhs, rhs } => calls_below(*rhs, rank, bound),
        RExprKind::AssignOp { op, lhs, rhs } => calls_below(*rhs, rank, bound),
        RExprKind::LetStmt { pattern, initializer, else_block } => match initializer {
            Some(init) => calls_below(*init, rank, bound),
            None => true,
        },
        RExprKind::If { cond, then, else_opt } => calls_below(*cond, rank, bound) && calls_below(
            *then,
            rank,
            bound,
        ) && match else_opt {
            Some(els) => calls_below(*els, rank, bound),
            None => true,
        },
        RExprKind::Return { value } => match value {
            Some(v) => calls_below(*v, rank, bound),
            None => true,
        },
        RExprKind::Call { def, args } => (def.local matches Some(id) ==> rank(id) < bound) && (
        forall|i: int| 0 <= i < args.len() ==> calls_below(#[trigger] args[i], rank, bound)),
        RExprKind::Block { stmts, expr } => (forall|i: int|
            0 <= i < stmts.len() ==> calls_below(#[trigger] stmts[i], rank, bound)) && match expr {
            Some(last) => calls_below(*last, rank, bound),
            None => true,
        },
        RExprKind::Loop { body } => calls_below(*body, rank, bound),
        _ => true,
    }
}

/// Whether every call in the body of `f` goes to a rank below `bound`.
pub open spec fn fn_calls_below(f: RThir, rank: spec_fn(u64) -> nat, bound: nat) -> bool {
    match f.body {
        Some(body) => calls_below(body, rank, bound),
        None => true,
    }
}

/// Whether `rank` ranks the program: every call in a function of the
/// program goes to a function of a lower rank than the function's own.
pub open spec fn ranked(fns: Map<u64, RThir>, rank: spec_fn(u64) -> nat) -> bool {
    forall|id: u64| #[trigger] fns.contains_key(id) ==> fn_calls_below(fns[id], rank, rank(id))
}

/// The error of an analysis that met the limit of its depth.
pub open spec fn is_cut(error: AnalysisErrorView) -> bool {
    error == unsupported_view("Call depth exhausted"@)
}

/// Whether a step ended at the limit of the depth.
pub open spec fn cut<T>(o: Outcome<T>) -> bool {
    o.result is Err && is_cut(o.result->Err_0)
}

/// No other refusal reads like the one at the limit of the depth.
pub proof fn lemma_messages()
    ensures
        !is_cut(unsupported_view("Unknown expr"@)),
        !is_cut(unsupported_view("Unknown value"@)),
        !is_cut(unsupported_view("Unknown function!"@)),
        !is_cut(unsupported_view("Unknown body pattern"@)),
        !is_cut(unsupported_view("fn info not found"@)),
        !is_cut(unsupported_view("Body not found"@)),
        !is_cut(unsupported_view("Else block of if initializer not found"@)),
        !is_cut(unsupported_view("No value with return"@)),
        !is_cut(unsupported_view("Invariant without loop"@)),
        !is_cut(unsupported_view("Missing argument"@)),
        !is_cut(unsupported_view("Unsupported pattern"@)),
        !is_cut(unsupported_view("Unsupported let pattern"@)),
        !is_cut(unsupported_view("Unsupported assignment target"@)),
        !is_cut(unsupported_view("Unsupported literal pattern"@)),
        !is_cut(unsupported_view("Unsupported type"@)),
        !is_cut(unsupported_view("Free value outside a let"@)),
        !is_cut(unsupported_view("Nothing to check"@)),
{
    reveal_strlit("Call depth exhausted");
    reveal_strlit("Unknown expr");
    reveal_strlit("Unknown value");
    reveal_strlit("Unknown function!");
    reveal_strlit("Unknown body pattern");
    reveal_strlit("fn info not found");
    reveal_strlit("Body not found");
    reveal_strlit("Else block of if initializer not found");
    reveal_strlit("No value with return");
    reveal_strlit("Invariant without loop");
    reveal_strlit("Missing argument");
    reveal_strlit("Unsupported pattern");
    reveal_strlit("Unsupported let pattern");
    reveal_strlit("Unsupported assignment target");
    reveal_strlit("Unsupported literal pattern");
    reveal_strlit("Unsupported type");
    reveal_strlit("Free value outside a let");
    reveal_strlit("Nothing to check");
    assert("Unknown body pattern"@[0] != "Call depth exhausted"@[0]);
    assert("No value with return"@[0] != "Call depth exhausted"@[0]);
}

// The lemmas from here on say, each of one step of the analysis, that the
// step does not end at the limit of the depth when every call in what it
// analyses goes below a bound that the depth has reached.

/// A log that does not render does not fail at the limit of the depth.
pub proof fn lemma_rendered_alone(path: Seq<LirView>)
    ensures
        rendered(path) is Err ==> !is_cut(rendered(path)->Err_0),
    decreases path.len(),
{
    lemma_messages();
    if path.len() > 0 {
        lemma_rendered_alone(path.drop_last());
    }
}

/// Neither a log nor a query that does not render fails at the limit of
/// the depth.
pub proof fn lemma_rendered(path: Seq<LirView>)
    ensures
        rendered(path) is Err ==> !is_cut(rendered(path)->Err_0),
        rendered_for_check(path) is Err ==> !is_cut(rendered_for_check(path)->Err_0),
{
    lemma_messages();
    lemma_rendered_alone(path);
    if path.len() > 0 {
        lemma_rendered_alone(path.drop_last());
    }
}

proof fn lemma_value_of(
    fns: Map<u64, RThir>,
    rank: spec_fn(u64) -> nat,
    depth: nat,
    s: State,
    e: RExpr,
    bound: nat,
)
    requires
        ranked(fns, rank),
        calls_below(e, rank, bound),
        bound <= depth,
    ensures
        !cut(value_of(fns, depth, s, e)),
    decreases depth, e, 8int,
{
    lemma_messages();
    match e.kind {
        RExprKind::LogicalOp { op, lhs, rhs } => {
            lemma_value_of(fns, rank, depth, s, *lhs, bound);
            let l = value_of(fns, depth, s, *lhs);
            if l.result is Ok {
                lemma_value_of(fns, rank, depth, l.state, *rhs, bound);
            }
        },
        RExprKind::Unary { op, arg } => {
            lemma_value_of(fns, rank, depth, s, *arg, bound);
        },
        RExprKind::Binary { op, lhs, rhs } => {
            lemma_value_of(fns, rank, depth, s, *lhs, bound);
            let l = value_of(fns, depth, s, *lhs);
            if l.result is Ok {
                lemma_value_of(fns, rank, depth, l.state, *rhs, bound);
            }
        },
        RExprKind::Call { def, args } => {
            lemma_value_of_call(fns, rank, depth, s, e, bound);
        },
        RExprKind::If { cond, then, else_opt } => {
            lemma_value_of_if(fns, rank, depth, s, e, bound);
        },
        _ => {},
    }
}

proof fn lemma_value_of_call(
    fns: Map<u64, RThir>,
    rank: spec_fn(u64) -> nat,
    depth: nat,
    s: State,
    e: RExpr,
    bound: nat,
)
    requires
        ranked(fns, rank),
        calls_below(e, rank, bound),
        bound <= depth,
    ensures
        !cut(value_of_call(fns, depth, s, e)),
    decreases depth, e, 3int,
{
    lemma_messages();
    match e.kind {
        RExprKind::Call { def, args } => {
            let info = segments(def.path@);
            match def.local {
                Some(id) => {
                    if fns.contains_key(id) && info.len() > 0 {
                        lemma_rendered(s.current.path);
                        let n = entered(s, nested_name(info.last(), s.current.name), e.span);
                        if n.result is Ok {
                            lemma_value_of_local(fns, rank, depth, n.state, fns[id], args@, id, bound);
                        }
                    }
                },
                None => {},
            }
        },
        _ => {},
    }
}

proof fn lemma_value_of_local(
    fns: Map<u64, RThir>,
    rank: spec_fn(u64) -> nat,
    depth: nat,
    s: State,
    f: RThir,
    args: Seq<RExpr>,
    id: u64,
    bound: nat,
)
    requires
        ranked(fns, rank),
        fns.contains_key(id),
        f == fns[id],
        rank(id) < depth,
        bound <= depth,
        forall|i: int| 0 <= i < args.len() ==> calls_below(#[trigger] args[i], rank, bound),
    ensures
        !cut(value_of_local(fns, depth, s, f, args)),
    decreases depth, args, args.len() + 1,
{
    lemma_messages();
    lemma_params_bound(fns, rank, depth, s, f.params@, args, 0, bound);
    let p = params_bound(fns, depth, s, f.params@, args, 0);
    if p.result is Ok {
        match f.body {
            Some(body) => {
                lemma_value_of_block(fns, rank, (depth - 1) as nat, p.state, body, rank(id));
            },
            None => {},
        }
    }
}

proof fn lemma_value_of_if(
    fns: Map<u64, RThir>,
    rank: spec_fn(u64) -> nat,
    depth: nat,
    s: State,
    e: RExpr,
    bound: nat,
)
    requires
        ranked(fns, rank),
        calls_below(e, rank, bound),
        bound <= depth,
    ensures
        !cut(value_of_if(fns, depth, s, e)),
    decreases depth, e, 0int,
{
    lemma_messages();
    match e.kind {
        RExprKind::If { cond, then, else_opt } => {
            lemma_value_of(fns, rank, depth, s, *cond, bound);
            let c = value_of(fns, depth, s, *cond);
            if c.result is Ok {
                let guard = c.result->Ok_0;
                lemma_rendered(c.state.current.path);
                let n = entered_arm(c.state, "then"@, guard, then.span, cond.span);
                if n.result is Ok {
                    lemma_value_of_block(fns, rank, depth, n.state, *then, bound);
                    let t = value_of_block(fns, depth, n.state, *then);
                    if t.result is Ok {
                        let back = left(t.state);
                        match else_opt {
                            Some(els) => {
                                lemma_rendered(back.current.path);
                                let m = entered_arm(
                                    back,
                                    "else"@,
                                    negated_text(guard),
                                    els.span,
                                    cond.span,
                                );
                                if m.result is Ok {
                                    lemma_value_of_block(fns, rank, depth, m.state, *els, bound);
                                }
                            },
                            None => {},
                        }
                    }
                }
            }
        },
        _ => {},
    }
}

proof fn lemma_value_of_block(
    fns: Map<u64, RThir>,
    rank: spec_fn(u64) -> nat,
    depth: nat,
    s: State,
    body: RExpr,
    bound: nat,
)
    requires
        ranked(fns, rank),
        calls_below(body, rank, bound),
        bound <= depth,
    ensures
        !cut(value_of_block(fns, depth, s, body)),
    decreases depth, body, 0int,
{
    lemma_messages();
    match body.kind {
        RExprKind::Block { stmts, expr } => {
            lemma_statements(fns, rank, depth, s, stmts@, 0, bound);
            let o = statements(fns, depth, s, stmts@, 0);
            if o.result is Ok && !(o.result->Ok_0 is Return) {
                match expr {
                    Some(last) => {
                        lemma_value_of(fns, rank, depth, o.state, *last, bound);
                    },
                    None => {},
                }
            }
        },
        _ => {},
    }
}

proof fn lemma_statements(
    fns: Map<u64, RThir>,
    rank: spec_fn(u64) -> nat,
    depth: nat,
    s: State,
    stmts: Seq<RExpr>,
    i: int,
    bound: nat,
)
    requires
        ranked(fns, rank),
        forall|k: int| 0 <= k < stmts.len() ==> calls_below(#[trigger] stmts[k], rank, bound),
        bound <= depth,
    ensures
        !cut(statements(fns, depth, s, stmts, i)),
    decreases depth, stmts, stmts.len() - i,
{
    lemma_messages();
    if 0 <= i < stmts.len() {
        lemma_statement(fns, rank, depth, s, stmts[i], bound);
        let o = statement(fns, depth, s, stmts[i]);
        if o.result is Ok {
            if o.result->Ok_0 is Return {
            } else if o.result->Ok_0 is Invariant {
                if i + 1 < stmts.len() {
                    lemma_loop_checked(fns, rank, depth, o.state, stmts, i, bound);
                    let l = loop_checked(fns, depth, o.state, stmts, i);
                    if l.result is Ok {
                        lemma_statements(fns, rank, depth, l.state, stmts, i + 2, bound);
                    }
                }
            } else {
                lemma_statements(fns, rank, depth, o.state, stmts, i + 1, bound);
            }
        }
    }
}

proof fn lemma_loop_checked(
    fns: Map<u64, RThir>,
    rank: spec_fn(u64) -> nat,
    depth: nat,
    s: State,
    stmts: Seq<RExpr>,
    i: int,
    bound: nat,
)
    requires
        ranked(fns, rank),
        forall|k: int| 0 <= k < stmts.len() ==> calls_below(#[trigger] stmts[k], rank, bound),
        bound <= depth,
    ensures
        !cut(loop_checked(fns, depth, s, stmts, i)),
    decreases depth, stmts, 0int,
{
    lemma_messages();
    if 0 <= i && i + 1 < stmts.len() {
        assert(calls_below(stmts[i], rank, bound));
        assert(calls_below(stmts[i + 1], rank, bound));
        match (stmts[i].kind, stmts[i + 1].kind) {
            (RExprKind::Call { def, args }, RExprKind::Loop { body }) => {
                if args.len() > 0 {
                    assert(calls_below(args[0], rank, bound));
                    lemma_value_of(fns, rank, depth, s, args[0], bound);
                    let before = value_of(fns, depth, s, args[0]);
                    if before.result is Ok {
                        let s1 = assume_in(before.state, before.result->Ok_0, args[0].span);
                        lemma_block(fns, rank, depth, s1, *body, bound);
                        let b = block(fns, depth, s1, *body);
                        if b.result is Ok {
                            lemma_value_of(fns, rank, depth, b.state, args[0], bound);
                            let after = value_of(fns, depth, b.state, args[0]);
                            if after.result is Ok {
                                lemma_rendered(
                                    assume_in(
                                        after.state,
                                        after.result->Ok_0,
                                        args[0].span,
                                    ).current.path,
                                );
                            }
                        }
                    }
                }
            },
            _ => {},
        }
    }
}

proof fn lemma_block(
    fns: Map<u64, RThir>,
    rank: spec_fn(u64) -> nat,
    depth: nat,
    s: State,
    body: RExpr,
    bound: nat,
)
    requires
        ranked(fns, rank),
        calls_below(body, rank, bound),
        bound <= depth,
    ensures
        !cut(block(fns, depth, s, body)),
    decreases depth, body, 0int,
{
    lemma_messages();
    match body.kind {
        RExprKind::Block { stmts, expr } => {
            lemma_statements(fns, rank, depth, s, stmts@, 0, bound);
            let o = statements(fns, depth, s, stmts@, 0);
            if o.result is Ok && !(o.result->Ok_0 is Return) {
                match expr {
                    Some(last) => {
                        lemma_statement(fns, rank, depth, o.state, *last, bound);
                    },
                    None => {},
                }
            }
        },
        _ => {},
    }
}

proof fn lemma_statement(
    fns: Map<u64, RThir>,
    rank: spec_fn(u64) -> nat,
    depth: nat,
    s: State,
    e: RExpr,
    bound: nat,
)
    requires
        ranked(fns, rank),
        calls_below(e, rank, bound),
        bound <= depth,
    ensures
        !cut(statement(fns, depth, s, e)),
    decreases depth, e, 10int,
{
    lemma_messages();
    match e.kind {
        RExprKind::Literal { lit, neg } => {
            lemma_value_of(fns, rank, depth, s, e, bound);
        },
        RExprKind::VarRef { id } => {
            lemma_value_of(fns, rank, depth, s, e, bound);
        },
        RExprKind::Binary { op, lhs, rhs } => {
            lemma_value_of(fns, rank, depth, s, e, bound);
        },
        RExprKind::Call { def, args } => {
            lemma_call(fns, rank, depth, s, e, bound);
        },
        RExprKind::LetStmt { pattern, initializer, else_block } => {
            lemma_let_statement(fns, rank, depth, s, e, bound);
        },
        RExprKind::Return { value } => {
            match value {
                Some(v) => {
                    lemma_value_of(fns, rank, depth, s, *v, bound);
                },
                None => {},
            }
        },
        RExprKind::AssignOp { op, lhs, rhs } => {
            lemma_value_of(fns, rank, depth, s, *rhs, bound);
        },
        RExprKind::Assign { lhs, rhs } => {
            lemma_value_of(fns, rank, depth, s, *rhs, bound);
        },
        RExprKind::If { cond, then, else_opt } => {
            lemma_conditional(fns, rank, depth, s, e, bound);
        },
        _ => {},
    }
}

proof fn lemma_let_statement(
    fns: Map<u64, RThir>,
    rank: spec_fn(u64) -> nat,
    depth: nat,
    s: State,
    e: RExpr,
    bound: nat,
)
    requires
        ranked(fns, rank),
        calls_below(e, rank, bound),
        bound <= depth,
    ensures
        !cut(let_statement(fns, depth, s, e)),
    decreases depth, e, 0int,
{
    lemma_messages();
    match e.kind {
        RExprKind::LetStmt { pattern, initializer, else_block } => match pattern.kind {
            RExprKind::Pat { kind: RPatKind::Binding { name, ty, var } } => {
                match initializer {
                    Some(init) => {
                        let symbol = scoped_text(s.current.name, name@);
                        let declared = declare_in(s, symbol, ty, var, pattern.span);
                        lemma_value_of(fns, rank, depth, declared, *init, bound);
                    },
                    None => {},
                }
            },
            _ => {},
        },
        _ => {},
    }
}

proof fn lemma_conditional(
    fns: Map<u64, RThir>,
    rank: spec_fn(u64) -> nat,
    depth: nat,
    s: State,
    e: RExpr,
    bound: nat,
)
    requires
        ranked(fns, rank),
        calls_below(e, rank, bound),
        bound <= depth,
    ensures
        !cut(conditional(fns, depth, s, e)),
    decreases depth, e, 0int,
{
    lemma_messages();
    match e.kind {
        RExprKind::If { cond, then, else_opt } => {
            lemma_value_of(fns, rank, depth, s, *cond, bound);
            let c = value_of(fns, depth, s, *cond);
            if c.result is Ok {
                let guard = c.result->Ok_0;
                lemma_rendered(c.state.current.path);
                let n = entered_arm(c.state, "then"@, guard, then.span, cond.span);
                if n.result is Ok {
                    lemma_block(fns, rank, depth, n.state, *then, bound);
                    let t = block(fns, depth, n.state, *then);
                    if t.result is Ok {
                        let back = left(t.state);
                        match else_opt {
                            Some(els) => {
                                lemma_rendered(back.current.path);
                                let m = entered_arm(
                                    back,
                                    "else"@,
                                    negated_text(guard),
                                    els.span,
                                    cond.span,
                                );
                                if m.result is Ok {
                                    lemma_block(fns, rank, depth, m.state, *els, bound);
                                }
                            },
                            None => {},
                        }
                    }
                }
            }
        },
        _ => {},
    }
}

proof fn lemma_call(
    fns: Map<u64, RThir>,
    rank: spec_fn(u64) -> nat,
    depth: nat,
    s: State,
    e: RExpr,
    bound: nat,
)
    requires
        ranked(fns, rank),
        calls_below(e, rank, bound),
        bound <= depth,
    ensures
        !cut(call(fns, depth, s, e)),
    decreases depth, e, 3int,
{
    lemma_messages();
    match e.kind {
        RExprKind::Call { def, args } => {
            let info = segments(def.path@);
            match def.local {
                Some(id) => {
                    if fns.contains_key(id) && info.len() > 0 {
                        lemma_rendered(s.current.path);
                        let n = entered(s, nested_name(info.last(), s.current.name), e.span);
                        if n.result is Ok {
                            lemma_local_fn(fns, rank, depth, n.state, fns[id], args@, id, bound);
                        }
                    }
                },
                None => {
                    lemma_extern_fn(fns, rank, depth, s, e, bound);
                },
            }
        },
        _ => {},
    }
}

proof fn lemma_local_fn(
    fns: Map<u64, RThir>,
    rank: spec_fn(u64) -> nat,
    depth: nat,
    s: State,
    f: RThir,
    args: Seq<RExpr>,
    id: u64,
    bound: nat,
)
    requires
        ranked(fns, rank),
        fns.contains_key(id),
        f == fns[id],
        rank(id) < depth,
        bound <= depth,
        forall|i: int| 0 <= i < args.len() ==> calls_below(#[trigger] args[i], rank, bound),
    ensures
        !cut(local_fn(fns, depth, s, f, args)),
    decreases depth, args, args.len() + 1,
{
    lemma_messages();
    lemma_params_bound(fns, rank, depth, s, f.params@, args, 0, bound);
    let p = params_bound(fns, depth, s, f.params@, args, 0);
    if p.result is Ok {
        match f.body {
            Some(body) => {
                lemma_block(fns, rank, (depth - 1) as nat, p.state, body, rank(id));
            },
            None => {},
        }
    }
}

proof fn lemma_params_bound(
    fns: Map<u64, RThir>,
    rank: spec_fn(u64) -> nat,
    depth: nat,
    s: State,
    params: Seq<RParam>,
    args: Seq<RExpr>,
    i: int,
    bound: nat,
)
    requires
        ranked(fns, rank),
        bound <= depth,
        forall|k: int| 0 <= k < args.len() ==> calls_below(#[trigger] args[k], rank, bound),
    ensures
        !cut(params_bound(fns, depth, s, params, args, i)),
    decreases depth, args, args.len() - i,
{
    lemma_messages();
    if 0 <= i && i < params.len() && i < args.len() {
        match params[i].pat {
            Some(pat) => match pat.kind {
                RExprKind::Pat { kind } => match kind {
                    RPatKind::Binding { name, ty, var } => {
                        let symbol = scoped_text(s.current.name, name@);
                        let declared = declare_in(s, symbol, ty, var, pat.span);
                        lemma_value_of(fns, rank, depth, declared, args[i], bound);
                        let o = value_of(fns, depth, declared, args[i]);
                        if o.result is Ok {
                            lemma_params_bound(
                                fns,
                                rank,
                                depth,
                                assume_in(
                                    o.state,
                                    equal_text(symbol, o.result->Ok_0),
                                    args[i].span,
                                ),
                                params,
                                args,
                                i + 1,
                                bound,
                            );
                        }
                    },
                    RPatKind::Wild => {
                        lemma_params_bound(fns, rank, depth, s, params, args, i + 1, bound);
                    },
                    RPatKind::Other => {},
                },
                _ => {
                    lemma_params_bound(fns, rank, depth, s, params, args, i + 1, bound);
                },
            },
            None => {
                lemma_params_bound(fns, rank, depth, s, params, args, i + 1, bound);
            },
        }
    }
}

proof fn lemma_extern_fn(
    fns: Map<u64, RThir>,
    rank: spec_fn(u64) -> nat,
    depth: nat,
    s: State,
    e: RExpr,
    bound: nat,
)
    requires
        ranked(fns, rank),
        calls_below(e, rank, bound),
        bound <= depth,
    ensures
        !cut(extern_fn(fns, depth, s, e)),
    decreases depth, e, 2int,
{
    lemma_messages();
    lemma_t3assert(fns, rank, depth, s, e, bound);
    lemma_t3assume(fns, rank, depth, s, e, bound);
}

proof fn lemma_t3assert(
    fns: Map<u64, RThir>,
    rank: spec_fn(u64) -> nat,
    depth: nat,
    s: State,
    e: RExpr,
    bound: nat,
)
    requires
        ranked(fns, rank),
        calls_below(e, rank, bound),
        bound <= depth,
    ensures
        !cut(t3assert(fns, depth, s, e)),
    decreases depth, e, 1int,
{
    lemma_t3assume(fns, rank, depth, s, e, bound);
    let a = t3assume(fns, depth, s, e);
    if a.result is Ok {
        lemma_rendered(a.state.current.path);
    }
}

proof fn lemma_t3assume(
    fns: Map<u64, RThir>,
    rank: spec_fn(u64) -> nat,
    depth: nat,
    s: State,
    e: RExpr,
    bound: nat,
)
    requires
        ranked(fns, rank),
        calls_below(e, rank, bound),
        bound <= depth,
    ensures
        !cut(t3assume(fns, depth, s, e)),
    decreases depth, e, 0int,
{
    lemma_messages();
    match e.kind {
        RExprKind::Call { def, args } => {
            if args.len() > 0 {
                assert(calls_below(args[0], rank, bound));
                lemma_value_of(fns, rank, depth, s, args[0], bound);
            }
        },
        _ => {},
    }
}

proof fn lemma_params_declared(s: State, params: Seq<RParam>, i: int)
    ensures
        !cut(params_declared(s, params, i)),
    decreases params.len() - i,
{
    lemma_messages();
    if 0 <= i && i < params.len() {
        match params[i].pat {
            Some(pat) => match pat.kind {
                RExprKind::Pat { kind } => match kind {
                    RPatKind::Binding { name, ty, var } => {
                        lemma_params_declared(
                            declare_in(s, scoped_text(s.current.name, name@), ty, var, pat.span),
                            params,
                            i + 1,
                        );
                    },
                    RPatKind::Wild => {
                        lemma_params_declared(s, params, i + 1);
                    },
                    RPatKind::Other => {},
                },
                _ => {
                    lemma_params_declared(s, params, i + 1);
                },
            },
            None => {
                lemma_params_declared(s, params, i + 1);
            },
        }
    }
}

/// The depth is enough. Take a program whose functions can be ranked so
/// that every call in a function goes to a function of a lower rank, with the
/// rank of the entry function below the number of functions. Then its
/// analysis never ends at the limit of the depth.
pub proof fn law_depth_is_enough(fns: Map<u64, RThir>, rank: spec_fn(u64) -> nat, main_id: u64)
    requires
        ranked(fns, rank),
        fns.contains_key(main_id) ==> rank(main_id) < fns.len(),
    ensures
        !cut(analysis(fns, main_id)),
{
    if fns.contains_key(main_id) {
        let f = fns[main_id];
        lemma_params_declared(initial(), f.params@, 0);
        let p = params_declared(initial(), f.params@, 0);
        if p.result is Ok {
            match f.body {
                Some(body) => {
                    lemma_block(fns, rank, (fns.len() - 1) as nat, p.state, body, rank(main_id));
                },
                None => {},
            }
        }
    }
}

} // verus!
