//! Scopes are kept: what a step of the analysis leaves as it found it.
//!
//! A step may enter scopes, but a step that succeeds has left every scope
//! that it entered. It is then back in the scope in which it started, and that
//! scope's log has only grown. The scopes that were waiting, and the queries
//! that were issued, are never touched.
use vstd::prelude::*;
use crate::analyze::model::{
    Outcome, State, assign, assign_op, assigned, assume_in, block, call, conditional, declare_in,
    entered, entered_arm, extern_fn, left, let_statement, local_fn, loop_checked, merged_branch,
    merged_call, nested_name, params_bound, queried, statement, statements, t3assert, t3assume,
    value_assumed, value_of, value_of_block, value_of_call, value_of_if, value_of_local,
};
use crate::analyze::model::else_arm;
use crate::analyze::scope::{ArmView, adapted, adapted_ctxt, adapted_second, taken_over};
use crate::context::ContextView;
use crate::laws::lemma_merged_log_extends;
use crate::analyze::constraint::bin_op_text;
use crate::text::{equal_text, negated_text, scoped_text, segments};
use crate::tree::{RExpr, RExprKind, RParam, RPatKind, RThir, Span, Ty};

verus! {

/// What a step keeps of the state `s` that it starts from, whatever its
/// result: the waiting scopes stay below whatever it has put on the stack; the
/// queries issued stay, in order, before whatever it has issued; and where it
/// ends with as many scopes waiting as it started with, it ends in the scope
/// in which it started, whose log has only grown. A step that succeeds does
/// end with as many scopes waiting as it started with.
pub open spec fn kept<T>(s: State, o: Outcome<T>) -> bool {
    &&& s.stack.is_prefix_of(o.state.stack)
    &&& s.queries.is_prefix_of(o.state.queries)
    &&& o.result is Ok ==> o.state.stack.len() == s.stack.len()
    &&& o.state.stack.len() == s.stack.len() ==> o.state.current.name == s.current.name
        && s.current.path.is_prefix_of(o.state.current.path)
}

/// A state that was reached from `s` within the scope of `s`.
pub open spec fn level(s: State, t: State) -> bool {
    &&& t.stack == s.stack
    &&& s.queries.is_prefix_of(t.queries)
    &&& t.current.name == s.current.name
    &&& s.current.path.is_prefix_of(t.current.path)
}

proof fn lemma_prefix_trans<A>(a: Seq<A>, b: Seq<A>, c: Seq<A>)
    requires
        a.is_prefix_of(b),
        b.is_prefix_of(c),
    ensures
        a.is_prefix_of(c),
{
    assert forall|i: int| 0 <= i < a.len() implies a[i] == c.subrange(0, a.len() as int)[i] by {
        assert(a[i] == b.subrange(0, a.len() as int)[i]);
        assert(b[i] == c.subrange(0, b.len() as int)[i]);
    }
    assert(a =~= c.subrange(0, a.len() as int));
}

proof fn lemma_prefix_same_len<A>(a: Seq<A>, b: Seq<A>)
    requires
        a.is_prefix_of(b),
        a.len() == b.len(),
    ensures
        a == b,
{
    assert(b.subrange(0, a.len() as int) =~= b);
}

proof fn lemma_prefix_add<A>(a: Seq<A>, b: Seq<A>)
    ensures
        a.is_prefix_of(a + b),
        a.is_prefix_of(a),
{
    assert(a =~= (a + b).subrange(0, a.len() as int));
    assert(a =~= a.subrange(0, a.len() as int));
}

/// A state reached within the scope is kept by the step that ends in it.
proof fn lemma_level_kept<T>(s: State, t: State, r: Result<T, crate::error::AnalysisErrorView>)
    requires
        level(s, t),
    ensures
        kept(s, (Outcome { state: t, result: r })),
{
    lemma_prefix_add(s.stack, Seq::empty());
}

/// A step that is kept and ends with the scopes it started with ends within
/// the scope.
pub proof fn lemma_kept_level<T>(s: State, o: Outcome<T>)
    requires
        kept(s, o),
        o.state.stack.len() == s.stack.len(),
    ensures
        level(s, o.state),
{
    lemma_prefix_same_len(s.stack, o.state.stack);
}

/// Being within the scope goes on from state to state.
proof fn lemma_level_trans(s: State, t: State, u: State)
    requires
        level(s, t),
        level(t, u),
    ensures
        level(s, u),
{
    lemma_prefix_trans(s.queries, t.queries, u.queries);
    lemma_prefix_trans(s.current.path, t.current.path, u.current.path);
}

/// A step that starts within the scope keeps what the scope's start had.
proof fn lemma_kept_from_level<T>(s: State, t: State, o: Outcome<T>)
    requires
        level(s, t),
        kept(t, o),
    ensures
        kept(s, o),
{
    lemma_prefix_trans(s.queries, t.queries, o.state.queries);
    if o.state.stack.len() == s.stack.len() {
        lemma_prefix_trans(s.current.path, t.current.path, o.state.current.path);
    }
}

/// Every state is within its own scope.
pub proof fn lemma_refl(s: State)
    ensures
        level(s, s),
        s.stack.is_prefix_of(s.stack),
{
    lemma_prefix_add(s.queries, Seq::empty());
    lemma_prefix_add(s.current.path, Seq::empty());
    lemma_prefix_add(s.stack, Seq::empty());
}

/// Assuming stays within the scope.
pub proof fn lemma_assume_in(s: State, c: Seq<char>, span: Span)
    ensures
        level(s, assume_in(s, c, span)),
{
    lemma_refl(s);
    let t = assume_in(s, c, span);
    assert(s.current.path =~= t.current.path.subrange(0, s.current.path.len() as int));
}

/// Declaring stays within the scope.
proof fn lemma_declare_in(s: State, n: Seq<char>, ty: Ty, var: u64, span: Span)
    ensures
        level(s, declare_in(s, n, ty, var, span)),
{
    lemma_refl(s);
    let t = declare_in(s, n, ty, var, span);
    assert(s.current.path =~= t.current.path.subrange(0, s.current.path.len() as int));
}

/// Issuing a query keeps the scopes.
proof fn lemma_queried(s: State)
    ensures
        kept(s, queried(s)),
{
    lemma_refl(s);
    let q = queried(s);
    if q.result is Ok {
        assert(s.queries =~= q.state.queries.subrange(0, s.queries.len() as int));
    }
}

/// Rebinding the target of an assignment keeps the scopes.
proof fn lemma_assigned(s: State, lhs: RExpr)
    ensures
        kept(s, assigned(s, lhs)),
{
    lemma_refl(s);
    match lhs.kind {
        RExprKind::VarRef { id } => {
            match crate::context::lookup(s.current.vars, id) {
                Some(var) => {
                    lemma_declare_in(
                        s,
                        crate::analyze::model::reassigned_name(s.current.name, var.name),
                        var.ty,
                        id,
                        lhs.span,
                    );
                },
                None => {},
            }
        },
        _ => {},
    }
}

/// A step inside a scope that was entered from `s`: where it fails, the
/// failure keeps what `s` had; where it succeeds, leaving the scope gives back
/// the stack and the scope of `s`.
pub proof fn lemma_nested<T>(s: State, name: Seq<char>, span: Span, n: State, t: Outcome<T>)
    requires
        entered(s, name, span).result is Ok,
        level(entered(s, name, span).state, n),
        kept(n, t),
    ensures
        t.result is Err ==> kept(s, t),
        t.result is Ok ==> left(t.state).stack == s.stack && left(t.state).current == s.current
            && s.queries.is_prefix_of(left(t.state).queries),
{
    let e = entered(s, name, span).state;
    assert(e.stack == s.stack.push(s.current));
    assert(s.stack =~= e.stack.subrange(0, s.stack.len() as int));
    lemma_prefix_trans(s.stack, n.stack, t.state.stack);
    lemma_prefix_trans(s.queries, n.queries, t.state.queries);
    if t.result is Ok {
        lemma_prefix_same_len(n.stack, t.state.stack);
        assert(t.state.stack.drop_last() =~= s.stack);
    }
}

/// Taking the scope of a call over stays within the scope.
proof fn lemma_merged_call(back: State, s: State, callee: ContextView)
    requires
        back.stack == s.stack,
        back.current == s.current,
        s.queries.is_prefix_of(back.queries),
    ensures
        level(s, merged_call(back, callee)),
{
    let m = merged_call(back, callee);
    let arm = ArmView { guard: None, ctxt: callee };
    let base = taken_over(back.current, arm, None);
    lemma_prefix_add(s.current.path, adapted(None, callee.path) + Seq::empty());
    assert(base =~= s.current.path + (adapted(None, callee.path) + Seq::empty()));
    lemma_merged_log_extends(base, back.current.vars, arm, None);
    lemma_prefix_trans(s.current.path, base, m.current.path);
}

/// Taking the scopes of a branch over stays within the scope.
proof fn lemma_merged_branch(
    back: State,
    s: State,
    cond: Seq<char>,
    a: ContextView,
    b: Option<ContextView>,
)
    requires
        back.stack == s.stack,
        back.current == s.current,
        s.queries.is_prefix_of(back.queries),
    ensures
        level(s, merged_branch(back, cond, a, b)),
{
    let m = merged_branch(back, cond, a, b);
    let first = ArmView { guard: Some(cond), ctxt: adapted_ctxt(cond, a) };
    let second = else_arm(cond, b);
    let base = taken_over(back.current, first, second);
    let more = adapted(None, first.ctxt.path) + adapted_second(second);
    lemma_prefix_add(s.current.path, more);
    assert(base =~= s.current.path + more);
    lemma_merged_log_extends(base, back.current.vars, first, second);
    lemma_prefix_trans(s.current.path, base, m.current.path);
}

// The lemmas from here on say, each of one step of the analysis, that the
// step keeps the scopes of the state that it starts from.

pub proof fn lemma_value_of(fns: Map<u64, RThir>, depth: nat, s: State, e: RExpr)
    ensures
        kept(s, value_of(fns, depth, s, e)),
    decreases depth, e, 8int,
{
    lemma_refl(s);
    match e.kind {
        RExprKind::LogicalOp { op, lhs, rhs } => {
            lemma_value_of(fns, depth, s, *lhs);
            let l = value_of(fns, depth, s, *lhs);
            if l.result is Ok {
                lemma_kept_level(s, l);
                lemma_value_of(fns, depth, l.state, *rhs);
                let r = value_of(fns, depth, l.state, *rhs);
                lemma_kept_from_level(s, l.state, r);
                if r.result is Ok {
                    lemma_kept_level(s, r);
                    lemma_level_kept(s, r.state, value_of(fns, depth, s, e).result);
                }
            }
        },
        RExprKind::Unary { op, arg } => {
            lemma_value_of(fns, depth, s, *arg);
            let a = value_of(fns, depth, s, *arg);
            if a.result is Ok {
                lemma_kept_level(s, a);
                lemma_level_kept(s, a.state, value_of(fns, depth, s, e).result);
            }
        },
        RExprKind::Binary { op, lhs, rhs } => {
            lemma_value_of(fns, depth, s, *lhs);
            let l = value_of(fns, depth, s, *lhs);
            if l.result is Ok {
                lemma_kept_level(s, l);
                lemma_value_of(fns, depth, l.state, *rhs);
                let r = value_of(fns, depth, l.state, *rhs);
                lemma_kept_from_level(s, l.state, r);
                if r.result is Ok {
                    lemma_kept_level(s, r);
                    lemma_level_kept(s, r.state, value_of(fns, depth, s, e).result);
                }
            }
        },
        RExprKind::Call { def, args } => {
            lemma_value_of_call(fns, depth, s, e);
        },
        RExprKind::If { cond, then, else_opt } => {
            lemma_value_of_if(fns, depth, s, e);
        },
        _ => {},
    }
}

proof fn lemma_value_of_call(fns: Map<u64, RThir>, depth: nat, s: State, e: RExpr)
    ensures
        kept(s, value_of_call(fns, depth, s, e)),
    decreases depth, e, 3int,
{
    lemma_refl(s);
    match e.kind {
        RExprKind::Call { def, args } => {
            let info = segments(def.path@);
            match def.local {
                Some(id) => {
                    if fns.contains_key(id) && info.len() > 0 {
                        let name = nested_name(info.last(), s.current.name);
                        let n = entered(s, name, e.span);
                        if n.result is Ok {
                            lemma_refl(n.state);
                            lemma_value_of_local(fns, depth, n.state, fns[id], args@);
                            let v = value_of_local(fns, depth, n.state, fns[id], args@);
                            lemma_nested(s, name, e.span, n.state, v);
                            if v.result is Ok {
                                lemma_merged_call(left(v.state), s, v.state.current);
                                lemma_level_kept(
                                    s,
                                    merged_call(left(v.state), v.state.current),
                                    v.result,
                                );
                            }
                        }
                    }
                },
                None => {},
            }
        },
        _ => {},
    }
}

pub proof fn lemma_value_of_local(fns: Map<u64, RThir>, depth: nat, s: State, f: RThir, args: Seq<RExpr>)
    ensures
        kept(s, value_of_local(fns, depth, s, f, args)),
    decreases depth, args, args.len() + 1,
{
    lemma_refl(s);
    if depth > 0 {
        lemma_params_bound(fns, depth, s, f.params@, args, 0);
        let p = params_bound(fns, depth, s, f.params@, args, 0);
        if p.result is Ok {
            lemma_kept_level(s, p);
            match f.body {
                Some(body) => {
                    lemma_value_of_block(fns, (depth - 1) as nat, p.state, body);
                    lemma_kept_from_level(
                        s,
                        p.state,
                        value_of_block(fns, (depth - 1) as nat, p.state, body),
                    );
                },
                None => {
                    lemma_level_kept::<Seq<char>>(
                        s,
                        p.state,
                        Err(crate::error::unsupported_view("Body not found"@)),
                    );
                },
            }
        }
    }
}

proof fn lemma_value_of_if(fns: Map<u64, RThir>, depth: nat, s: State, e: RExpr)
    ensures
        kept(s, value_of_if(fns, depth, s, e)),
    decreases depth, e, 0int,
{
    lemma_refl(s);
    match e.kind {
        RExprKind::If { cond, then, else_opt } => {
            lemma_value_of(fns, depth, s, *cond);
            let c = value_of(fns, depth, s, *cond);
            if c.result is Ok {
                lemma_kept_level(s, c);
                let guard = c.result->Ok_0;
                let then_name = nested_name("then"@, c.state.current.name);
                let n = entered_arm(c.state, "then"@, guard, then.span, cond.span);
                if n.result is Ok {
                    lemma_assume_in(
                        entered(c.state, then_name, then.span).state,
                        guard,
                        cond.span,
                    );
                    lemma_value_of_block(fns, depth, n.state, *then);
                    let t = value_of_block(fns, depth, n.state, *then);
                    lemma_nested(c.state, then_name, then.span, n.state, t);
                    if t.result is Ok {
                        let back = left(t.state);
                        assert(level(c.state, back));
                        lemma_level_trans(s, c.state, back);
                        match else_opt {
                            None => {
                                lemma_level_kept::<Seq<char>>(
                                    s,
                                    back,
                                    Err(
                                        crate::error::unsupported_view(
                                            "Else block of if initializer not found"@,
                                        ),
                                    ),
                                );
                            },
                            Some(els) => {
                                let else_name = nested_name("else"@, back.current.name);
                                let m = entered_arm(
                                    back,
                                    "else"@,
                                    negated_text(guard),
                                    els.span,
                                    cond.span,
                                );
                                if m.result is Ok {
                                    lemma_assume_in(
                                        entered(back, else_name, els.span).state,
                                        negated_text(guard),
                                        cond.span,
                                    );
                                    lemma_value_of_block(fns, depth, m.state, *els);
                                    let f = value_of_block(fns, depth, m.state, *els);
                                    lemma_nested(back, else_name, els.span, m.state, f);
                                    if f.result is Ok {
                                        lemma_merged_branch(
                                            left(f.state),
                                            back,
                                            guard,
                                            t.state.current,
                                            Some(f.state.current),
                                        );
                                        let merged = merged_branch(
                                            left(f.state),
                                            guard,
                                            t.state.current,
                                            Some(f.state.current),
                                        );
                                        lemma_level_trans(s, back, merged);
                                        lemma_level_kept(
                                            s,
                                            merged,
                                            value_of_if(fns, depth, s, e).result,
                                        );
                                    } else {
                                        lemma_kept_from_level(s, back, f);
                                    }
                                } else {
                                    lemma_level_kept(s, back, m.result);
                                }
                            },
                        }
                    } else {
                        lemma_kept_from_level(s, c.state, t);
                    }
                } else {
                    lemma_level_kept(s, c.state, n.result);
                }
            }
        },
        _ => {},
    }
}

pub proof fn lemma_value_of_block(fns: Map<u64, RThir>, depth: nat, s: State, body: RExpr)
    ensures
        kept(s, value_of_block(fns, depth, s, body)),
    decreases depth, body, 0int,
{
    lemma_refl(s);
    match body.kind {
        RExprKind::Block { stmts, expr } => {
            lemma_statements(fns, depth, s, stmts@, 0);
            let o = statements(fns, depth, s, stmts@, 0);
            if o.result is Ok {
                lemma_kept_level(s, o);
                lemma_level_kept(s, o.state, value_of_block(fns, depth, s, body).result);
                if !(o.result->Ok_0 is Return) {
                    match expr {
                        Some(last) => {
                            lemma_value_of(fns, depth, o.state, *last);
                            lemma_kept_from_level(s, o.state, value_of(fns, depth, o.state, *last));
                        },
                        None => {},
                    }
                }
            }
        },
        _ => {},
    }
}

proof fn lemma_statements(fns: Map<u64, RThir>, depth: nat, s: State, stmts: Seq<RExpr>, i: int)
    ensures
        kept(s, statements(fns, depth, s, stmts, i)),
    decreases depth, stmts, stmts.len() - i,
{
    lemma_refl(s);
    if 0 <= i < stmts.len() {
        lemma_statement(fns, depth, s, stmts[i]);
        let o = statement(fns, depth, s, stmts[i]);
        if o.result is Ok {
            lemma_kept_level(s, o);
            if o.result->Ok_0 is Return {
            } else if o.result->Ok_0 is Invariant {
                if i + 1 < stmts.len() {
                    lemma_loop_checked(fns, depth, o.state, stmts, i);
                    let l = loop_checked(fns, depth, o.state, stmts, i);
                    lemma_kept_from_level(s, o.state, l);
                    if l.result is Ok {
                        lemma_kept_level(s, l);
                        lemma_statements(fns, depth, l.state, stmts, i + 2);
                        lemma_kept_from_level(
                            s,
                            l.state,
                            statements(fns, depth, l.state, stmts, i + 2),
                        );
                    }
                } else {
                    lemma_level_kept(s, o.state, statements(fns, depth, s, stmts, i).result);
                }
            } else {
                lemma_statements(fns, depth, o.state, stmts, i + 1);
                lemma_kept_from_level(s, o.state, statements(fns, depth, o.state, stmts, i + 1));
            }
        }
    }
}

proof fn lemma_loop_checked(fns: Map<u64, RThir>, depth: nat, s: State, stmts: Seq<RExpr>, i: int)
    ensures
        kept(s, loop_checked(fns, depth, s, stmts, i)),
    decreases depth, stmts, 0int,
{
    lemma_refl(s);
    if 0 <= i && i + 1 < stmts.len() {
        match (stmts[i].kind, stmts[i + 1].kind) {
            (RExprKind::Call { def, args }, RExprKind::Loop { body }) => {
                if args.len() > 0 {
                    lemma_value_of(fns, depth, s, args[0]);
                    let before = value_of(fns, depth, s, args[0]);
                    if before.result is Ok {
                        lemma_kept_level(s, before);
                        lemma_assume_in(before.state, before.result->Ok_0, args[0].span);
                        let s1 = assume_in(before.state, before.result->Ok_0, args[0].span);
                        lemma_level_trans(s, before.state, s1);
                        lemma_block(fns, depth, s1, *body);
                        let b = block(fns, depth, s1, *body);
                        lemma_kept_from_level(s, s1, b);
                        if b.result is Ok {
                            lemma_kept_level(s, b);
                            lemma_value_of(fns, depth, b.state, args[0]);
                            let after = value_of(fns, depth, b.state, args[0]);
                            lemma_kept_from_level(s, b.state, after);
                            if after.result is Ok {
                                lemma_kept_level(s, after);
                                lemma_assume_in(after.state, after.result->Ok_0, args[0].span);
                                let s2 = assume_in(after.state, after.result->Ok_0, args[0].span);
                                lemma_level_trans(s, after.state, s2);
                                lemma_queried(s2);
                                lemma_kept_from_level(s, s2, queried(s2));
                            }
                        }
                    }
                }
            },
            _ => {},
        }
    }
}

proof fn lemma_block(fns: Map<u64, RThir>, depth: nat, s: State, body: RExpr)
    ensures
        kept(s, block(fns, depth, s, body)),
    decreases depth, body, 0int,
{
    lemma_refl(s);
    match body.kind {
        RExprKind::Block { stmts, expr } => {
            lemma_statements(fns, depth, s, stmts@, 0);
            let o = statements(fns, depth, s, stmts@, 0);
            if o.result is Ok {
                lemma_kept_level(s, o);
                if !(o.result->Ok_0 is Return) {
                    match expr {
                        Some(last) => {
                            lemma_statement(fns, depth, o.state, *last);
                            let t = statement(fns, depth, o.state, *last);
                            lemma_kept_from_level(s, o.state, t);
                            if t.result is Ok {
                                lemma_kept_level(s, t);
                                lemma_level_kept(s, t.state, block(fns, depth, s, body).result);
                            }
                        },
                        None => {},
                    }
                }
            }
        },
        _ => {},
    }
}

pub proof fn lemma_statement(fns: Map<u64, RThir>, depth: nat, s: State, e: RExpr)
    ensures
        kept(s, statement(fns, depth, s, e)),
    decreases depth, e, 10int,
{
    lemma_refl(s);
    match e.kind {
        RExprKind::Literal { lit, neg } => {
            lemma_value_assumed(fns, depth, s, e);
        },
        RExprKind::VarRef { id } => {
            lemma_value_assumed(fns, depth, s, e);
        },
        RExprKind::Binary { op, lhs, rhs } => {
            lemma_value_assumed(fns, depth, s, e);
        },
        RExprKind::Call { def, args } => {
            lemma_call(fns, depth, s, e);
        },
        RExprKind::LetStmt { pattern, initializer, else_block } => {
            lemma_let_statement(fns, depth, s, e);
        },
        RExprKind::Return { value } => {
            match value {
                Some(v) => {
                    lemma_value_of(fns, depth, s, *v);
                },
                None => {},
            }
        },
        RExprKind::AssignOp { op, lhs, rhs } => {
            lemma_assign_op(fns, depth, s, e);
        },
        RExprKind::Pat { kind } => {
            match kind {
                RPatKind::Binding { name, ty, var } => {
                    lemma_declare_in(s, name@, ty, var, e.span);
                    lemma_level_kept(
                        s,
                        declare_in(s, name@, ty, var, e.span),
                        statement(fns, depth, s, e).result,
                    );
                },
                _ => {},
            }
        },
        RExprKind::Assign { lhs, rhs } => {
            lemma_assign(fns, depth, s, e);
        },
        RExprKind::If { cond, then, else_opt } => {
            lemma_conditional(fns, depth, s, e);
        },
        _ => {},
    }
}

proof fn lemma_value_assumed(fns: Map<u64, RThir>, depth: nat, s: State, e: RExpr)
    ensures
        kept(s, value_assumed(fns, depth, s, e)),
    decreases depth, e, 9int,
{
    lemma_value_of(fns, depth, s, e);
    let o = value_of(fns, depth, s, e);
    if o.result is Ok {
        lemma_kept_level(s, o);
        lemma_assume_in(o.state, o.result->Ok_0, e.span);
        let t = assume_in(o.state, o.result->Ok_0, e.span);
        lemma_level_trans(s, o.state, t);
        lemma_level_kept(s, t, value_assumed(fns, depth, s, e).result);
    }
}

proof fn lemma_let_statement(fns: Map<u64, RThir>, depth: nat, s: State, e: RExpr)
    ensures
        kept(s, let_statement(fns, depth, s, e)),
    decreases depth, e, 0int,
{
    lemma_refl(s);
    match e.kind {
        RExprKind::LetStmt { pattern, initializer, else_block } => match pattern.kind {
            RExprKind::Pat { kind: RPatKind::Binding { name, ty, var } } => {
                let symbol = scoped_text(s.current.name, name@);
                let declared = declare_in(s, symbol, ty, var, pattern.span);
                lemma_declare_in(s, symbol, ty, var, pattern.span);
                match initializer {
                    Some(init) => {
                        lemma_value_of(fns, depth, declared, *init);
                        let o = value_of(fns, depth, declared, *init);
                        lemma_kept_from_level(s, declared, o);
                        if o.state.stack.len() == s.stack.len() {
                            lemma_kept_level(s, o);
                            if o.result is Ok {
                                let t = assume_in(
                                    o.state,
                                    equal_text(symbol, o.result->Ok_0),
                                    init.span,
                                );
                                lemma_assume_in(
                                    o.state,
                                    equal_text(symbol, o.result->Ok_0),
                                    init.span,
                                );
                                lemma_level_trans(s, o.state, t);
                                lemma_level_kept(s, t, let_statement(fns, depth, s, e).result);
                            } else {
                                lemma_level_kept(
                                    s,
                                    o.state,
                                    let_statement(fns, depth, s, e).result,
                                );
                            }
                        }
                    },
                    None => {
                        lemma_level_kept(s, declared, let_statement(fns, depth, s, e).result);
                    },
                }
            },
            _ => {},
        },
        _ => {},
    }
}

proof fn lemma_assign(fns: Map<u64, RThir>, depth: nat, s: State, e: RExpr)
    ensures
        kept(s, assign(fns, depth, s, e)),
    decreases depth, e, 0int,
{
    lemma_refl(s);
    match e.kind {
        RExprKind::Assign { lhs, rhs } => {
            lemma_value_of(fns, depth, s, *rhs);
            let r = value_of(fns, depth, s, *rhs);
            if r.result is Ok {
                lemma_kept_level(s, r);
                let a = assigned(r.state, *lhs);
                lemma_assigned(r.state, *lhs);
                lemma_kept_from_level(s, r.state, a);
                if a.result is Ok {
                    lemma_kept_level(s, a);
                    let c = equal_text(a.result->Ok_0.0, r.result->Ok_0);
                    lemma_assume_in(a.state, c, e.span);
                    lemma_level_trans(s, a.state, assume_in(a.state, c, e.span));
                    lemma_level_kept(
                        s,
                        assume_in(a.state, c, e.span),
                        assign(fns, depth, s, e).result,
                    );
                }
            }
        },
        _ => {},
    }
}

proof fn lemma_assign_op(fns: Map<u64, RThir>, depth: nat, s: State, e: RExpr)
    ensures
        kept(s, assign_op(fns, depth, s, e)),
    decreases depth, e, 0int,
{
    lemma_refl(s);
    match e.kind {
        RExprKind::AssignOp { op, lhs, rhs } => {
            lemma_value_of(fns, depth, s, *rhs);
            let r = value_of(fns, depth, s, *rhs);
            if r.result is Ok {
                lemma_kept_level(s, r);
                let a = assigned(r.state, *lhs);
                lemma_assigned(r.state, *lhs);
                lemma_kept_from_level(s, r.state, a);
                if a.result is Ok {
                    lemma_kept_level(s, a);
                    match bin_op_text(op, a.result->Ok_0.1, r.result->Ok_0) {
                        Ok(value) => {
                            let c = equal_text(a.result->Ok_0.0, value);
                            lemma_assume_in(a.state, c, e.span);
                            lemma_level_trans(s, a.state, assume_in(a.state, c, e.span));
                            lemma_level_kept(
                                s,
                                assume_in(a.state, c, e.span),
                                assign_op(fns, depth, s, e).result,
                            );
                        },
                        Err(error) => {
                            lemma_level_kept(s, a.state, assign_op(fns, depth, s, e).result);
                        },
                    }
                }
            }
        },
        _ => {},
    }
}

proof fn lemma_conditional(fns: Map<u64, RThir>, depth: nat, s: State, e: RExpr)
    ensures
        kept(s, conditional(fns, depth, s, e)),
    decreases depth, e, 0int,
{
    lemma_refl(s);
    match e.kind {
        RExprKind::If { cond, then, else_opt } => {
            lemma_value_of(fns, depth, s, *cond);
            let c = value_of(fns, depth, s, *cond);
            if c.result is Ok {
                lemma_kept_level(s, c);
                let guard = c.result->Ok_0;
                let then_name = nested_name("then"@, c.state.current.name);
                let n = entered_arm(c.state, "then"@, guard, then.span, cond.span);
                if n.result is Ok {
                    lemma_assume_in(
                        entered(c.state, then_name, then.span).state,
                        guard,
                        cond.span,
                    );
                    lemma_block(fns, depth, n.state, *then);
                    let t = block(fns, depth, n.state, *then);
                    lemma_nested(c.state, then_name, then.span, n.state, t);
                    if t.result is Ok {
                        let back = left(t.state);
                        assert(level(c.state, back));
                        lemma_level_trans(s, c.state, back);
                        match else_opt {
                            None => {
                                lemma_merged_branch(back, back, guard, t.state.current, None);
                                let merged = merged_branch(back, guard, t.state.current, None);
                                lemma_level_trans(s, back, merged);
                                lemma_level_kept(s, merged, conditional(fns, depth, s, e).result);
                            },
                            Some(els) => {
                                let else_name = nested_name("else"@, back.current.name);
                                let m = entered_arm(
                                    back,
                                    "else"@,
                                    negated_text(guard),
                                    els.span,
                                    cond.span,
                                );
                                if m.result is Ok {
                                    lemma_assume_in(
                                        entered(back, else_name, els.span).state,
                                        negated_text(guard),
                                        cond.span,
                                    );
                                    lemma_block(fns, depth, m.state, *els);
                                    let f = block(fns, depth, m.state, *els);
                                    lemma_nested(back, else_name, els.span, m.state, f);
                                    if f.result is Ok {
                                        lemma_merged_branch(
                                            left(f.state),
                                            back,
                                            guard,
                                            t.state.current,
                                            Some(f.state.current),
                                        );
                                        let merged = merged_branch(
                                            left(f.state),
                                            guard,
                                            t.state.current,
                                            Some(f.state.current),
                                        );
                                        lemma_level_trans(s, back, merged);
                                        lemma_level_kept(
                                            s,
                                            merged,
                                            conditional(fns, depth, s, e).result,
                                        );
                                    } else {
                                        lemma_kept_from_level(s, back, f);
                                    }
                                } else {
                                    lemma_level_kept(s, back, m.result);
                                }
                            },
                        }
                    } else {
                        lemma_kept_from_level(s, c.state, t);
                    }
                } else {
                    lemma_level_kept(s, c.state, n.result);
                }
            }
        },
        _ => {},
    }
}

proof fn lemma_call(fns: Map<u64, RThir>, depth: nat, s: State, e: RExpr)
    ensures
        kept(s, call(fns, depth, s, e)),
    decreases depth, e, 3int,
{
    lemma_refl(s);
    match e.kind {
        RExprKind::Call { def, args } => {
            let info = segments(def.path@);
            match def.local {
                Some(id) => {
                    if fns.contains_key(id) && info.len() > 0 {
                        let name = nested_name(info.last(), s.current.name);
                        let n = entered(s, name, e.span);
                        if n.result is Ok {
                            lemma_refl(n.state);
                            lemma_local_fn(fns, depth, n.state, fns[id], args@);
                            let o = local_fn(fns, depth, n.state, fns[id], args@);
                            lemma_nested(s, name, e.span, n.state, o);
                            if o.result is Ok {
                                lemma_merged_call(left(o.state), s, o.state.current);
                                lemma_level_kept(
                                    s,
                                    merged_call(left(o.state), o.state.current),
                                    call(fns, depth, s, e).result,
                                );
                            }
                        }
                    }
                },
                None => {
                    lemma_extern_fn(fns, depth, s, e);
                },
            }
        },
        _ => {},
    }
}

proof fn lemma_local_fn(fns: Map<u64, RThir>, depth: nat, s: State, f: RThir, args: Seq<RExpr>)
    ensures
        kept(s, local_fn(fns, depth, s, f, args)),
    decreases depth, args, args.len() + 1,
{
    lemma_refl(s);
    if depth > 0 {
        lemma_params_bound(fns, depth, s, f.params@, args, 0);
        let p = params_bound(fns, depth, s, f.params@, args, 0);
        if p.result is Ok {
            lemma_kept_level(s, p);
            match f.body {
                Some(body) => {
                    lemma_block(fns, (depth - 1) as nat, p.state, body);
                    lemma_kept_from_level(s, p.state, block(fns, (depth - 1) as nat, p.state, body));
                },
                None => {},
            }
        }
    }
}

proof fn lemma_params_bound(
    fns: Map<u64, RThir>,
    depth: nat,
    s: State,
    params: Seq<RParam>,
    args: Seq<RExpr>,
    i: int,
)
    ensures
        kept(s, params_bound(fns, depth, s, params, args, i)),
    decreases depth, args, args.len() - i,
{
    lemma_refl(s);
    if 0 <= i && i < params.len() && i < args.len() {
        match params[i].pat {
            Some(pat) => match pat.kind {
                RExprKind::Pat { kind } => match kind {
                    RPatKind::Binding { name, ty, var } => {
                        let symbol = scoped_text(s.current.name, name@);
                        let declared = declare_in(s, symbol, ty, var, pat.span);
                        lemma_declare_in(s, symbol, ty, var, pat.span);
                        lemma_value_of(fns, depth, declared, args[i]);
                        let o = value_of(fns, depth, declared, args[i]);
                        lemma_kept_from_level(s, declared, o);
                        if o.result is Ok {
                            lemma_kept_level(s, o);
                            lemma_assume_in(
                                o.state,
                                equal_text(symbol, o.result->Ok_0),
                                args[i].span,
                            );
                            let t = assume_in(
                                o.state,
                                equal_text(symbol, o.result->Ok_0),
                                args[i].span,
                            );
                            lemma_level_trans(s, o.state, t);
                            lemma_params_bound(fns, depth, t, params, args, i + 1);
                            lemma_kept_from_level(
                                s,
                                t,
                                params_bound(fns, depth, t, params, args, i + 1),
                            );
                        }
                    },
                    RPatKind::Wild => {
                        lemma_params_bound(fns, depth, s, params, args, i + 1);
                    },
                    RPatKind::Other => {},
                },
                _ => {
                    lemma_params_bound(fns, depth, s, params, args, i + 1);
                },
            },
            None => {
                lemma_params_bound(fns, depth, s, params, args, i + 1);
            },
        }
    }
}

proof fn lemma_extern_fn(fns: Map<u64, RThir>, depth: nat, s: State, e: RExpr)
    ensures
        kept(s, extern_fn(fns, depth, s, e)),
    decreases depth, e, 2int,
{
    lemma_refl(s);
    lemma_t3assert(fns, depth, s, e);
    lemma_t3assume(fns, depth, s, e);
}

proof fn lemma_t3assert(fns: Map<u64, RThir>, depth: nat, s: State, e: RExpr)
    ensures
        kept(s, t3assert(fns, depth, s, e)),
    decreases depth, e, 1int,
{
    lemma_t3assume(fns, depth, s, e);
    let a = t3assume(fns, depth, s, e);
    if a.result is Ok {
        lemma_kept_level(s, a);
        lemma_queried(a.state);
        lemma_kept_from_level(s, a.state, queried(a.state));
    }
}

proof fn lemma_t3assume(fns: Map<u64, RThir>, depth: nat, s: State, e: RExpr)
    ensures
        kept(s, t3assume(fns, depth, s, e)),
    decreases depth, e, 0int,
{
    lemma_refl(s);
    match e.kind {
        RExprKind::Call { def, args } => {
            if args.len() > 0 {
                lemma_value_of(fns, depth, s, args[0]);
                let o = value_of(fns, depth, s, args[0]);
                if o.result is Ok {
                    lemma_kept_level(s, o);
                    lemma_assume_in(o.state, o.result->Ok_0, args[0].span);
                    let t = assume_in(o.state, o.result->Ok_0, args[0].span);
                    lemma_level_trans(s, o.state, t);
                    lemma_level_kept(s, t, t3assume(fns, depth, s, e).result);
                }
            }
        },
        _ => {},
    }
}

/// Scopes are kept. Whatever statement or expression is analysed, in
/// whatever state: the scopes that were waiting are still waiting, in order,
/// and the queries that were issued are still there, in order; and where the
/// analysis of it succeeds, the analyser is back in the scope in which it
/// started, with the same scopes waiting, and the log of that scope has only
/// grown.
pub proof fn law_scopes_are_kept(fns: Map<u64, RThir>, depth: nat, s: State, e: RExpr)
    ensures
        kept(s, statement(fns, depth, s, e)),
        kept(s, value_of(fns, depth, s, e)),
        kept(s, block(fns, depth, s, e)),
{
    lemma_statement(fns, depth, s, e);
    lemma_value_of(fns, depth, s, e);
    lemma_block(fns, depth, s, e);
}

} // verus!
