//! Assignments never reuse a name.
//!
//! The right-hand side of an assignment may itself run branches and calls,
//! and their merges may rename the variable that is assigned to. This module
//! shows that names only grow on the way, so that every assignment of a run
//! declares a name that no earlier one of the run declared.
use vstd::prelude::*;
use crate::analyze::constraint::bin_op_text;
use crate::analyze::model::{
    State, assigned, assume_in, else_arm, entered, entered_arm, left, merged_branch, merged_call,
    name_of, nested_name, reassigned_name, statement, value_of, value_of_block, value_of_call,
    value_of_if, value_of_local,
};
use crate::analyze::scope::{
    ArmView, absorbed, adapted_ctxt, merged_log, phi_name, phi_vars, renamed_in,
    renamed_in_second, taken_over,
};
use crate::context::{ContextView, VarView, lookup};
use crate::laws::scopes::{
    kept, lemma_assume_in, lemma_kept_level, lemma_nested, lemma_refl, lemma_statement,
    lemma_value_of, lemma_value_of_block, lemma_value_of_local, level,
};
use crate::laws::{lemma_fresh_name, lemma_lookup_inserted, lemma_reassigned_name_is_longer};
use crate::lir::{LirKindView, declaration};
use crate::text::{equal_text, marked_text, negated_text, segments};
use crate::tree::{RExpr, RExprKind, RThir, Span};

verus! {

/// Whether a map has grown out of another: the same variables in the same
/// places, of the same types, and no name shorter than it was.
pub open spec fn grown(before: Seq<VarView>, after: Seq<VarView>) -> bool {
    &&& after.len() == before.len()
    &&& forall|k: int|
        0 <= k < before.len() ==> (#[trigger] after[k]).id == before[k].id && after[k].ty
            == before[k].ty && after[k].name.len() >= before[k].name.len()
}

/// A merge lets the map of the parent grow.
pub proof fn lemma_absorbed_grown(parent: ContextView, first: ArmView, second: Option<ArmView>)
    ensures
        grown(parent.vars, absorbed(parent, first, second).vars),
{
    let base = taken_over(parent, first, second);
    let after = phi_vars(base, parent.vars, first, second);
    assert forall|k: int| 0 <= k < parent.vars.len() implies (#[trigger] after[k]).id
        == parent.vars[k].id && after[k].ty == parent.vars[k].ty && after[k].name.len()
        >= parent.vars[k].name.len() by {
        let var = parent.vars[k];
        lemma_fresh_name(
            marked_text(var.name),
            merged_log(base, parent.vars.take(k), first, second),
            renamed_in(first, var),
            renamed_in_second(second, var),
        );
    }
}

/// What a grown map binds a variable to is no shorter than what the map
/// bound it to before; and it binds the variables that the map bound.
pub proof fn lemma_lookup_grown(before: Seq<VarView>, after: Seq<VarView>, id: u64)
    requires
        grown(before, after),
    ensures
        lookup(before, id) is Some <==> lookup(after, id) is Some,
        lookup(before, id) is Some ==> lookup(after, id)->0.name.len() >= lookup(
            before,
            id,
        )->0.name.len() && lookup(after, id)->0.ty == lookup(before, id)->0.ty,
    decreases before.len(),
{
    if before.len() > 0 {
        assert(after.first() == after[0] && before.first() == before[0]);
        if before.first().id != id {
            let b = before.drop_first();
            let a = after.drop_first();
            assert forall|k: int| 0 <= k < b.len() implies (#[trigger] a[k]).id == b[k].id
                && a[k].ty == b[k].ty && a[k].name.len() >= b[k].name.len() by {
                assert(a[k] == after[k + 1] && b[k] == before[k + 1]);
            }
            lemma_lookup_grown(b, a, id);
        }
    }
}

/// Growing goes on from map to map.
pub proof fn lemma_grown_trans(a: Seq<VarView>, b: Seq<VarView>, c: Seq<VarView>)
    requires
        grown(a, b),
        grown(b, c),
    ensures
        grown(a, c),
{
    assert forall|k: int| 0 <= k < a.len() implies (#[trigger] c[k]).id == a[k].id && c[k].ty
        == a[k].ty && c[k].name.len() >= a[k].name.len() by {
        assert(b[k].id == a[k].id);
    }
}

/// Every map has grown out of itself.
pub proof fn lemma_grown_refl(a: Seq<VarView>)
    ensures
        grown(a, a),
{
}

/// The value of a call lets the map of the caller grow.
proof fn lemma_call_grows(fns: Map<u64, RThir>, depth: nat, s: State, e: RExpr)
    ensures
        value_of_call(fns, depth, s, e).result is Ok ==> grown(
            s.current.vars,
            value_of_call(fns, depth, s, e).state.current.vars,
        ),
{
    match e.kind {
        RExprKind::Call { def, args } => {
            let info = segments(def.path@);
            match def.local {
                Some(id) => {
                    if fns.contains_key(id) && info.len() > 0 {
                        let name = nested_name(info.last(), s.current.name);
                        let n = entered(s, name, e.span);
                        if n.result is Ok {
                            lemma_refl(n.state);
                            lemma_value_of_local(fns, depth, n.state, fns[id], args@);
                            let v = value_of_local(fns, depth, n.state, fns[id], args@);
                            lemma_nested(s, name, e.span, n.state, v);
                            if v.result is Ok {
                                lemma_absorbed_grown(
                                    s.current,
                                    (ArmView { guard: None, ctxt: v.state.current }),
                                    None,
                                );
                            }
                        }
                    }
                },
                None => {},
            }
        },
        _ => {},
    }
}

/// The state in which the `then` arm of a conditional has been left, where
/// it could be entered and its value was found.
proof fn lemma_then_left(
    fns: Map<u64, RThir>,
    depth: nat,
    c: State,
    guard: Seq<char>,
    then: RExpr,
    cond_span: Span,
)
    ensures
        ({
            let n = entered_arm(c, "then"@, guard, then.span, cond_span);
            let t = value_of_block(fns, depth, n.state, then);
            n.result is Ok && t.result is Ok ==> left(t.state).current == c.current
        }),
{
    let name = nested_name("then"@, c.current.name);
    let n = entered_arm(c, "then"@, guard, then.span, cond_span);
    if n.result is Ok {
        lemma_assume_in(entered(c, name, then.span).state, guard, cond_span);
        lemma_value_of_block(fns, depth, n.state, then);
        lemma_nested(c, name, then.span, n.state, value_of_block(fns, depth, n.state, then));
    }
}

/// The same of the `else` arm.
proof fn lemma_else_left(
    fns: Map<u64, RThir>,
    depth: nat,
    back: State,
    guard: Seq<char>,
    els: RExpr,
    cond_span: Span,
)
    ensures
        ({
            let m = entered_arm(back, "else"@, negated_text(guard), els.span, cond_span);
            let f = value_of_block(fns, depth, m.state, els);
            m.result is Ok && f.result is Ok ==> left(f.state).current == back.current
        }),
{
    let name = nested_name("else"@, back.current.name);
    let m = entered_arm(back, "else"@, negated_text(guard), els.span, cond_span);
    if m.result is Ok {
        lemma_assume_in(entered(back, name, els.span).state, negated_text(guard), cond_span);
        lemma_value_of_block(fns, depth, m.state, els);
        lemma_nested(back, name, els.span, m.state, value_of_block(fns, depth, m.state, els));
    }
}

/// The value of a conditional lets the map grow from where the condition
/// left it.
proof fn lemma_if_grows(fns: Map<u64, RThir>, depth: nat, s: State, e: RExpr)
    requires
        e.kind is If,
        value_of_if(fns, depth, s, e).result is Ok,
    ensures
        ({
            let c = value_of(fns, depth, s, *e.kind->If_cond);
            c.result is Ok && grown(
                c.state.current.vars,
                value_of_if(fns, depth, s, e).state.current.vars,
            )
        }),
{
    match e.kind {
        RExprKind::If { cond, then, else_opt } => {
            let c = value_of(fns, depth, s, *cond);
            let guard = c.result->Ok_0;
            let n = entered_arm(c.state, "then"@, guard, then.span, cond.span);
            let t = value_of_block(fns, depth, n.state, *then);
            lemma_then_left(fns, depth, c.state, guard, *then, cond.span);
            let back = left(t.state);
            match else_opt {
                Some(els) => {
                    let m = entered_arm(back, "else"@, negated_text(guard), els.span, cond.span);
                    let f = value_of_block(fns, depth, m.state, *els);
                    lemma_else_left(fns, depth, back, guard, *els, cond.span);
                    lemma_absorbed_grown(
                        c.state.current,
                        (ArmView { guard: Some(guard), ctxt: adapted_ctxt(guard, t.state.current) }),
                        else_arm(guard, Some(f.state.current)),
                    );
                },
                None => {},
            }
        },
        _ => {},
    }
}

/// Rendering a value lets the map of the scope grow: whatever merges it
/// runs, each gives longer names and puts no variable elsewhere.
pub proof fn lemma_value_grows(fns: Map<u64, RThir>, depth: nat, s: State, e: RExpr)
    ensures
        value_of(fns, depth, s, e).result is Ok ==> grown(
            s.current.vars,
            value_of(fns, depth, s, e).state.current.vars,
        ),
    decreases e,
{
    let o = value_of(fns, depth, s, e);
    lemma_grown_refl(s.current.vars);
    if o.result is Ok {
        match e.kind {
            RExprKind::LogicalOp { op, lhs, rhs } => {
                lemma_value_grows(fns, depth, s, *lhs);
                let l = value_of(fns, depth, s, *lhs);
                lemma_value_grows(fns, depth, l.state, *rhs);
                lemma_grown_trans(s.current.vars, l.state.current.vars, o.state.current.vars);
            },
            RExprKind::Unary { op, arg } => {
                lemma_value_grows(fns, depth, s, *arg);
            },
            RExprKind::Binary { op, lhs, rhs } => {
                lemma_value_grows(fns, depth, s, *lhs);
                let l = value_of(fns, depth, s, *lhs);
                lemma_value_grows(fns, depth, l.state, *rhs);
                lemma_grown_trans(s.current.vars, l.state.current.vars, o.state.current.vars);
            },
            RExprKind::Call { def, args } => {
                lemma_call_grows(fns, depth, s, e);
            },
            RExprKind::If { cond, then, else_opt } => {
                lemma_value_grows(fns, depth, s, *cond);
                lemma_if_grows(fns, depth, s, e);
                let c = value_of(fns, depth, s, *cond);
                lemma_grown_trans(s.current.vars, c.state.current.vars, o.state.current.vars);
            },
            _ => {},
        }
    }
}

/// Whether `e` is an assignment, plain or compound, to the variable `id`.
pub open spec fn assigns_to(e: RExpr, id: u64) -> bool {
    match e.kind {
        RExprKind::Assign { lhs, rhs } => lhs.kind == (RExprKind::VarRef { id }),
        RExprKind::AssignOp { op, lhs, rhs } => lhs.kind == (RExprKind::VarRef { id }),
        _ => false,
    }
}

/// What one assignment that succeeds does to the variable it assigns to:
/// the variable was bound, and it is bound afterwards, in the same scope, to
/// a longer name; and the log ends with the declaration of that name and the
/// assumption that gives it its value.
pub proof fn lemma_assignment(fns: Map<u64, RThir>, depth: nat, s: State, e: RExpr, id: u64)
    requires
        assigns_to(e, id),
        statement(fns, depth, s, e).result is Ok,
    ensures
        ({
            let t = statement(fns, depth, s, e).state;
            &&& name_of(s, id) is Ok
            &&& name_of(t, id) is Ok
            &&& name_of(t, id)->Ok_0.len() > name_of(s, id)->Ok_0.len()
            &&& t.current.name == s.current.name
            &&& t.current.path.len() >= 2
            &&& t.current.path[t.current.path.len() - 2].kind == (LirKindView::Declaration {
                name: name_of(t, id)->Ok_0,
                ty: lookup(s.current.vars, id)->0.ty,
            })
            &&& t.current.path.last().kind is Assume
        }),
{
    let rhs = match e.kind {
        RExprKind::Assign { lhs, rhs } => *rhs,
        RExprKind::AssignOp { op, lhs, rhs } => *rhs,
        _ => e,
    };
    let lhs = match e.kind {
        RExprKind::Assign { lhs, rhs } => *lhs,
        RExprKind::AssignOp { op, lhs, rhs } => *lhs,
        _ => e,
    };
    let r = value_of(fns, depth, s, rhs);
    lemma_value_grows(fns, depth, s, rhs);
    lemma_value_of(fns, depth, s, rhs);
    lemma_kept_level(s, r);
    lemma_lookup_grown(s.current.vars, r.state.current.vars, id);
    let a = assigned(r.state, lhs);
    let var = lookup(r.state.current.vars, id)->0;
    let fresh = reassigned_name(r.state.current.name, var.name);
    lemma_reassigned_name_is_longer(r.state.current.name, var.name);
    lemma_lookup_inserted(r.state.current.vars, (VarView { id, name: fresh, ty: var.ty }));
}

/// The state after the first `n` statements of `es`, each analysed in the
/// state that the one before it left.
pub open spec fn after_run(fns: Map<u64, RThir>, depth: nat, s: State, es: Seq<RExpr>, n: nat)
    -> State
    decreases n,
{
    if n == 0 {
        s
    } else {
        statement(fns, depth, after_run(fns, depth, s, es, (n - 1) as nat), es[n - 1]).state
    }
}

/// Whether each of the first `n` statements of `es` succeeds in its turn.
pub open spec fn run_succeeds(fns: Map<u64, RThir>, depth: nat, s: State, es: Seq<RExpr>, n: nat)
    -> bool
    decreases n,
{
    n == 0 || (run_succeeds(fns, depth, s, es, (n - 1) as nat) && statement(
        fns,
        depth,
        after_run(fns, depth, s, es, (n - 1) as nat),
        es[n - 1],
    ).result is Ok)
}

/// Along a run of assignments to one variable, the variable's name gets
/// longer with every assignment.
pub proof fn lemma_run_names(
    fns: Map<u64, RThir>,
    depth: nat,
    s: State,
    es: Seq<RExpr>,
    id: u64,
    i: nat,
    j: nat,
)
    requires
        i < j <= es.len(),
        forall|k: int| 0 <= k < j ==> assigns_to(#[trigger] es[k], id),
        run_succeeds(fns, depth, s, es, j),
    ensures
        run_succeeds(fns, depth, s, es, i),
        name_of(after_run(fns, depth, s, es, i), id) is Ok,
        name_of(after_run(fns, depth, s, es, j), id) is Ok,
        name_of(after_run(fns, depth, s, es, i), id)->Ok_0.len() < name_of(
            after_run(fns, depth, s, es, j),
            id,
        )->Ok_0.len(),
        after_run(fns, depth, s, es, j).current.name == after_run(
            fns,
            depth,
            s,
            es,
            i,
        ).current.name,
    decreases j,
{
    let before = after_run(fns, depth, s, es, (j - 1) as nat);
    lemma_assignment(fns, depth, before, es[j - 1], id);
    if i < j - 1 {
        lemma_run_names(fns, depth, s, es, id, i, (j - 1) as nat);
    }
}

/// Renaming is sound for whole assignments. Take a run of assignments,
/// plain or compound, to one variable, one after the other in one scope, each
/// with whatever right-hand side, and let each succeed. Then every assignment
/// of the run leaves the variable bound to the name that it declared; the
/// declaration of that name stands in the log right before the assumption
/// that gives the name its value; and the name is none of the names that the
/// variable had before, neither at the start of the run nor after any earlier
/// assignment of the run.
pub proof fn law_assignments_rename(
    fns: Map<u64, RThir>,
    depth: nat,
    s: State,
    es: Seq<RExpr>,
    id: u64,
    i: nat,
    j: nat,
)
    requires
        i < j <= es.len(),
        forall|k: int| 0 <= k < j ==> assigns_to(#[trigger] es[k], id),
        run_succeeds(fns, depth, s, es, j),
    ensures
        ({
            let earlier = after_run(fns, depth, s, es, i);
            let later = after_run(fns, depth, s, es, j);
            let log = later.current.path;
            &&& name_of(earlier, id) is Ok
            &&& name_of(later, id) is Ok
            &&& name_of(later, id)->Ok_0 != name_of(earlier, id)->Ok_0
            &&& later.current.name == s.current.name
            &&& log.len() >= 2
            &&& log[log.len() - 2].kind matches LirKindView::Declaration { name, ty }
            &&& name == name_of(later, id)->Ok_0
            &&& log.last().kind is Assume
        }),
{
    lemma_run_names(fns, depth, s, es, id, i, j);
    if i > 0 {
        lemma_run_names(fns, depth, s, es, id, 0, i);
    }
    let before = after_run(fns, depth, s, es, (j - 1) as nat);
    lemma_assignment(fns, depth, before, es[j - 1], id);
}

} // verus!
