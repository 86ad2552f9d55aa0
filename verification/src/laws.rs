//! What holds of the engine's rules for every input.
//!
//! Each proof function states one law over the spec functions that the
//! contracts of the engine use. The laws of renaming, of branch guards, of
//! the merge and of rendering stand here; `scopes` shows that every step
//! keeps the scopes it finds, `renaming` that whole assignments never reuse a
//! name, `depth` that the depth of inlining is enough.
use vstd::prelude::*;
use crate::analyze::model::{
    State, assigned, else_arm, merged_branch, merged_call, name_of, reassigned_name,
};
use crate::analyze::scope::{
    ArmView, adapted, adapted_ctxt, declares, fresh_name, guarded_entry, is_declaration_of,
    last_span, lemma_room, merged_log, phi_entries, phi_name, phi_vars, renamed_in,
    renamed_in_second, room, taken,
};
use crate::context::{
    ContextView, VarView, inserted, lemma_lookup_at, lookup, rendered, rendered_for_check,
};
use crate::error::AnalysisErrorView;
use crate::lir::{LirKindView, LirView, assumption, declaration};
use crate::text::{equal_text, implies_text, marked_text, negated_text};
use crate::tree::RExpr;

pub mod depth;
pub mod renaming;
pub mod scopes;

verus! {

/// Binding a variable makes the lookup of that variable find the binding.
pub proof fn lemma_lookup_inserted(vars: Seq<VarView>, var: VarView)
    ensures
        lookup(inserted(vars, var), var.id) == Some(var),
    decreases vars.len(),
{
    if vars.len() == 0 {
    } else if vars.first().id == var.id {
    } else {
        lemma_lookup_inserted(vars.drop_first(), var);
        let after = seq![vars.first()] + inserted(vars.drop_first(), var);
        assert(after.drop_first() =~= inserted(vars.drop_first(), var));
    }
}

/// The name that a variable has after `n` assignments in a row in one
/// scope, starting from `name`.
pub open spec fn reassigned_times(scope: Seq<char>, name: Seq<char>, n: nat) -> Seq<char>
    decreases n,
{
    if n == 0 {
        name
    } else {
        reassigned_name(scope, reassigned_times(scope, name, (n - 1) as nat))
    }
}

/// The state after `n` assignments in a row to the target `lhs`.
pub open spec fn assigned_times(s: State, lhs: RExpr, n: nat) -> State
    decreases n,
{
    if n == 0 {
        s
    } else {
        assigned(assigned_times(s, lhs, (n - 1) as nat), lhs).state
    }
}

/// A fresh name is longer than the name that it replaces.
pub proof fn lemma_reassigned_name_is_longer(scope: Seq<char>, name: Seq<char>)
    ensures
        reassigned_name(scope, name).len() > name.len(),
{
    reveal_strlit("_");
}

/// The names of a run of assignments grow with every assignment.
pub proof fn lemma_reassigned_times_grow(scope: Seq<char>, name: Seq<char>, i: nat, j: nat)
    requires
        i < j,
    ensures
        reassigned_times(scope, name, i).len() < reassigned_times(scope, name, j).len(),
    decreases j,
{
    lemma_reassigned_name_is_longer(scope, reassigned_times(scope, name, (j - 1) as nat));
    if i < j - 1 {
        lemma_reassigned_times_grow(scope, name, i, (j - 1) as nat);
    }
}

/// After `n` assignments in a row the scope still has its name, and the
/// variable is bound to the `n`-th name of the run.
pub proof fn lemma_assigned_times(s: State, lhs: RExpr, n: nat)
    requires
        lhs.kind is VarRef,
        lookup(s.current.vars, lhs.kind->VarRef_id) is Some,
    ensures
        assigned_times(s, lhs, n).current.name == s.current.name,
        lookup(assigned_times(s, lhs, n).current.vars, lhs.kind->VarRef_id) == Some(
            VarView {
                id: lhs.kind->VarRef_id,
                name: reassigned_times(
                    s.current.name,
                    lookup(s.current.vars, lhs.kind->VarRef_id)->0.name,
                    n,
                ),
                ty: lookup(s.current.vars, lhs.kind->VarRef_id)->0.ty,
            },
        ),
        n > 0 ==> assigned(assigned_times(s, lhs, (n - 1) as nat), lhs).result is Ok
            && assigned_times(s, lhs, n).current.path == assigned_times(
            s,
            lhs,
            (n - 1) as nat,
        ).current.path.push(
            declaration(
                reassigned_times(
                    s.current.name,
                    lookup(s.current.vars, lhs.kind->VarRef_id)->0.name,
                    n,
                ),
                lookup(s.current.vars, lhs.kind->VarRef_id)->0.ty,
                lhs.span,
            ),
        ),
    decreases n,
{
    let id = lhs.kind->VarRef_id;
    if n == 0 {
        lemma_lookup_first(s.current.vars, id);
    } else {
        lemma_assigned_times(s, lhs, (n - 1) as nat);
        let before = assigned_times(s, lhs, (n - 1) as nat);
        let var = lookup(before.current.vars, id)->0;
        let fresh = VarView { id, name: reassigned_name(before.current.name, var.name), ty: var.ty };
        lemma_lookup_inserted(before.current.vars, fresh);
    }
}

/// What a lookup finds carries the variable that was looked up.
pub proof fn lemma_lookup_first(vars: Seq<VarView>, id: u64)
    ensures
        lookup(vars, id) matches Some(var) ==> var.id == id && vars.contains(var),
    decreases vars.len(),
{
    if vars.len() == 0 {
    } else if vars.first().id == id {
        assert(vars[0] == vars.first());
    } else {
        lemma_lookup_first(vars.drop_first(), id);
        if lookup(vars, id) is Some {
            let var = lookup(vars, id)->0;
            let k = choose|k: int| 0 <= k < vars.drop_first().len() && vars.drop_first()[k] == var;
            assert(vars[k + 1] == var);
        }
    }
}

/// Renaming is sound. Take any run of assignments to one variable within
/// one scope. Then the variable map resolves the variable to the name that
/// the last assignment of the run declared, that name stands in the last
/// entry of the log, and no two assignments of the run declare the same name.
pub proof fn law_renaming_is_sound(s: State, lhs: RExpr, i: nat, j: nat)
    requires
        lhs.kind is VarRef,
        name_of(s, lhs.kind->VarRef_id) is Ok,
        i < j,
    ensures
        ({
            let id = lhs.kind->VarRef_id;
            let first = name_of(s, id)->Ok_0;
            let name_i = reassigned_times(s.current.name, first, i);
            let name_j = reassigned_times(s.current.name, first, j);
            let after = assigned_times(s, lhs, j);
            &&& name_of(after, id) == Ok::<Seq<char>, AnalysisErrorView>(name_j)
            &&& after.current.path.last().kind == (LirKindView::Declaration {
                name: name_j,
                ty: lookup(s.current.vars, id)->0.ty,
            })
            &&& name_i != name_j
        }),
{
    let id = lhs.kind->VarRef_id;
    let first = name_of(s, id)->Ok_0;
    lemma_assigned_times(s, lhs, j);
    lemma_reassigned_times_grow(s.current.name, first, i, j);
}

/// What the parent takes over from an arm contains, for an entry of the
/// arm, what that entry becomes.
pub proof fn lemma_adapted_contains(guard: Option<Seq<char>>, path: Seq<LirView>, j: int)
    requires
        0 <= j < path.len(),
        guarded_entry(guard, path[j]) is Some,
    ensures
        adapted(guard, path).contains(guarded_entry(guard, path[j])->0),
    decreases path.len(),
{
    let f = |entry: LirView| guarded_entry(guard, entry);
    let rest = path.drop_last();
    let entry = guarded_entry(guard, path[j])->0;
    if j == path.len() - 1 {
        let out = rest.filter_map(f) + seq![entry];
        assert(out[out.len() - 1] == entry);
    } else {
        lemma_adapted_contains(guard, rest, j);
        let k = choose|k: int| 0 <= k < adapted(guard, rest).len() && adapted(guard, rest)[k] == entry;
        assert(adapted(guard, path)[k] == entry);
    }
}

/// A log that was put under a guard goes into the parent as it is.
pub proof fn lemma_adapted_twice(guard: Seq<char>, path: Seq<LirView>)
    ensures
        adapted(None, adapted(Some(guard), path)) == adapted(Some(guard), path),
    decreases path.len(),
{
    let f = |entry: LirView| guarded_entry(Some(guard), entry);
    let g = |entry: LirView| guarded_entry(None, entry);
    if path.len() == 0 {
    } else {
        let rest = path.drop_last();
        lemma_adapted_twice(guard, rest);
        match guarded_entry(Some(guard), path.last()) {
            Some(entry) => {
                let once = rest.filter_map(f) + seq![entry];
                assert(once.drop_last() =~= rest.filter_map(f));
                assert(once.last() == entry);
                assert(guarded_entry(None, entry) == Some(entry));
            },
            None => {},
        }
    }
}

/// Branch guards are right. Of the log of an arm that ran under `guard`,
/// the parent takes over: every declaration as it is; every assumption `a`
/// other than the guard's own text as `(=> guard a)`, with its span; and
/// nothing that does not stem from an entry of the arm in this way. The `then`
/// arm runs under the branch condition, the `else` arm under its negation.
pub proof fn law_branch_guards(guard: Seq<char>, path: Seq<LirView>)
    ensures
        forall|j: int|
            0 <= j < path.len() && (#[trigger] path[j]).kind is Declaration ==> adapted(
                Some(guard),
                path,
            ).contains(path[j]),
        forall|j: int|
            0 <= j < path.len() && (#[trigger] path[j]).kind is Assume && path[j].kind->Assume_0
                != guard ==> adapted(Some(guard), path).contains(
                assumption(implies_text(guard, path[j].kind->Assume_0), path[j].span),
            ),
        forall|entry: LirView| #[trigger]
            adapted(Some(guard), path).contains(entry) ==> exists|j: int|
                0 <= j < path.len() && guarded_entry(Some(guard), #[trigger] path[j]) == Some(
                    entry,
                ),
{
    assert forall|j: int|
        0 <= j < path.len() && (#[trigger] path[j]).kind is Declaration implies adapted(
        Some(guard),
        path,
    ).contains(path[j]) by {
        lemma_adapted_contains(Some(guard), path, j);
    }
    assert forall|j: int|
        0 <= j < path.len() && (#[trigger] path[j]).kind is Assume && path[j].kind->Assume_0
            != guard implies adapted(Some(guard), path).contains(
        assumption(implies_text(guard, path[j].kind->Assume_0), path[j].span),
    ) by {
        lemma_adapted_contains(Some(guard), path, j);
    }
    assert forall|entry: LirView| #[trigger]
        adapted(Some(guard), path).contains(entry) implies exists|j: int|
        0 <= j < path.len() && guarded_entry(Some(guard), #[trigger] path[j]) == Some(entry) by {
        let f = |e: LirView| guarded_entry(Some(guard), e);
        path.lemma_filter_map_contains(f, entry);
        let t = choose|t: LirView| #[trigger] path.contains(t) && f(t) == Some(entry);
        let j = choose|j: int| 0 <= j < path.len() && path[j] == t;
        assert(guarded_entry(Some(guard), path[j]) == Some(entry));
    }
}

/// Merging variables only adds to the log.
pub proof fn lemma_merged_log_extends(
    base: Seq<LirView>,
    vars: Seq<VarView>,
    first: ArmView,
    second: Option<ArmView>,
)
    ensures
        base.is_prefix_of(merged_log(base, vars, first, second)),
    decreases vars.len(),
{
    if vars.len() == 0 {
        assert(base =~= base.subrange(0, base.len() as int));
    } else {
        lemma_merged_log_extends(base, vars.drop_last(), first, second);
        let before = merged_log(base, vars.drop_last(), first, second);
        let after = merged_log(base, vars, first, second);
        assert(base =~= after.subrange(0, base.len() as int));
    }
}

/// The log as it stands when the turn of the `k`-th variable comes is the
/// beginning of the log after all variables are merged.
pub proof fn lemma_merged_log_grows(
    base: Seq<LirView>,
    vars: Seq<VarView>,
    first: ArmView,
    second: Option<ArmView>,
    k: int,
)
    requires
        0 <= k <= vars.len(),
    ensures
        merged_log(base, vars.take(k), first, second).is_prefix_of(
            merged_log(base, vars, first, second),
        ),
    decreases vars.len(),
{
    let all = merged_log(base, vars, first, second);
    if k == vars.len() {
        assert(vars.take(k) =~= vars);
        assert(all =~= all.subrange(0, all.len() as int));
    } else {
        lemma_merged_log_grows(base, vars.drop_last(), first, second, k);
        assert(vars.drop_last().take(k) =~= vars.take(k));
        let part = merged_log(base, vars.take(k), first, second);
        assert(part =~= all.subrange(0, part.len() as int));
    }
}

/// A log declares what its beginning declares.
pub proof fn lemma_declares_prefix(part: Seq<LirView>, log: Seq<LirView>, name: Seq<char>)
    requires
        part.is_prefix_of(log),
        declares(part, name),
    ensures
        declares(log, name),
{
    let i = choose|i: int| 0 <= i < part.len() && is_declaration_of(#[trigger] part[i], name);
    assert(part[i] == log.subrange(0, part.len() as int)[i]);
    assert(is_declaration_of(log[i], name));
}

/// The name that the search for a merged name ends with is not out of the
/// question, and it is no shorter than the name that the search began with.
pub proof fn lemma_fresh_name(
    name: Seq<char>,
    log: Seq<LirView>,
    a: Option<Seq<char>>,
    b: Option<Seq<char>>,
)
    ensures
        !taken(log, a, b, fresh_name(name, log, a, b)),
        fresh_name(name, log, a, b).len() >= name.len(),
    decreases room(log, a, b, name.len()),
{
    if taken(log, a, b, name) {
        lemma_room(log, a, b, name);
        lemma_fresh_name(marked_text(name), log, a, b);
    }
}

/// The log of a parent after a branch: its own log, then the `then` arm
/// under the condition, then the `else` arm under the negated condition, then
/// the merge entries of its variables.
pub proof fn law_branch_log(
    s: State,
    cond: Seq<char>,
    then_ctxt: ContextView,
    else_ctxt: Option<ContextView>,
)
    ensures
        ({
            let first = ArmView { guard: Some(cond), ctxt: adapted_ctxt(cond, then_ctxt) };
            let second = else_arm(cond, else_ctxt);
            let taken_over = s.current.path + adapted(Some(cond), then_ctxt.path)
                + branch_else_log(cond, else_ctxt);
            &&& merged_branch(s, cond, then_ctxt, else_ctxt).current.path == merged_log(
                taken_over,
                s.current.vars,
                first,
                second,
            )
            &&& taken_over.is_prefix_of(merged_branch(s, cond, then_ctxt, else_ctxt).current.path)
        }),
{
    let first = ArmView { guard: Some(cond), ctxt: adapted_ctxt(cond, then_ctxt) };
    let second = else_arm(cond, else_ctxt);
    lemma_adapted_twice(cond, then_ctxt.path);
    match else_ctxt {
        Some(ctxt) => {
            lemma_adapted_twice(negated_text(cond), ctxt.path);
        },
        None => {},
    }
    let taken_over = s.current.path + adapted(Some(cond), then_ctxt.path) + branch_else_log(
        cond,
        else_ctxt,
    );
    lemma_merged_log_extends(taken_over, s.current.vars, first, second);
}

/// What the `else` arm of a branch hands over: its log under the negated
/// condition, or nothing where there is no such arm.
pub open spec fn branch_else_log(cond: Seq<char>, else_ctxt: Option<ContextView>) -> Seq<LirView> {
    match else_ctxt {
        Some(ctxt) => adapted(Some(negated_text(cond)), ctxt.path),
        None => Seq::empty(),
    }
}

/// The merged log contains the merge entries of each variable.
pub proof fn lemma_merged_log_contains(
    base: Seq<LirView>,
    vars: Seq<VarView>,
    first: ArmView,
    second: Option<ArmView>,
    k: int,
    entry: LirView,
)
    requires
        0 <= k < vars.len(),
        phi_entries(
            vars[k],
            first,
            second,
            merged_log(base, vars.take(k), first, second),
        ).contains(entry),
    ensures
        merged_log(base, vars, first, second).contains(entry),
{
    let before = merged_log(base, vars.take(k), first, second);
    let own = phi_entries(vars[k], first, second, before);
    let next = vars.take(k + 1);
    assert(next.drop_last() =~= vars.take(k));
    assert(next.last() == vars[k]);
    let with_own = merged_log(base, next, first, second);
    assert(with_own == before + own);
    let i = choose|i: int| 0 <= i < own.len() && own[i] == entry;
    assert(with_own[before.len() + i] == entry);
    lemma_merged_log_grows(base, vars, first, second, k + 1);
    let all = merged_log(base, vars, first, second);
    assert(with_own[before.len() + i] == all.subrange(0, with_own.len() as int)[before.len() + i]);
    assert(all[before.len() + i] == entry);
}

/// The merge at a branch is total, and the merged name is fresh. Take the
/// variable that the parent's map binds at place `k`, no place before it
/// binding the same variable. Where an arm left it under another name, the
/// parent binds it to one new name after the merge. That name is not the
/// parent's name for the variable, not the name of either arm, and not
/// declared in the parent's log as it stands when the arms' entries are taken
/// over and the variables before this one are merged. The parent declares the
/// name, and for each arm that renamed the variable it holds the equality of
/// the new name with the arm's name under the arm's guard: under the condition
/// for the `then` arm, under its negation for the `else` arm. Where no arm
/// renamed the variable, it keeps its binding.
pub proof fn law_phi_merge(
    s: State,
    cond: Seq<char>,
    then_ctxt: ContextView,
    else_ctxt: Option<ContextView>,
    k: int,
)
    requires
        0 <= k < s.current.vars.len(),
        forall|j: int| 0 <= j < k ==> s.current.vars[j].id != s.current.vars[k].id,
    ensures
        ({
            let var = s.current.vars[k];
            let first = ArmView { guard: Some(cond), ctxt: adapted_ctxt(cond, then_ctxt) };
            let second = else_arm(cond, else_ctxt);
            let taken_over = s.current.path + adapted(Some(cond), then_ctxt.path)
                + branch_else_log(cond, else_ctxt);
            let before = merged_log(taken_over, s.current.vars.take(k), first, second);
            let phi = phi_name(var, first, second, before);
            let merged = merged_branch(s, cond, then_ctxt, else_ctxt).current;
            let in_then = lookup(then_ctxt.vars, var.id);
            let then_renamed = in_then is Some && in_then->0.name != var.name;
            let else_renamed = else_ctxt is Some && lookup(else_ctxt->0.vars, var.id) is Some
                && lookup(else_ctxt->0.vars, var.id)->0.name != var.name;
            &&& lookup(s.current.vars, var.id) == Some(var)
            &&& then_renamed || else_renamed ==> lookup(merged.vars, var.id) == Some(
                VarView { id: var.id, name: phi, ty: var.ty },
            )
            &&& phi != var.name
            &&& then_renamed ==> phi != in_then->0.name
            &&& else_renamed ==> phi != lookup(else_ctxt->0.vars, var.id)->0.name
            &&& !declares(taken_over, phi)
            &&& !declares(before, phi)
            &&& then_renamed ==> merged.path.contains(
                declaration(phi, var.ty, last_span(adapted(Some(cond), then_ctxt.path))),
            )
            &&& else_renamed && !then_renamed ==> merged.path.contains(
                declaration(
                    phi,
                    var.ty,
                    last_span(adapted(Some(negated_text(cond)), else_ctxt->0.path)),
                ),
            )
            &&& then_renamed ==> merged.path.contains(
                assumption(
                    implies_text(cond, equal_text(phi, in_then->0.name)),
                    last_span(adapted(Some(cond), then_ctxt.path)),
                ),
            )
            &&& else_renamed ==> merged.path.contains(
                assumption(
                    implies_text(
                        negated_text(cond),
                        equal_text(phi, lookup(else_ctxt->0.vars, var.id)->0.name),
                    ),
                    last_span(adapted(Some(negated_text(cond)), else_ctxt->0.path)),
                ),
            )
            &&& !then_renamed && !else_renamed ==> lookup(merged.vars, var.id) == Some(var)
        }),
{
    let vars = s.current.vars;
    let var = vars[k];
    let first = ArmView { guard: Some(cond), ctxt: adapted_ctxt(cond, then_ctxt) };
    let second = else_arm(cond, else_ctxt);
    law_branch_log(s, cond, then_ctxt, else_ctxt);
    let taken_over = s.current.path + adapted(Some(cond), then_ctxt.path) + branch_else_log(
        cond,
        else_ctxt,
    );
    let before = merged_log(taken_over, vars.take(k), first, second);
    let a = renamed_in(first, var);
    let b = renamed_in_second(second, var);
    let phi = phi_name(var, first, second, before);
    let merged = merged_branch(s, cond, then_ctxt, else_ctxt).current;
    assert(merged.path == merged_log(taken_over, vars, first, second));
    assert(merged.vars == phi_vars(taken_over, vars, first, second)) by {
        lemma_adapted_twice(cond, then_ctxt.path);
        match else_ctxt {
            Some(ctxt) => {
                lemma_adapted_twice(negated_text(cond), ctxt.path);
            },
            None => {},
        }
    }
    lemma_lookup_at(vars, var.id, k);
    lemma_lookup_at(merged.vars, var.id, k);
    lemma_fresh_name(marked_text(var.name), before, a, b);
    lemma_merged_log_extends(taken_over, vars.take(k), first, second);
    if declares(taken_over, phi) {
        lemma_declares_prefix(taken_over, before, phi);
    }
    let own = phi_entries(var, first, second, before);
    assert forall|entry: LirView| own.contains(entry) implies merged.path.contains(entry) by {
        lemma_merged_log_contains(taken_over, vars, first, second, k, entry);
    }
    if a is Some && b is Some {
        assert(own[0] == own[0] && own.contains(own[0]));
        assert(own[1] == own[1] && own.contains(own[1]));
        assert(own[2] == own[2] && own.contains(own[2]));
    } else if a is Some {
        assert(own[0] == own[0] && own.contains(own[0]));
        assert(own[1] == own[1] && own.contains(own[1]));
    } else if b is Some {
        assert(own[0] == own[0] && own.contains(own[0]));
        assert(own[1] == own[1] && own.contains(own[1]));
    }
}

/// The merge after an inlined call gives a fresh name too. Take the
/// variable that the caller's map binds at place `k`, no place before it
/// binding the same variable, and let the callee have left it under another
/// name. Then the caller binds it to a name that is neither its own name for
/// the variable nor the callee's, and that its log did not declare when the
/// callee's entries were taken over and the variables before this one were
/// merged; and its log declares that name and holds the equality of that name
/// with the callee's.
pub proof fn law_call_merge(s: State, callee: ContextView, k: int)
    requires
        0 <= k < s.current.vars.len(),
        forall|j: int| 0 <= j < k ==> s.current.vars[j].id != s.current.vars[k].id,
        lookup(callee.vars, s.current.vars[k].id) is Some,
        lookup(callee.vars, s.current.vars[k].id)->0.name != s.current.vars[k].name,
    ensures
        ({
            let var = s.current.vars[k];
            let arm = ArmView { guard: None, ctxt: callee };
            let taken_over = s.current.path + adapted(None, callee.path);
            let before = merged_log(taken_over, s.current.vars.take(k), arm, None);
            let phi = phi_name(var, arm, None, before);
            let theirs = lookup(callee.vars, var.id)->0.name;
            let merged = merged_call(s, callee).current;
            &&& lookup(merged.vars, var.id) == Some(VarView { id: var.id, name: phi, ty: var.ty })
            &&& phi != var.name
            &&& phi != theirs
            &&& !declares(taken_over, phi)
            &&& !declares(before, phi)
            &&& merged.path.contains(declaration(phi, var.ty, last_span(callee.path)))
            &&& merged.path.contains(assumption(equal_text(phi, theirs), last_span(callee.path)))
        }),
{
    let vars = s.current.vars;
    let var = vars[k];
    let arm = ArmView { guard: None, ctxt: callee };
    let taken_over = s.current.path + adapted(None, callee.path);
    assert(taken_over =~= crate::analyze::scope::taken_over(s.current, arm, None));
    let before = merged_log(taken_over, vars.take(k), arm, None);
    let a = renamed_in(arm, var);
    let phi = phi_name(var, arm, None, before);
    let merged = merged_call(s, callee).current;
    lemma_lookup_at(merged.vars, var.id, k);
    lemma_fresh_name(marked_text(var.name), before, a, None);
    lemma_merged_log_extends(taken_over, vars.take(k), arm, None);
    if declares(taken_over, phi) {
        lemma_declares_prefix(taken_over, before, phi);
    }
    let own = phi_entries(var, arm, None, before);
    assert(own[0] == own[0] && own.contains(own[0]));
    assert(own[1] == own[1] && own.contains(own[1]));
    lemma_merged_log_contains(taken_over, vars, arm, None, k, own[0]);
    lemma_merged_log_contains(taken_over, vars, arm, None, k, own[1]);
}

/// Rendering is repeatable. Both renderings of a log, the plain one and the
/// one that asks whether the last entry can fail, are functions of the log and
/// of nothing else: two scopes with the same log render to the same result,
/// be it solver text or a refusal, whatever else they hold, and so does one
/// scope that is rendered twice.
pub proof fn law_rendering_is_repeatable(a: ContextView, b: ContextView)
    requires
        a.path == b.path,
    ensures
        rendered(a.path) == rendered(b.path),
        rendered_for_check(a.path) == rendered_for_check(b.path),
{
}

} // verus!
