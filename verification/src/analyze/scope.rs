//! Folding a finished scope back into the scope that it was entered from.
//!
//! A branch arm hands its declarations over as they are and its assumptions
//! under its guard. A variable that an arm left under another name gets one
//! new name in the parent, tied to the arm's name by an equality that stands
//! under the same guard. The new name is fresh: the parent's name with as
//! many markers behind it as it takes to be no name of an arm and no name
//! that the parent's log declares.
use std::collections::VecDeque;
use vstd::prelude::*;
use vstd::string::*;
use crate::analyze::{Analyzer, contexts_view};
use crate::analyze::model::{entered, left, merged_branch, merged_call};
use crate::context::{
    Context, ContextView, Var, VarView, distinct_ids, duplicate_vars, lookup, path_view,
    vars_view,
};
use crate::error::AnalysisError;
use crate::lir::{Lir, LirKind, LirKindView, LirView, assumption, declaration};
use crate::text::{equal, equal_text, implication, implies_text, marked, marked_text, negated};
use crate::tree::Span;

verus! {

broadcast use vstd::std_specs::vecdeque::group_vec_dequeue_axioms;

/// What an entry of a finished scope becomes in the parent: a declaration
/// stays, an assumption is put under the guard (and left out where it is
/// the guard's own text), rendered text is left out.
pub open spec fn guarded_entry(guard: Option<Seq<char>>, entry: LirView) -> Option<LirView> {
    match entry.kind {
        LirKindView::Declaration { name, ty } => Some(entry),
        LirKindView::Assume(constraint) => match guard {
            Some(g) => if constraint == g {
                None
            } else {
                Some(assumption(implies_text(g, constraint), entry.span))
            },
            None => Some(entry),
        },
        LirKindView::Assumptions(text) => None,
    }
}

/// The log of a finished scope as the parent takes it over.
pub open spec fn adapted(guard: Option<Seq<char>>, path: Seq<LirView>) -> Seq<LirView> {
    path.filter_map(|entry: LirView| guarded_entry(guard, entry))
}

/// A scope with its log put under a guard.
pub open spec fn adapted_ctxt(guard: Seq<char>, ctxt: ContextView) -> ContextView {
    ContextView { name: ctxt.name, path: adapted(Some(guard), ctxt.path), vars: ctxt.vars }
}

/// A finished scope on its way into the parent, with the guard under which
/// it ran; a scope that ran unconditionally has none.
pub struct Arm {
    pub guard: Option<String>,
    pub ctxt: Context,
}

pub struct ArmView {
    pub guard: Option<Seq<char>>,
    pub ctxt: ContextView,
}

pub open spec fn guard_view(guard: Option<String>) -> Option<Seq<char>> {
    match guard {
        Some(g) => Some(g@),
        None => None,
    }
}

impl View for Arm {
    type V = ArmView;

    open spec fn view(&self) -> ArmView {
        ArmView { guard: guard_view(self.guard), ctxt: self.ctxt@ }
    }
}

pub open spec fn arm_view(arm: Option<Arm>) -> Option<ArmView> {
    match arm {
        Some(a) => Some(a@),
        None => None,
    }
}

/// The name that an arm left a variable under, where that is another name
/// than the parent's.
pub open spec fn renamed_in(arm: ArmView, var: VarView) -> Option<Seq<char>> {
    match lookup(arm.ctxt.vars, var.id) {
        Some(b) => if b.name != var.name {
            Some(b.name)
        } else {
            None
        },
        None => None,
    }
}

pub open spec fn renamed_in_second(arm: Option<ArmView>, var: VarView) -> Option<Seq<char>> {
    match arm {
        Some(a) => renamed_in(a, var),
        None => None,
    }
}

/// The span of a log's last entry; of an empty log, the empty span at the
/// start.
pub open spec fn last_span(path: Seq<LirView>) -> Span {
    if path.len() > 0 {
        path.last().span
    } else {
        Span { lo: 0, hi: 0 }
    }
}

/// A constraint under a guard, or as it is where there is none.
pub open spec fn guarded_text(guard: Option<Seq<char>>, constraint: Seq<char>) -> Seq<char> {
    match guard {
        Some(g) => implies_text(g, constraint),
        None => constraint,
    }
}

/// The equality that ties a merged name to the name of one arm.
pub open spec fn phi_equality(arm: ArmView, phi: Seq<char>, name: Seq<char>) -> LirView {
    assumption(guarded_text(arm.guard, equal_text(phi, name)), last_span(arm.ctxt.path))
}

/// Whether any arm left the variable under another name.
pub open spec fn is_renamed(var: VarView, first: ArmView, second: Option<ArmView>) -> bool {
    renamed_in(first, var) is Some || renamed_in_second(second, var) is Some
}

/// Whether an entry declares `name`.
pub open spec fn is_declaration_of(entry: LirView, name: Seq<char>) -> bool {
    entry.kind matches LirKindView::Declaration { name: declared, ty } && declared == name
}

/// Whether a log declares `name`.
pub open spec fn declares(log: Seq<LirView>, name: Seq<char>) -> bool {
    exists|i: int| 0 <= i < log.len() && is_declaration_of(#[trigger] log[i], name)
}

/// Whether a name is out of the question for a merged name: the log
/// declares it, or it is the name that an arm left the variable under.
pub open spec fn taken(
    log: Seq<LirView>,
    a: Option<Seq<char>>,
    b: Option<Seq<char>>,
    name: Seq<char>,
) -> bool {
    declares(log, name) || a == Some(name) || b == Some(name)
}

/// One for a name of at least `n` characters, nothing for a shorter one or
/// for none.
pub open spec fn long_name(name: Option<Seq<char>>, n: nat) -> nat {
    match name {
        Some(x) => if x.len() >= n {
            1
        } else {
            0
        },
        None => 0,
    }
}

/// The number of entries of a log that declare a name of at least `n`
/// characters.
pub open spec fn long_declarations(log: Seq<LirView>, n: nat) -> nat
    decreases log.len(),
{
    if log.len() == 0 {
        0
    } else {
        long_declarations(log.drop_last(), n) + match log.last().kind {
            LirKindView::Declaration { name, ty } => long_name(Some(name), n),
            _ => 0,
        }
    }
}

/// How many of the names that are out of the question have at least `n`
/// characters. The search for a merged name ends because this number falls.
pub open spec fn room(log: Seq<LirView>, a: Option<Seq<char>>, b: Option<Seq<char>>, n: nat)
    -> nat {
    long_declarations(log, n) + long_name(a, n) + long_name(b, n)
}

/// No more declarations are long by a greater measure; and a declaration of
/// exactly `n` characters is long by `n` and not by `n + 1`.
pub proof fn lemma_long_declarations(log: Seq<LirView>, name: Seq<char>)
    ensures
        long_declarations(log, name.len() + 1) <= long_declarations(log, name.len()),
        declares(log, name) ==> long_declarations(log, name.len() + 1) < long_declarations(
            log,
            name.len(),
        ),
    decreases log.len(),
{
    if log.len() > 0 {
        let rest = log.drop_last();
        lemma_long_declarations(rest, name);
        if declares(log, name) && !is_declaration_of(log.last(), name) {
            let i = choose|i: int| 0 <= i < log.len() && is_declaration_of(#[trigger] log[i], name);
            assert(is_declaration_of(rest[i], name));
        }
    }
}

/// A name that is out of the question leaves less room behind it.
pub proof fn lemma_room(
    log: Seq<LirView>,
    a: Option<Seq<char>>,
    b: Option<Seq<char>>,
    name: Seq<char>,
)
    requires
        taken(log, a, b, name),
    ensures
        room(log, a, b, name.len() + 1) < room(log, a, b, name.len()),
{
    lemma_long_declarations(log, name);
}

/// The first of `name`, `name+`, `name++`, ... that is not out of the
/// question.
pub open spec fn fresh_name(
    name: Seq<char>,
    log: Seq<LirView>,
    a: Option<Seq<char>>,
    b: Option<Seq<char>>,
) -> Seq<char>
    decreases room(log, a, b, name.len()),
{
    if taken(log, a, b, name) {
        proof {
            lemma_room(log, a, b, name);
        }
        fresh_name(marked_text(name), log, a, b)
    } else {
        name
    }
}

/// The merged name of a variable: fresh, that is, neither declared in the
/// log so far nor the name that an arm left the variable under; and formed
/// from the parent's name by markers, at least one.
pub open spec fn phi_name(
    var: VarView,
    first: ArmView,
    second: Option<ArmView>,
    log: Seq<LirView>,
) -> Seq<char> {
    fresh_name(
        marked_text(var.name),
        log,
        renamed_in(first, var),
        renamed_in_second(second, var),
    )
}

/// The entries that merging one variable adds to the parent, whose log so
/// far is `log`: nothing where no arm renamed it; else the declaration of the
/// merged name and, for each arm that renamed it, the equality with that arm's
/// name.
pub open spec fn phi_entries(
    var: VarView,
    first: ArmView,
    second: Option<ArmView>,
    log: Seq<LirView>,
) -> Seq<LirView> {
    let a = renamed_in(first, var);
    let b = renamed_in_second(second, var);
    let phi = phi_name(var, first, second, log);
    if a is Some && b is Some {
        seq![
            declaration(phi, var.ty, last_span(first.ctxt.path)),
            phi_equality(first, phi, a->0),
            phi_equality(second->0, phi, b->0),
        ]
    } else if a is Some {
        seq![declaration(phi, var.ty, last_span(first.ctxt.path)), phi_equality(first, phi, a->0)]
    } else if b is Some {
        seq![
            declaration(phi, var.ty, last_span(second->0.ctxt.path)),
            phi_equality(second->0, phi, b->0),
        ]
    } else {
        Seq::empty()
    }
}

/// The binding of a variable after the merge: the merged name where an arm
/// renamed it, else the binding it had.
pub open spec fn phi_var(var: VarView, first: ArmView, second: Option<ArmView>, log: Seq<LirView>)
    -> VarView {
    if is_renamed(var, first, second) {
        VarView { id: var.id, name: phi_name(var, first, second, log), ty: var.ty }
    } else {
        var
    }
}

/// The log `base` with the merge entries of the variables behind it, in the
/// order of the map. Each variable is merged against the log as it stands
/// when its turn comes, so that no two of them get the same merged name.
pub open spec fn merged_log(
    base: Seq<LirView>,
    vars: Seq<VarView>,
    first: ArmView,
    second: Option<ArmView>,
) -> Seq<LirView>
    decreases vars.len(),
{
    if vars.len() == 0 {
        base
    } else {
        let before = merged_log(base, vars.drop_last(), first, second);
        before + phi_entries(vars.last(), first, second, before)
    }
}

/// The map after the merge: each variable as merging left it, in its place.
pub open spec fn phi_vars(
    base: Seq<LirView>,
    vars: Seq<VarView>,
    first: ArmView,
    second: Option<ArmView>,
) -> Seq<VarView> {
    Seq::new(
        vars.len(),
        |i: int| phi_var(vars[i], first, second, merged_log(base, vars.take(i), first, second)),
    )
}

pub open spec fn adapted_second(second: Option<ArmView>) -> Seq<LirView> {
    match second {
        Some(arm) => adapted(None, arm.ctxt.path),
        None => Seq::empty(),
    }
}

/// The log of the parent once the entries of the finished scopes are taken
/// over, before any variable is merged.
pub open spec fn taken_over(parent: ContextView, first: ArmView, second: Option<ArmView>) -> Seq<
    LirView,
> {
    parent.path + adapted(None, first.ctxt.path) + adapted_second(second)
}

/// The parent after it has taken over one or two finished scopes: its log,
/// then what the first scope logged, then what the second logged, then the
/// merge entries of its variables; its map with each renamed variable under
/// its merged name.
pub open spec fn absorbed(parent: ContextView, first: ArmView, second: Option<ArmView>)
    -> ContextView {
    ContextView {
        name: parent.name,
        path: merged_log(taken_over(parent, first, second), parent.vars, first, second),
        vars: phi_vars(taken_over(parent, first, second), parent.vars, first, second),
    }
}

/// A copy of `path` as the parent takes it over under `guard`.
pub fn adapt_path(guard: &Option<String>, path: &VecDeque<Lir>) -> (r: VecDeque<Lir>)
    ensures
        path_view(r@) == adapted(guard_view(*guard), path_view(path@)),
{
    let mut out: VecDeque<Lir> = VecDeque::new();
    let mut i: usize = 0;
    assert(path_view(path@).take(0) =~= Seq::empty());
    assert(path_view(out@) =~= Seq::empty());
    while i < path.len()
        invariant
            0 <= i <= path.len(),
            path_view(out@) == adapted(guard_view(*guard), path_view(path@).take(i as int)),
        decreases path.len() - i,
    {
        let ghost before = out@;
        let ghost next = path_view(path@).take(i + 1);
        proof {
            assert(next.drop_last() =~= path_view(path@).take(i as int));
            assert(next.last() == path@[i as int]@);
        }
        let lir = &path[i];
        match &lir.kind {
            LirKind::Declaration { .. } => {
                out.push_back(lir.duplicate());
                assert(path_view(out@) =~= path_view(before).push(lir@));
            },
            LirKind::Assume(constraint) => {
                match guard {
                    Some(g) => {
                        if *constraint != *g {
                            let wrapped = implication(g.as_str(), constraint.as_str());
                            let entry = Lir::new_assume(wrapped, lir.span);
                            out.push_back(entry);
                            assert(path_view(out@) =~= path_view(before).push(entry@));
                        }
                    },
                    None => {
                        out.push_back(lir.duplicate());
                        assert(path_view(out@) =~= path_view(before).push(lir@));
                    },
                }
            },
            LirKind::Assumptions(_) => {},
        }
        assert(path_view(out@) =~= adapted(guard_view(*guard), next));
        i = i + 1;
    }
    assert(path_view(path@).take(path.len() as int) =~= path_view(path@));
    out
}

/// Moves the entries of `more` to the end of `path`.
fn extend_path(path: &mut VecDeque<Lir>, more: VecDeque<Lir>)
    ensures
        path_view(final(path)@) == path_view(old(path)@) + path_view(more@),
{
    let mut more = more;
    let ghost all = more@;
    path.append(&mut more);
    assert(path_view(path@) =~= path_view(old(path)@) + path_view(all));
}

fn latest_span(path: &VecDeque<Lir>) -> (r: Span)
    ensures
        r == last_span(path_view(path@)),
{
    if path.len() > 0 {
        path[path.len() - 1].span
    } else {
        Span { lo: 0, hi: 0 }
    }
}

/// The name that the arm left `var` under, where it is another than `var`'s.
fn renamed(arm: &Arm, var: &Var) -> (r: Option<String>)
    ensures
        guard_view(r) == renamed_in(arm@, var@),
{
    match arm.ctxt.get_var(var.id) {
        Ok((name, _)) => {
            if name != var.name {
                Some(name)
            } else {
                None
            }
        },
        Err(_) => None,
    }
}

fn guarded(guard: &Option<String>, constraint: String) -> (r: String)
    ensures
        r@ == guarded_text(guard_view(*guard), constraint@),
{
    match guard {
        Some(g) => implication(g.as_str(), constraint.as_str()),
        None => constraint,
    }
}

fn equality(arm: &Arm, phi: &String, name: &String) -> (r: Lir)
    ensures
        r@ == phi_equality(arm@, phi@, name@),
{
    Lir::new_assume(
        guarded(&arm.guard, equal(phi.as_str(), name.as_str())),
        latest_span(&arm.ctxt.path),
    )
}

/// Whether `path` declares `name`.
fn is_declared(path: &VecDeque<Lir>, name: &String) -> (r: bool)
    ensures
        r == declares(path_view(path@), name@),
{
    let mut i: usize = 0;
    while i < path.len()
        invariant
            0 <= i <= path.len(),
            forall|j: int| 0 <= j < i ==> !is_declaration_of(#[trigger] path_view(path@)[j], name@),
        decreases path.len() - i,
    {
        assert(path_view(path@)[i as int] == path@[i as int]@);
        match &path[i].kind {
            LirKind::Declaration { name: declared, .. } => {
                if *declared == *name {
                    return true;
                }
            },
            _ => {},
        }
        i = i + 1;
    }
    false
}

fn is_name(name: &Option<String>, candidate: &String) -> (r: bool)
    ensures
        r == (guard_view(*name) == Some(candidate@)),
{
    match name {
        Some(n) => *n == *candidate,
        None => false,
    }
}

/// The first of `name`, `name+`, `name++`, ... that `path` does not declare
/// and that is neither `a` nor `b`.
fn fresh(path: &VecDeque<Lir>, a: &Option<String>, b: &Option<String>, name: String) -> (r: String)
    ensures
        r@ == fresh_name(name@, path_view(path@), guard_view(*a), guard_view(*b)),
{
    let ghost log = path_view(path@);
    let ghost goal = fresh_name(name@, log, guard_view(*a), guard_view(*b));
    let mut candidate = name;
    loop
        invariant
            log == path_view(path@),
            fresh_name(candidate@, log, guard_view(*a), guard_view(*b)) == goal,
        ensures
            candidate@ == goal,
        decreases room(log, guard_view(*a), guard_view(*b), candidate@.len()),
    {
        let used = is_declared(path, &candidate) || is_name(a, &candidate) || is_name(
            b,
            &candidate,
        );
        if !used {
            break ;
        }
        proof {
            lemma_room(log, guard_view(*a), guard_view(*b), candidate@);
        }
        candidate.push('+');
    }
    candidate
}

impl Context {
    /// Takes over one or two finished scopes: see `absorbed`.
    pub fn absorb(&mut self, first: &Arm, second: &Option<Arm>)
        requires
            old(self).wf(),
        ensures
            final(self)@ == absorbed(old(self)@, first@, arm_view(*second)),
            final(self).wf(),
    {
        let ghost parent = self@;
        let ghost a1 = first@;
        let ghost a2 = arm_view(*second);
        extend_path(&mut self.path, adapt_path(&None, &first.ctxt.path));
        match second {
            Some(arm) => {
                extend_path(&mut self.path, adapt_path(&None, &arm.ctxt.path));
            },
            None => {
                assert(path_view(self.path@) + Seq::<LirView>::empty() =~= path_view(self.path@));
            },
        }
        let ghost base = taken_over(parent, a1, a2);
        assert(path_view(self.path@) == base);
        let mut i: usize = 0;
        assert(parent.vars.take(0) =~= Seq::empty());
        while i < self.var_map.len()
            invariant
                0 <= i <= self.var_map.len(),
                a1 == first@,
                a2 == arm_view(*second),
                self.name == old(self).name,
                parent == old(self)@,
                base == taken_over(parent, a1, a2),
                self.var_map.len() == parent.vars.len(),
                path_view(self.path@) == merged_log(base, parent.vars.take(i as int), a1, a2),
                forall|j: int|
                    0 <= j < i ==> vars_view(self.var_map@)[j] == phi_var(
                        parent.vars[j],
                        a1,
                        a2,
                        merged_log(base, parent.vars.take(j), a1, a2),
                    ),
                forall|j: int|
                    i <= j < parent.vars.len() ==> vars_view(self.var_map@)[j] == parent.vars[j],
            decreases self.var_map.len() - i,
        {
            let ghost var = parent.vars[i as int];
            let ghost log = path_view(self.path@);
            let ghost vars = vars_view(self.var_map@);
            proof {
                let next = parent.vars.take(i + 1);
                assert(next.drop_last() =~= parent.vars.take(i as int));
                assert(next.last() == var);
                assert(vars[i as int] == self.var_map@[i as int]@);
            }
            let a = renamed(first, &self.var_map[i]);
            let b = match second {
                Some(arm) => renamed(arm, &self.var_map[i]),
                None => None,
            };
            if a.is_some() || b.is_some() {
                let id = self.var_map[i].id;
                let ty = self.var_map[i].ty;
                let phi = fresh(&self.path, &a, &b, marked(self.var_map[i].name.as_str()));
                let span = match (&a, second) {
                    (None, Some(arm)) => latest_span(&arm.ctxt.path),
                    _ => latest_span(&first.ctxt.path),
                };
                let decl = Lir::new_parameter(phi.clone(), ty, span);
                self.path.push_back(decl);
                assert(path_view(self.path@) =~= log.push(decl@));
                match &a {
                    Some(name) => {
                        let ghost log1 = path_view(self.path@);
                        let eq = equality(first, &phi, name);
                        self.path.push_back(eq);
                        assert(path_view(self.path@) =~= log1.push(eq@));
                    },
                    None => {},
                }
                match (&b, second) {
                    (Some(name), Some(arm)) => {
                        let ghost log2 = path_view(self.path@);
                        let eq = equality(arm, &phi, name);
                        self.path.push_back(eq);
                        assert(path_view(self.path@) =~= log2.push(eq@));
                    },
                    _ => {},
                }
                self.var_map.set(i, Var { id, name: phi, ty });
                assert(vars_view(self.var_map@) =~= vars.update(
                    i as int,
                    phi_var(var, a1, a2, log),
                ));
            }
            assert(path_view(self.path@) =~= log + phi_entries(var, a1, a2, log));
            assert(path_view(self.path@) =~= merged_log(base, parent.vars.take(i + 1), a1, a2));
            i = i + 1;
        }
        assert(parent.vars.take(parent.vars.len() as int) =~= parent.vars);
        assert(vars_view(self.var_map@) =~= phi_vars(base, parent.vars, a1, a2));
        assert forall|i: int, j: int| 0 <= i < j < self@.vars.len() implies self@.vars[i].id
            != self@.vars[j].id by {
            assert(self@.vars[i].id == parent.vars[i].id);
            assert(self@.vars[j].id == parent.vars[j].id);
        }
    }
}

pub open spec fn ctxt_view(ctxt: Option<Context>) -> Option<ContextView> {
    match ctxt {
        Some(c) => Some(c@),
        None => None,
    }
}

impl<'a> Analyzer<'a> {
    /// Enters a nested scope: see `entered`.
    pub fn save_and_switch_ctxt(&mut self, name: String, span: Span) -> (r: Result<
        (),
        AnalysisError,
    >)
        ensures
            final(self).follows(old(self), r, entered(old(self)@, name@, span)),
    {
        let text = match self.get_current_assumptions() {
            Ok(text) => text,
            Err(e) => {
                return Err(e);
            },
        };
        let mut new_path: VecDeque<Lir> = VecDeque::new();
        let seed = Lir::new_assumptions(text, span);
        new_path.push_back(seed);
        assert(path_view(new_path@) =~= seq![seed@]);
        let vars = duplicate_vars(&self.current_context.var_map);
        let mut ctxt = Context { name, path: new_path, var_map: vars };
        core::mem::swap(&mut self.current_context, &mut ctxt);
        self.context_stack.push(ctxt);
        assert(contexts_view(self.context_stack@) =~= contexts_view(old(self).context_stack@).push(
            old(self).current_context@,
        ));
        Ok(())
    }

    /// Leaves the nested scope and hands it out: see `left`.
    pub fn restore_ctxt(&mut self) -> (child: Context)
        requires
            old(self)@.stack.len() > 0,
        ensures
            final(self).fn_map == old(self).fn_map,
            final(self)@ == left(old(self)@),
            child@ == old(self)@.current,
            old(self).wf() ==> final(self).wf() && child.wf(),
    {
        let ghost stack = contexts_view(self.context_stack@);
        let mut ctxt = self.context_stack.pop().unwrap();
        assert(contexts_view(self.context_stack@) =~= stack.drop_last());
        assert(ctxt@ == stack.last());
        core::mem::swap(&mut self.current_context, &mut ctxt);
        ctxt
    }

    /// Takes the scope of an inlined call over: see `merged_call`.
    pub fn merge_ctxt(&mut self, ctxt: Context)
        requires
            old(self).wf(),
        ensures
            final(self).fn_map == old(self).fn_map,
            final(self)@ == merged_call(old(self)@, ctxt@),
            final(self).wf(),
    {
        let arm = Arm { guard: None, ctxt };
        self.current_context.absorb(&arm, &None);
        assert(self@.stack == old(self)@.stack);
    }

    /// Takes the scopes of the two arms of a branch over: see
    /// `merged_branch`.
    pub fn merge_then_else_ctxt(
        &mut self,
        cond_str: String,
        then_ctxt: Context,
        else_ctxt: Option<Context>,
    )
        requires
            old(self).wf(),
        ensures
            final(self).fn_map == old(self).fn_map,
            final(self)@ == merged_branch(old(self)@, cond_str@, then_ctxt@, ctxt_view(else_ctxt)),
            final(self).wf(),
    {
        let then_ctxt = Analyzer::adapt_cond_to_path(&cond_str, then_ctxt);
        let second = match else_ctxt {
            Some(else_ctxt) => {
                let not_cond = negated(cond_str.as_str());
                let else_ctxt = Analyzer::adapt_cond_to_path(&not_cond, else_ctxt);
                Some(Arm { guard: Some(not_cond), ctxt: else_ctxt })
            },
            None => None,
        };
        let first = Arm { guard: Some(cond_str), ctxt: then_ctxt };
        self.current_context.absorb(&first, &second);
        assert(self@.stack == old(self)@.stack);
    }

    /// Puts the log of a finished arm under the arm's guard: see
    /// `adapted_ctxt`.
    pub fn adapt_cond_to_path(cond_str: &String, ctxt: Context) -> (r: Context)
        ensures
            r@ == adapted_ctxt(cond_str@, ctxt@),
    {
        let mut ctxt = ctxt;
        let guard = Some(cond_str.clone());
        ctxt.path = adapt_path(&guard, &ctxt.path);
        ctxt
    }
}

} // verus!
