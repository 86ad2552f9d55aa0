//! A scope of the analysis: its name, its path log and its variable map.
//!
//! The path log only grows, at its back. The variable map keeps its variables in the
//! order in which they were first bound, so that whatever walks it does so in
//! one fixed order; a scope in order binds no variable twice.
use std::collections::VecDeque;
use vstd::prelude::*;
use vstd::string::*;
use crate::error::{AnalysisError, AnalysisErrorView, result_view, unsupported, unsupported_view};
use crate::lir::{Lir, LirKind, LirView, refute_text, smt_text};
use crate::tree::{Span, Ty};

verus! {

broadcast use vstd::std_specs::vecdeque::group_vec_dequeue_axioms;

/// What a variable is bound to: its current symbolic name and its type.
#[derive(Clone, Debug, PartialEq, Eq)]
pub struct Var {
    pub id: u64,
    pub name: String,
    pub ty: Ty,
}

pub struct VarView {
    pub id: u64,
    pub name: Seq<char>,
    pub ty: Ty,
}

impl View for Var {
    type V = VarView;

    open spec fn view(&self) -> VarView {
        VarView { id: self.id, name: self.name@, ty: self.ty }
    }
}

pub open spec fn vars_view(vars: Seq<Var>) -> Seq<VarView> {
    vars.map_values(|v: Var| v@)
}

pub open spec fn path_view(path: Seq<Lir>) -> Seq<LirView> {
    path.map_values(|l: Lir| l@)
}

/// The binding of `id`: the first one in the map that carries it.
pub open spec fn lookup(vars: Seq<VarView>, id: u64) -> Option<VarView>
    decreases vars.len(),
{
    if vars.len() == 0 {
        None
    } else if vars.first().id == id {
        Some(vars.first())
    } else {
        lookup(vars.drop_first(), id)
    }
}

/// The map with `var` bound: in the place of the binding that its variable
/// had, or behind all others where it had none.
pub open spec fn inserted(vars: Seq<VarView>, var: VarView) -> Seq<VarView>
    decreases vars.len(),
{
    if vars.len() == 0 {
        seq![var]
    } else if vars.first().id == var.id {
        seq![var] + vars.drop_first()
    } else {
        seq![vars.first()] + inserted(vars.drop_first(), var)
    }
}

/// Whether a map binds no variable twice.
pub open spec fn distinct_ids(vars: Seq<VarView>) -> bool {
    forall|i: int, j: int| 0 <= i < j < vars.len() ==> vars[i].id != vars[j].id
}

/// Binding a variable in a map that binds none twice gives such a map.
pub proof fn lemma_inserted_distinct(vars: Seq<VarView>, var: VarView, k: int)
    requires
        distinct_ids(vars),
        0 <= k <= vars.len(),
        forall|j: int| 0 <= j < k ==> vars[j].id != var.id,
        k < vars.len() ==> vars[k].id == var.id,
    ensures
        distinct_ids(inserted(vars, var)),
{
    lemma_inserted_at(vars, var, k);
    if k < vars.len() {
        let after = vars.update(k, var);
        assert forall|i: int, j: int| 0 <= i < j < after.len() implies after[i].id
            != after[j].id by {
            assert(after[i].id == vars[i].id);
            assert(after[j].id == vars[j].id);
        }
    } else {
        let after = vars.push(var);
        assert forall|i: int, j: int| 0 <= i < j < after.len() implies after[i].id
            != after[j].id by {
            if j < vars.len() {
                assert(after[i] == vars[i] && after[j] == vars[j]);
            }
        }
    }
}

/// With the first binding of the variable at `k`, binding it anew replaces
/// that entry; with none at all, it adds one at the end.
pub proof fn lemma_inserted_at(vars: Seq<VarView>, var: VarView, k: int)
    requires
        0 <= k <= vars.len(),
        forall|j: int| 0 <= j < k ==> vars[j].id != var.id,
        k < vars.len() ==> vars[k].id == var.id,
    ensures
        inserted(vars, var) == if k < vars.len() {
            vars.update(k, var)
        } else {
            vars.push(var)
        },
    decreases vars.len(),
{
    if vars.len() == 0 {
        assert(seq![var] =~= vars.push(var));
    } else if k == 0 {
        assert(seq![var] + vars.drop_first() =~= vars.update(0, var));
    } else {
        let rest = vars.drop_first();
        assert forall|j: int| 0 <= j < k - 1 implies rest[j].id != var.id by {
            assert(rest[j] == vars[j + 1]);
        }
        lemma_inserted_at(rest, var, k - 1);
        if k < vars.len() {
            assert(seq![vars.first()] + rest.update(k - 1, var) =~= vars.update(k, var));
        } else {
            assert(seq![vars.first()] + rest.push(var) =~= vars.push(var));
        }
    }
}

/// With no binding of `id` before `k` and one at `k`, the lookup finds that
/// one; with none at all, it finds nothing.
pub proof fn lemma_lookup_at(vars: Seq<VarView>, id: u64, k: int)
    requires
        0 <= k <= vars.len(),
        forall|j: int| 0 <= j < k ==> vars[j].id != id,
        k < vars.len() ==> vars[k].id == id,
    ensures
        lookup(vars, id) == if k < vars.len() {
            Some(vars[k])
        } else {
            None
        },
    decreases vars.len(),
{
    if vars.len() == 0 {
    } else if k == 0 {
    } else {
        let rest = vars.drop_first();
        assert forall|j: int| 0 <= j < k - 1 implies rest[j].id != id by {
            assert(rest[j] == vars[j + 1]);
        }
        lemma_lookup_at(rest, id, k - 1);
    }
}

/// The solver text of a path log: the statements of its entries, one after
/// the other. The first entry that has no statement decides the error.
pub open spec fn rendered(path: Seq<LirView>) -> Result<Seq<char>, AnalysisErrorView>
    decreases path.len(),
{
    if path.len() == 0 {
        Ok(Seq::empty())
    } else {
        match rendered(path.drop_last()) {
            Err(e) => Err(e),
            Ok(text) => match smt_text(path.last()) {
                Err(e) => Err(e),
                Ok(statement) => Ok(text + statement),
            },
        }
    }
}

/// The solver text that asks whether the last entry can fail: all entries
/// before it as they are, and the last one negated. A log that does not end
/// with an assumption holds nothing to check and is refused.
pub open spec fn rendered_for_check(path: Seq<LirView>) -> Result<Seq<char>, AnalysisErrorView> {
    if path.len() == 0 || !(path.last().kind is Assume) {
        Err(unsupported_view("Nothing to check"@))
    } else {
        match rendered(path.drop_last()) {
            Err(e) => Err(e),
            Ok(text) => Ok(text + refute_text(path.last())),
        }
    }
}

#[derive(Clone, Debug, PartialEq, Eq)]
pub struct Context {
    pub name: String,
    pub path: VecDeque<Lir>,
    pub var_map: Vec<Var>,
}

#[verifier::ext_equal]
pub struct ContextView {
    pub name: Seq<char>,
    pub path: Seq<LirView>,
    pub vars: Seq<VarView>,
}

impl View for Context {
    type V = ContextView;

    open spec fn view(&self) -> ContextView {
        ContextView {
            name: self.name@,
            path: path_view(self.path@),
            vars: vars_view(self.var_map@),
        }
    }
}

/// The scope with one more entry at the end of its log.
pub open spec fn logged(c: ContextView, entry: LirView) -> ContextView {
    ContextView { name: c.name, path: c.path.push(entry), vars: c.vars }
}

/// The scope with `var` bound.
pub open spec fn bound(c: ContextView, var: VarView) -> ContextView {
    ContextView { name: c.name, path: c.path, vars: inserted(c.vars, var) }
}

/// A copy of a variable map.
pub fn duplicate_vars(vars: &Vec<Var>) -> (r: Vec<Var>)
    ensures
        vars_view(r@) == vars_view(vars@),
{
    let mut out: Vec<Var> = Vec::new();
    let mut i: usize = 0;
    while i < vars.len()
        invariant
            0 <= i <= vars.len(),
            vars_view(out@) == vars_view(vars@.take(i as int)),
        decreases vars.len() - i,
    {
        let v = &vars[i];
        let ghost before = out@;
        out.push(Var { id: v.id, name: v.name.clone(), ty: v.ty });
        proof {
            let next = vars@.take(i + 1);
            assert(next.drop_last() =~= vars@.take(i as int));
            assert(vars_view(next) =~= vars_view(next.drop_last()).push(next.last()@));
            assert(vars_view(out@) =~= vars_view(before).push(out@.last()@));
        }
        i = i + 1;
    }
    assert(vars@.take(vars.len() as int) =~= vars@);
    out
}

impl Context {
    /// Whether the scope is in order: its map binds no variable twice.
    pub open spec fn wf(&self) -> bool {
        distinct_ids(self@.vars)
    }

    /// The scope of the entry function: named `main`, with nothing logged
    /// and nothing bound.
    pub fn new() -> (r: Context)
        ensures
            r@.name == "main"@,
            r@.path.len() == 0,
            r@.vars.len() == 0,
            r.wf(),
    {
        Context { name: String::from_str("main"), path: VecDeque::new(), var_map: Vec::new() }
    }

    /// A scope made of its three parts.
    pub fn from(name: String, path: VecDeque<Lir>, var_map: Vec<Var>) -> (r: Context)
        requires
            distinct_ids(vars_view(var_map@)),
        ensures
            r@.name == name@,
            r@.path == path_view(path@),
            r@.vars == vars_view(var_map@),
            r.wf(),
    {
        Context { name, path, var_map }
    }

    /// A copy of the scope's name.
    pub fn name(&self) -> (r: String)
        ensures
            r@ == self@.name,
    {
        self.name.clone()
    }

    /// The number of entries in the scope's log.
    pub fn len(&self) -> (r: usize)
        ensures
            r == self@.path.len(),
    {
        self.path.len()
    }

    /// The query text of the scope: see `rendered_for_check`.
    pub fn get_assumptions_for_verify(&self) -> (r: Result<String, AnalysisError>)
        ensures
            result_view(r) == rendered_for_check(self@.path),
    {
        let mut smt = String::new();
        let len = self.len();
        if len == 0 {
            return Err(unsupported("Nothing to check"));
        }
        assert(self@.path.last() == self.path@[len - 1]@);
        match &self.path[len - 1].kind {
            LirKind::Assume(_) => {},
            _ => {
                return Err(unsupported("Nothing to check"));
            },
        }
        let mut cnt: usize = 0;
        while cnt < len - 1
            invariant
                0 <= cnt <= len - 1,
                len == self.path.len(),
                self@.path.last().kind is Assume,
                rendered(self@.path.drop_last().take(cnt as int)) == Ok::<
                    Seq<char>,
                    AnalysisErrorView,
                >(smt@),
            decreases len - cnt,
        {
            proof {
                let next = self@.path.drop_last().take(cnt + 1);
                assert(next.drop_last() =~= self@.path.drop_last().take(cnt as int));
                assert(next.last() == self.path@[cnt as int]@);
            }
            match self.get_assumption(cnt).to_smt() {
                Ok(statement) => smt.append(statement.as_str()),
                Err(e) => {
                    proof {
                        lemma_rendered_fails(self@.path.drop_last(), cnt + 1);
                    }
                    return Err(e);
                },
            }
            cnt = cnt + 1;
        }
        assert(self@.path.drop_last().take(cnt as int) =~= self@.path.drop_last());
        smt.append(self.get_assumption(cnt).to_assert().as_str());
        Ok(smt)
    }

    /// The solver text of the scope's log: see `rendered`.
    pub fn get_assumptions(&self) -> (r: Result<String, AnalysisError>)
        ensures
            result_view(r) == rendered(self@.path),
    {
        let mut smt = String::new();
        let mut i: usize = 0;
        while i < self.path.len()
            invariant
                0 <= i <= self.path.len(),
                rendered(self@.path.take(i as int)) == Ok::<Seq<char>, AnalysisErrorView>(smt@),
            decreases self.path.len() - i,
        {
            proof {
                let next = self@.path.take(i + 1);
                assert(next.drop_last() =~= self@.path.take(i as int));
                assert(next.last() == self.path@[i as int]@);
            }
            match self.path[i].to_smt() {
                Ok(statement) => smt.append(statement.as_str()),
                Err(e) => {
                    proof {
                        lemma_rendered_fails(self@.path, i + 1);
                    }
                    return Err(e);
                },
            }
            i = i + 1;
        }
        assert(self@.path.take(self.path.len() as int) =~= self@.path);
        Ok(smt)
    }

    /// The entry at an index of the log.
    pub fn get_assumption(&self, index: usize) -> (r: &Lir)
        requires
            index < self@.path.len(),
        ensures
            r@ == self@.path[index as int],
    {
        &self.path[index]
    }

    /// The span of the entry that was logged last.
    pub fn get_latest_span(&self) -> (r: Span)
        requires
            self@.path.len() > 0,
        ensures
            r == self@.path.last().span,
    {
        self.path[self.path.len() - 1].get_span()
    }

    /// Puts an entry at the end of the log.
    pub fn add_assumption(&mut self, lir: Lir)
        ensures
            final(self)@ == logged(old(self)@, lir@),
    {
        self.path.push_back(lir);
        assert(path_view(self.path@) =~= path_view(old(self).path@).push(lir@));
    }

    /// Binds a variable to a symbolic name: see `inserted`.
    pub fn insert_var(&mut self, var_id: u64, name: String, ty: Ty)
        ensures
            final(self)@ == bound(old(self)@, (VarView { id: var_id, name: name@, ty })),
            old(self).wf() ==> final(self).wf(),
    {
        let ghost var = VarView { id: var_id, name: name@, ty };
        let ghost vars = self@.vars;
        let mut i: usize = 0;
        while i < self.var_map.len()
            invariant
                0 <= i <= self.var_map.len(),
                self.name == old(self).name,
                self.path == old(self).path,
                vars_view(self.var_map@) == vars,
                vars == old(self)@.vars,
                var == (VarView { id: var_id, name: name@, ty }),
                forall|j: int| 0 <= j < i ==> vars[j].id != var_id,
            decreases self.var_map.len() - i,
        {
            assert(vars[i as int] == self.var_map@[i as int]@);
            if self.var_map[i].id == var_id {
                proof {
                    lemma_inserted_at(vars, var, i as int);
                    if distinct_ids(vars) {
                        lemma_inserted_distinct(vars, var, i as int);
                    }
                }
                self.var_map.set(i, Var { id: var_id, name, ty });
                assert(vars_view(self.var_map@) =~= vars.update(i as int, var));
                return ;
            }
            i = i + 1;
        }
        proof {
            lemma_inserted_at(vars, var, i as int);
            if distinct_ids(vars) {
                lemma_inserted_distinct(vars, var, i as int);
            }
        }
        self.var_map.push(Var { id: var_id, name, ty });
        assert(vars_view(self.var_map@) =~= vars.push(var));
    }

    /// The current symbolic name and the type of a variable.
    pub fn get_var(&self, var_id: u64) -> (r: Result<(String, Ty), AnalysisError>)
        ensures
            match r {
                Ok((name, ty)) => lookup(self@.vars, var_id) == Some(
                    VarView { id: var_id, name: name@, ty },
                ),
                Err(e) => lookup(self@.vars, var_id) is None && e@
                    == AnalysisErrorView::UnboundVariable(var_id),
            },
    {
        let mut i: usize = 0;
        while i < self.var_map.len()
            invariant
                0 <= i <= self.var_map.len(),
                forall|j: int| 0 <= j < i ==> self@.vars[j].id != var_id,
            decreases self.var_map.len() - i,
        {
            assert(self@.vars[i as int] == self.var_map@[i as int]@);
            if self.var_map[i].id == var_id {
                proof {
                    lemma_lookup_at(self@.vars, var_id, i as int);
                }
                return Ok((self.var_map[i].name.clone(), self.var_map[i].ty));
            }
            i = i + 1;
        }
        proof {
            lemma_lookup_at(self@.vars, var_id, i as int);
        }
        Err(AnalysisError::UnboundVariable(var_id))
    }
}

/// Once a prefix of a log fails to render, the whole log fails with the
/// same error.
pub proof fn lemma_rendered_fails(path: Seq<LirView>, n: int)
    requires
        0 <= n <= path.len(),
        rendered(path.take(n)) is Err,
    ensures
        rendered(path) == rendered(path.take(n)),
    decreases path.len() - n,
{
    if n == path.len() {
        assert(path.take(n) =~= path);
    } else {
        assert(path.take(n + 1).drop_last() =~= path.take(n));
        lemma_rendered_fails(path, n + 1);
    }
}

} // verus!
