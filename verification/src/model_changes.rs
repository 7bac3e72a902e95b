//! Changes of models and what has to be validated again because of them.
use vstd::prelude::*;

use crate::constants::{BuildStatus, BuildSteps, ModelId, SymType, SymbolId};
use crate::handles::{held, Handle};
use crate::model::Model;
use crate::odoo::{members, members_are_exact, Request, SessionInfo, SyncOdoo};
use crate::symbols::Symbol;
use crate::xml_ids::names_stay_apart;

verus! {

impl SyncOdoo {
    /// Whether a change in a module matters to the symbol at `id`: it does where either
    /// module is unknown, or the symbol's module is or depends on the changed one.
    pub open spec fn affected_by(self, id: SymbolId, module_change: Option<SymbolId>) -> bool {
        module_change is Some && self.sym(id).module is Some ==> self.in_deps(
            self.sym(id).module->0,
            self.dir_of(module_change->0),
        )
    }

    /// The symbols that depend on a model, in ascending order.
    pub open spec fn dependents(self, model: ModelId) -> Seq<SymbolId> {
        members(self.symbols@, held(self.models@[model as int].dependents))
    }

    /// The symbols that a change of the model in a module matters to.
    pub open spec fn affected(self, model: ModelId, module_change: Option<SymbolId>) -> Seq<
        SymbolId,
    > {
        self.dependents(model).filter(|id: SymbolId| self.affected_by(id, module_change))
    }
}

/// Whether `b` is `a`, models left aside, after what depends on a model was told of a
/// change: the functions inside every dependent are to be evaluated again, the affected
/// dependents wait for validation, and those that are functions wait for evaluation.
pub open spec fn told(
    a: SessionInfo,
    b: SessionInfo,
    model: ModelId,
    module_change: Option<SymbolId>,
) -> bool {
    let x = a.sync_odoo;
    let y = b.sync_odoo;
    let affected = x.affected(model, module_change);
    &&& a.disabled_codes == b.disabled_codes
    &&& a.messages == b.messages
    &&& b.requests@ == a.requests@ + x.dependents(model).map_values(
        |id: SymbolId| Request::InvalidateSubFunctions(id),
    )
    &&& x.full_version == y.full_version
    &&& x.modules == y.modules
    &&& x.main_entry == y.main_entry
    &&& x.files == y.files
    &&& forall|h: Handle| #[trigger]
        held(y.rebuild_validation).contains(h) <==> held(x.rebuild_validation).contains(h)
            || exists|k: int| 0 <= k < affected.len() && x.sym(#[trigger] affected[k]).handle == h
    &&& x.symbols@.len() == y.symbols@.len()
    &&& forall|i: int|
        0 <= i < x.symbols@.len() ==> #[trigger] y.symbols@[i] == if affected.contains(
            i as usize,
        ) {
            Some(x.symbols@[i]->0.with_status(BuildSteps::ARCH_EVAL, BuildStatus::PENDING))
        } else {
            x.symbols@[i]
        }
}

/// Whether `b` is `a` after the class at `symbol` was added to a model: nothing changes
/// if it was there; else the model has it and all that depends on the model was told,
/// whatever its module.
pub open spec fn added(a: SessionInfo, b: SessionInfo, model: ModelId, symbol: SymbolId) -> bool {
    let before = a.sync_odoo;
    let handle = before.sym(symbol).handle;
    let models = b.sync_odoo.models@;
    if held(before.models@[model as int].symbols).contains(handle) {
        b == a
    } else {
        &&& told(a, b, model, None)
        &&& models == before.models@.update(model as int, models[model as int])
        &&& same_but_symbols(before.models@[model as int], models[model as int])
        &&& held(models[model as int].symbols) == held(
            before.models@[model as int].symbols,
        ).insert(handle)
    }
}

/// Whether `b` is `a` after the class at `symbol` was taken out of a model: the model
/// does not have it, and what depends on the model was told.
pub open spec fn removed(
    a: SessionInfo,
    b: SessionInfo,
    model: ModelId,
    symbol: SymbolId,
    from_module: Option<SymbolId>,
) -> bool {
    let before = a.sync_odoo;
    let models = b.sync_odoo.models@;
    &&& told(a, b, model, from_module)
    &&& models == before.models@.update(model as int, models[model as int])
    &&& same_but_symbols(before.models@[model as int], models[model as int])
    &&& held(models[model as int].symbols) == held(before.models@[model as int].symbols).remove(
        before.sym(symbol).handle,
    )
}

proof fn telling_keeps_symbols(
    a: SessionInfo,
    b: SessionInfo,
    model: ModelId,
    module_change: Option<SymbolId>,
)
    requires
        told(a, b, model, module_change),
        a.sync_odoo.wf(),
        model < a.sync_odoo.models.len(),
    ensures
        forall|id: SymbolId| #[trigger] a.sync_odoo.live(id) == b.sync_odoo.live(id),
        forall|id: SymbolId|
            a.sync_odoo.live(id) ==> (#[trigger] b.sync_odoo.sym(id)).handle == a.sync_odoo.sym(
                id,
            ).handle,
{
    let x = a.sync_odoo;
    let y = b.sync_odoo;
    let test = |id: SymbolId| x.affected_by(id, module_change);
    assert(x.symbols@.len() == x.symbols.len());
    members_are_exact(x.symbols@, held(x.models@[model as int].dependents));
    assert forall|id: SymbolId| #[trigger] x.live(id) == y.live(id) && (x.live(id) ==> y.sym(
        id,
    ).handle == x.sym(id).handle) by {
        if id < x.symbols@.len() {
            assert(y.symbols@[id as int] == y.symbols@[id as int]);
            if x.affected(model, module_change).contains(id) {
                x.dependents(model).lemma_filter_contains_rev(test, id);
            }
        }
    }
}

/// A class that was added is of the model, and adding it again changes nothing.
pub proof fn adding_twice_is_adding_once(
    a: SessionInfo,
    b: SessionInfo,
    c: SessionInfo,
    model: ModelId,
    symbol: SymbolId,
)
    requires
        a.sync_odoo.wf(),
        model < a.sync_odoo.models.len(),
        a.sync_odoo.live(symbol),
        added(a, b, model, symbol),
        added(b, c, model, symbol),
    ensures
        b.sync_odoo.classes(model).contains(symbol),
        c == b,
{
    let handle = a.sync_odoo.sym(symbol).handle;
    if !held(a.sync_odoo.models@[model as int].symbols).contains(handle) {
        telling_keeps_symbols(a, b, model, None);
        assert(b.sync_odoo.live(symbol) == a.sync_odoo.live(symbol));
        assert(b.sync_odoo.sym(symbol).handle == handle);
    }
    assert(b.sync_odoo.symbols@.len() == b.sync_odoo.symbols.len());
    members_are_exact(b.sync_odoo.symbols@, held(b.sync_odoo.models@[model as int].symbols));
}

/// When a class is new to a model, all that depends on the model waits for validation.
pub proof fn new_class_revalidates(
    a: SessionInfo,
    b: SessionInfo,
    model: ModelId,
    symbol: SymbolId,
    dependent: SymbolId,
)
    requires
        added(a, b, model, symbol),
        !held(a.sync_odoo.models@[model as int].symbols).contains(a.sync_odoo.sym(symbol).handle),
        a.sync_odoo.dependents(model).contains(dependent),
    ensures
        held(b.sync_odoo.rebuild_validation).contains(a.sync_odoo.sym(dependent).handle),
{
    let x = a.sync_odoo;
    let all = x.dependents(model);
    let affected = x.affected(model, None);
    let i = choose|i: int| 0 <= i < all.len() && all[i] == dependent;
    all.lemma_filter_contains(|id: SymbolId| x.affected_by(id, None), i);
    let k = choose|k: int| 0 <= k < affected.len() && affected[k] == dependent;
    assert(x.sym(affected[k]).handle == x.sym(dependent).handle);
}

/// A class that was taken out is no longer of the model; the others still are.
pub proof fn removed_is_gone(
    a: SessionInfo,
    b: SessionInfo,
    model: ModelId,
    symbol: SymbolId,
    from_module: Option<SymbolId>,
)
    requires
        a.sync_odoo.wf(),
        model < a.sync_odoo.models.len(),
        a.sync_odoo.live(symbol),
        removed(a, b, model, symbol, from_module),
    ensures
        forall|id: SymbolId| #[trigger]
            b.sync_odoo.classes(model).contains(id) <==> id != symbol && a.sync_odoo.classes(
                model,
            ).contains(id),
{
    let x = a.sync_odoo;
    let y = b.sync_odoo;
    telling_keeps_symbols(a, b, model, from_module);
    assert(x.symbols@.len() == x.symbols.len());
    assert(y.symbols@.len() == y.symbols.len());
    members_are_exact(x.symbols@, held(x.models@[model as int].symbols));
    members_are_exact(y.symbols@, held(y.models@[model as int].symbols));
    assert forall|id: SymbolId| #[trigger] y.classes(model).contains(id) <==> id != symbol
        && x.classes(model).contains(id) by {
        assert(x.live(id) == y.live(id));
        if x.live(id) {
            assert(y.sym(id).handle == x.sym(id).handle);
            assert(x.symbols@[id as int]->0.handle.id() == id);
            assert(x.symbols@[symbol as int]->0.handle.id() == symbol);
        }
    }
}

impl Model {
    /// Tells what depends on the model of a change in a module.
    pub fn add_dependents_to_validation(
        model: ModelId,
        session: &mut SessionInfo,
        module_change: Option<SymbolId>,
    )
        requires
            old(session).sync_odoo.wf(),
            model < old(session).sync_odoo.models.len(),
            module_change is Some ==> old(session).sync_odoo.is_module(module_change->0),
        ensures
            told(*old(session), *final(session), model, module_change),
            final(session).sync_odoo.models == old(session).sync_odoo.models,
    {
        let ghost before = *session;
        let ghost odoo = before.sync_odoo;
        let deps = session.sync_odoo.members_of(&session.sync_odoo.models[model].dependents);
        let ghost test = |id: SymbolId| odoo.affected_by(id, module_change);
        let ghost requested = |id: SymbolId| Request::InvalidateSubFunctions(id);
        proof {
            reveal(Seq::filter);
            assert(odoo.symbols@.len() == odoo.symbols.len());
            members_are_exact(odoo.symbols@, held(odoo.models@[model as int].dependents));
            assert(deps@.take(0).filter(test) =~= Seq::empty());
            assert(session.requests@ =~= before.requests@ + deps@.take(0).map_values(requested));
        }
        let mut affected: Vec<SymbolId> = Vec::new();
        let mut i: usize = 0;
        while i < deps.len()
            invariant
                i <= deps.len(),
                odoo.wf(),
                session.sync_odoo == odoo,
                session.disabled_codes == before.disabled_codes,
                session.messages == before.messages,
                module_change is Some ==> odoo.is_module(module_change->0),
                deps@ == odoo.dependents(model),
                forall|id: SymbolId| #[trigger] deps@.contains(id) ==> odoo.live(id),
                test == (|id: SymbolId| odoo.affected_by(id, module_change)),
                requested == (|id: SymbolId| Request::InvalidateSubFunctions(id)),
                affected@ == deps@.take(i as int).filter(test),
                session.requests@ == before.requests@ + deps@.take(i as int).map_values(requested),
            decreases deps.len() - i,
        {
            let dep: SymbolId = deps[i];
            proof {
                reveal(Seq::filter);
                assert(deps@.take(i + 1).drop_last() =~= deps@.take(i as int));
                assert(deps@.contains(deps@[i as int]));
                assert(odoo.live(dep));
            }
            session.requests.push(Request::InvalidateSubFunctions(dep));
            assert(session.requests@ =~= before.requests@ + deps@.take(i + 1).map_values(requested));
            let matters = match (session.sync_odoo.module_of(dep), module_change) {
                (Some(module), Some(change)) => session.sync_odoo.is_in_deps(
                    module,
                    session.sync_odoo.dir_name(change),
                ),
                _ => true,
            };
            if matters {
                affected.push(dep);
            }
            i = i + 1;
        }
        assert(deps@.take(i as int) =~= deps@);
        let ghost ids = odoo.affected(model, module_change);
        proof {
            assert forall|k: int| 0 <= k < ids.len() implies odoo.live(#[trigger] ids[k]) by {
                assert(ids.contains(ids[k]));
                deps@.lemma_filter_contains_rev(test, ids[k]);
            }
        }
        let mut k: usize = 0;
        while k < affected.len()
            invariant
                k <= affected.len(),
                affected@ == ids,
                forall|j: int| 0 <= j < ids.len() ==> odoo.live(#[trigger] ids[j]),
                odoo == before.sync_odoo,
                session.disabled_codes == before.disabled_codes,
                session.messages == before.messages,
                session.requests@ == before.requests@ + deps@.map_values(requested),
                session.sync_odoo.full_version == odoo.full_version,
                session.sync_odoo.modules == odoo.modules,
                session.sync_odoo.main_entry == odoo.main_entry,
                session.sync_odoo.files == odoo.files,
                session.sync_odoo.models == odoo.models,
                forall|h: Handle| #[trigger]
                    held(session.sync_odoo.rebuild_validation).contains(h) <==> held(
                        odoo.rebuild_validation,
                    ).contains(h) || exists|j: int|
                        0 <= j < k && odoo.sym(#[trigger] ids[j]).handle == h,
                session.sync_odoo.symbols@.len() == odoo.symbols@.len(),
                forall|j: int|
                    0 <= j < odoo.symbols@.len() ==> #[trigger] session.sync_odoo.symbols@[j]
                        == if ids.take(k as int).contains(j as usize) {
                        Some(
                            odoo.symbols@[j]->0.with_status(
                                BuildSteps::ARCH_EVAL,
                                BuildStatus::PENDING,
                            ),
                        )
                    } else {
                        odoo.symbols@[j]
                    },
            decreases affected.len() - k,
        {
            let id: SymbolId = affected[k];
            let ghost now = *session;
            let ghost front = ids.take(k as int);
            let ghost next = ids.take(k + 1);
            proof {
                assert(odoo.live(ids[k as int]));
                assert(next =~= front.push(id));
                assert forall|j: usize| next.contains(j) <==> front.contains(j) || j == id by {
                    if next.contains(j) {
                        let l = choose|l: int| 0 <= l < next.len() && next[l] == j;
                        if l < k {
                            assert(front[l] == j);
                        }
                    }
                    if front.contains(j) {
                        let l = choose|l: int| 0 <= l < front.len() && front[l] == j;
                        assert(next[l] == j);
                    }
                    assert(next[k as int] == id);
                }
                assert(now.sync_odoo.symbols@[id as int] is Some);
            }
            let is_function = match session.sync_odoo.get(id) {
                Some(symbol) => symbol.get_type() == SymType::FUNCTION,
                None => false,
            };
            if is_function {
                session.sync_odoo.set_build_status(id, BuildSteps::ARCH_EVAL, BuildStatus::PENDING);
            }
            session.sync_odoo.add_to_validations(id);
            proof {
                let h = odoo.sym(id).handle;
                assert(now.sync_odoo.sym(id).handle == h);
                assert forall|other: Handle| #[trigger] held(
                    session.sync_odoo.rebuild_validation,
                ).contains(other) <==> held(odoo.rebuild_validation).contains(other) || exists|
                    j: int,
                |
                    0 <= j < k + 1 && odoo.sym(#[trigger] ids[j]).handle == other by {
                    if exists|j: int| 0 <= j < k && odoo.sym(#[trigger] ids[j]).handle == other {
                        let j = choose|j: int|
                            0 <= j < k && odoo.sym(#[trigger] ids[j]).handle == other;
                        assert(0 <= j < k + 1);
                    }
                    if other == h {
                        assert(odoo.sym(ids[k as int]).handle == other);
                    }
                    if exists|j: int| 0 <= j < k + 1 && odoo.sym(#[trigger] ids[j]).handle == other {
                        let j = choose|j: int|
                            0 <= j < k + 1 && odoo.sym(#[trigger] ids[j]).handle == other;
                        if j < k {
                            assert(held(now.sync_odoo.rebuild_validation).contains(other));
                        }
                    }
                }
            }
            k = k + 1;
        }
        assert(ids.take(k as int) =~= ids);
    }

    /// Adds a class to the model and tells all that depends on the model, unless the class
    /// is of the model already.
    pub fn add_symbol(model: ModelId, session: &mut SessionInfo, symbol: SymbolId)
        requires
            old(session).sync_odoo.wf(),
            model < old(session).sync_odoo.models.len(),
            old(session).sync_odoo.live(symbol),
        ensures
            added(*old(session), *final(session), model, symbol),
    {
        let ghost before = *session;
        let handle = match session.sync_odoo.get(symbol) {
            Some(symbol) => symbol.handle.share(),
            None => {
                return;
            },
        };
        if session.sync_odoo.models[model].symbols.contains(&handle) {
            return;
        }
        session.sync_odoo.models[model].symbols.insert(&handle);
        let ghost middle = *session;
        proof {
            names_stay_apart(before.sync_odoo.models@, middle.sync_odoo.models@);
            before.sync_odoo.still_wf(middle.sync_odoo);
        }
        Self::add_dependents_to_validation(model, session, None);
        proof {
            same_telling(before, middle, *session, model, None);
        }
    }

    /// Takes a class out of the model and tells what depends on the model.
    pub fn remove_symbol(
        model: ModelId,
        session: &mut SessionInfo,
        symbol: SymbolId,
        from_module: Option<SymbolId>,
    )
        requires
            old(session).sync_odoo.wf(),
            model < old(session).sync_odoo.models.len(),
            old(session).sync_odoo.live(symbol),
            from_module is Some ==> old(session).sync_odoo.is_module(from_module->0),
        ensures
            removed(*old(session), *final(session), model, symbol, from_module),
    {
        let ghost before = *session;
        let handle = match session.sync_odoo.get(symbol) {
            Some(symbol) => symbol.handle.share(),
            None => {
                return;
            },
        };
        session.sync_odoo.models[model].symbols.remove(&handle);
        let ghost middle = *session;
        proof {
            names_stay_apart(before.sync_odoo.models@, middle.sync_odoo.models@);
            before.sync_odoo.still_wf(middle.sync_odoo);
        }
        Self::add_dependents_to_validation(model, session, from_module);
        proof {
            same_telling(before, middle, *session, model, from_module);
        }
    }

    /// Notes that a symbol depends on the model.
    pub fn add_dependent(&mut self, symbol: &Symbol)
        ensures
            final(self).name == old(self).name,
            final(self).handle == old(self).handle,
            final(self).symbols == old(self).symbols,
            held(final(self).dependents) == held(old(self).dependents).insert(symbol.handle),
    {
        self.dependents.insert(&symbol.handle);
    }
}

/// Whether `b` is `a` but for the classes.
pub open spec fn same_but_symbols(a: Model, b: Model) -> bool {
    a.name == b.name && a.handle == b.handle && a.dependents == b.dependents
}

proof fn same_telling(
    a: SessionInfo,
    b: SessionInfo,
    c: SessionInfo,
    model: ModelId,
    module_change: Option<SymbolId>,
)
    requires
        told(b, c, model, module_change),
        model < a.sync_odoo.models.len(),
        b.sync_odoo.models@.len() == a.sync_odoo.models@.len(),
        b.sync_odoo.models@[model as int].dependents
            == a.sync_odoo.models@[model as int].dependents,
        a.sync_odoo.symbols == b.sync_odoo.symbols,
        a.sync_odoo.modules == b.sync_odoo.modules,
        a.sync_odoo.full_version == b.sync_odoo.full_version,
        a.sync_odoo.main_entry == b.sync_odoo.main_entry,
        a.sync_odoo.files == b.sync_odoo.files,
        a.sync_odoo.rebuild_validation == b.sync_odoo.rebuild_validation,
        a.disabled_codes == b.disabled_codes,
        a.messages == b.messages,
        a.requests == b.requests,
    ensures
        told(a, c, model, module_change),
{
    let x = a.sync_odoo;
    let y = b.sync_odoo;
    assert forall|id: SymbolId| x.affected_by(id, module_change) == y.affected_by(
        id,
        module_change,
    ) by {}
    assert((|id: SymbolId| x.affected_by(id, module_change)) =~= (|id: SymbolId|
        y.affected_by(id, module_change)));
    assert(x.affected(model, module_change) == y.affected(model, module_change));
    assert forall|h: Handle| #[trigger] held(c.sync_odoo.rebuild_validation).contains(h)
        <==> held(x.rebuild_validation).contains(h) || exists|k: int|
        0 <= k < x.affected(model, module_change).len() && x.sym(
            #[trigger] x.affected(model, module_change)[k],
        ).handle == h by {
        let ids = x.affected(model, module_change);
        if exists|k: int| 0 <= k < ids.len() && y.sym(#[trigger] ids[k]).handle == h {
            let k = choose|k: int| 0 <= k < ids.len() && y.sym(#[trigger] ids[k]).handle == h;
            assert(x.sym(ids[k]).handle == h);
        }
        if exists|k: int| 0 <= k < ids.len() && x.sym(#[trigger] ids[k]).handle == h {
            let k = choose|k: int| 0 <= k < ids.len() && x.sym(#[trigger] ids[k]).handle == h;
            assert(y.sym(ids[k]).handle == h);
        }
    }
}

} // verus!
