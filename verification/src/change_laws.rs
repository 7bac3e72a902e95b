//! What a change of a model sets off.
use vstd::prelude::*;

use crate::constants::{BuildStatus, ModelId, SymbolId};
use crate::function_symbol::FunctionSymbol;
use crate::handles::{held, Handle};
use crate::listing_laws::{filter_keeps_passing, has_module, in_deps_is_listed};
use crate::model_changes::{added, removed, told};
use crate::odoo::{members_are_exact, Request, SessionInfo, SyncOdoo};
use crate::symbols::{Symbol, SymbolData};

verus! {

/// Whether the symbol at `id` depends on the model.
pub open spec fn is_dependent(odoo: SyncOdoo, model: ModelId, id: SymbolId) -> bool {
    &&& id < odoo.symbols.len()
    &&& odoo.symbols@[id as int] is Some
    &&& held(odoo.models@[model as int].dependents).contains(odoo.symbols@[id as int]->0.handle)
}

/// Whether a change in a module concerns the symbol at `id`: it does where either module is not
/// known, and where the symbol's module is the changed one or depends on it.
pub open spec fn concerns(odoo: SyncOdoo, change: Option<SymbolId>, id: SymbolId) -> bool {
    let module = odoo.symbols@[id as int]->0.module;
    change is None || module is None || has_module(odoo, module->0, change->0)
}

/// Whether the symbol with the handle waits for validation.
pub open spec fn waits(odoo: SyncOdoo, handle: Handle) -> bool {
    held(odoo.rebuild_validation).contains(handle)
}

/// A symbol, waiting for evaluation if it is a function.
pub open spec fn to_evaluate(symbol: Symbol) -> Symbol {
    match symbol.data {
        SymbolData::Function(f) => Symbol {
            data: SymbolData::Function(
                FunctionSymbol { arch_eval_status: BuildStatus::PENDING, ..f },
            ),
            ..symbol
        },
        _ => symbol,
    }
}

/// Whether, from `a` to `b`, a change of the model in a module set off what it has to, and
/// nothing else. The dependents that it concerns wait for validation, and the functions among
/// them for evaluation; what waited before still waits; nothing else is made to wait. The
/// functions inside every dependent are invalidated, once each.
pub open spec fn sets_off(
    a: SessionInfo,
    b: SessionInfo,
    model: ModelId,
    change: Option<SymbolId>,
) -> bool {
    let x = a.sync_odoo;
    let y = b.sync_odoo;
    let n = a.requests@.len();
    &&& forall|id: SymbolId| #[trigger]
        is_dependent(x, model, id) && concerns(x, change, id) ==> waits(
            y,
            x.symbols@[id as int]->0.handle,
        )
    &&& forall|h: Handle| #[trigger] waits(x, h) ==> waits(y, h)
    &&& forall|h: Handle| #[trigger]
        waits(y, h) && !waits(x, h) ==> exists|id: SymbolId| #[trigger]
            is_dependent(x, model, id) && concerns(x, change, id) && x.symbols@[id as int]->0.handle
                == h
    &&& y.symbols.len() == x.symbols.len()
    &&& forall|id: SymbolId|
        id < x.symbols.len() ==> #[trigger] y.symbols@[id as int] == if is_dependent(x, model, id)
            && concerns(x, change, id) {
            Some(to_evaluate(x.symbols@[id as int]->0))
        } else {
            x.symbols@[id as int]
        }
    &&& n <= b.requests@.len()
    &&& b.requests@.take(n as int) == a.requests@
    &&& forall|id: SymbolId| #[trigger]
        is_dependent(x, model, id) ==> exists|j: int|
            n <= j < b.requests@.len() && #[trigger] b.requests@[j]
                == Request::InvalidateSubFunctions(id)
    &&& forall|j: int|
        n <= j < b.requests@.len() ==> (#[trigger] b.requests@[j] matches
            Request::InvalidateSubFunctions(id) && is_dependent(x, model, id))
    &&& forall|i: int, j: int|
        n <= i < j < b.requests@.len() ==> #[trigger] b.requests@[i] != #[trigger] b.requests@[j]
    &&& b.messages == a.messages
    &&& b.disabled_codes == a.disabled_codes
    &&& y.modules == x.modules
    &&& y.files == x.files
    &&& y.main_entry == x.main_entry
    &&& y.full_version == x.full_version
}

/// After a change of a model in a module, every dependent whose module is that one or depends
/// on it waits for validation, as does every one without a module; no other is made to wait.
pub proof fn change_sets_off(
    a: SessionInfo,
    b: SessionInfo,
    model: ModelId,
    change: Option<SymbolId>,
)
    requires
        told(a, b, model, change),
        model < a.sync_odoo.models.len(),
    ensures
        sets_off(a, b, model, change),
{
    let x = a.sync_odoo;
    let y = b.sync_odoo;
    let n = a.requests@.len();
    let all = x.dependents(model);
    let affected = x.affected(model, change);
    let test = |id: SymbolId| x.affected_by(id, change);
    let requested = |id: SymbolId| Request::InvalidateSubFunctions(id);
    assert(x.symbols@.len() == x.symbols.len());
    members_are_exact(x.symbols@, held(x.models@[model as int].dependents));
    assert forall|id: SymbolId| #[trigger] all.contains(id) <==> is_dependent(x, model, id) by {}
    assert forall|id: SymbolId| x.affected_by(id, change) == #[trigger] concerns(
        x,
        change,
        id,
    ) by {
        if change is Some && x.sym(id).module is Some {
            in_deps_is_listed(x, x.sym(id).module->0, change->0);
        }
    }
    assert forall|id: SymbolId| #[trigger] affected.contains(id) <==> is_dependent(x, model, id)
        && concerns(x, change, id) by {
        assert(concerns(x, change, id) == test(id));
        assert(all.contains(id) <==> is_dependent(x, model, id));
        filter_keeps_passing(all, test, id);
    }
    assert forall|id: SymbolId| #[trigger]
        is_dependent(x, model, id) && concerns(x, change, id) implies waits(
        y,
        x.symbols@[id as int]->0.handle,
    ) by {
        assert(affected.contains(id));
        let k = choose|k: int| 0 <= k < affected.len() && affected[k] == id;
        assert(x.sym(affected[k]).handle == x.symbols@[id as int]->0.handle);
    }
    assert forall|h: Handle| #[trigger] waits(y, h) && !waits(x, h) implies exists|id: SymbolId|
        #[trigger]
        is_dependent(x, model, id) && concerns(x, change, id) && x.symbols@[id as int]->0.handle
            == h by {
        let k = choose|k: int|
            0 <= k < affected.len() && x.sym(#[trigger] affected[k]).handle == h;
        assert(affected.contains(affected[k]));
        assert(is_dependent(x, model, affected[k]));
    }
    assert(y.symbols@.len() == y.symbols.len());
    assert forall|id: SymbolId|
        id < x.symbols.len() implies #[trigger] y.symbols@[id as int] == if is_dependent(
        x,
        model,
        id,
    ) && concerns(x, change, id) {
        Some(to_evaluate(x.symbols@[id as int]->0))
    } else {
        x.symbols@[id as int]
    } by {
        assert(affected.contains(id) <==> is_dependent(x, model, id) && concerns(x, change, id));
    }
    let more = all.map_values(requested);
    assert(b.requests@ == a.requests@ + more);
    assert(b.requests@.take(n as int) =~= a.requests@);
    assert forall|id: SymbolId| #[trigger] is_dependent(x, model, id) implies exists|j: int|
        n <= j < b.requests@.len() && #[trigger] b.requests@[j]
            == Request::InvalidateSubFunctions(id) by {
        assert(all.contains(id));
        let i = choose|i: int| 0 <= i < all.len() && all[i] == id;
        assert(b.requests@[n + i] == more[i]);
    }
    assert forall|j: int| n <= j < b.requests@.len() implies (#[trigger] b.requests@[j] matches
        Request::InvalidateSubFunctions(id) && is_dependent(x, model, id)) by {
        assert(b.requests@[j] == more[j - n]);
        assert(all.contains(all[j - n]));
    }
    assert forall|i: int, j: int|
        n <= i < j < b.requests@.len() implies #[trigger] b.requests@[i]
        != #[trigger] b.requests@[j] by {
        assert(b.requests@[i] == more[i - n]);
        assert(b.requests@[j] == more[j - n]);
    }
}

/// Taking a class out of a model in a module makes every dependent wait for validation whose
/// module is that one or depends on it, and every one without a module; and no other. The model
/// keeps its other classes, and every other model is left as it is.
pub proof fn removal_sets_off(
    a: SessionInfo,
    b: SessionInfo,
    model: ModelId,
    symbol: SymbolId,
    from_module: Option<SymbolId>,
)
    requires
        removed(a, b, model, symbol, from_module),
        model < a.sync_odoo.models.len(),
    ensures
        sets_off(a, b, model, from_module),
        b.sync_odoo.models@.len() == a.sync_odoo.models@.len(),
        forall|m: int|
            0 <= m < a.sync_odoo.models@.len() && m != model ==> #[trigger] b.sync_odoo.models@[m]
                == a.sync_odoo.models@[m],
        b.sync_odoo.models@[model as int].name == a.sync_odoo.models@[model as int].name,
        b.sync_odoo.models@[model as int].dependents
            == a.sync_odoo.models@[model as int].dependents,
        forall|h: Handle| #[trigger]
            held(b.sync_odoo.models@[model as int].symbols).contains(h) <==> h
                != a.sync_odoo.symbols@[symbol as int]->0.handle && held(
                a.sync_odoo.models@[model as int].symbols,
            ).contains(h),
{
    change_sets_off(a, b, model, from_module);
}

/// A class that is new to a model makes every dependent of the model wait for validation,
/// whatever its module. The model keeps its other classes, and every other model is left as it
/// is.
pub proof fn addition_sets_off(
    a: SessionInfo,
    b: SessionInfo,
    model: ModelId,
    symbol: SymbolId,
)
    requires
        added(a, b, model, symbol),
        model < a.sync_odoo.models.len(),
        !held(a.sync_odoo.models@[model as int].symbols).contains(
            a.sync_odoo.symbols@[symbol as int]->0.handle,
        ),
    ensures
        sets_off(a, b, model, None),
        b.sync_odoo.models@.len() == a.sync_odoo.models@.len(),
        forall|m: int|
            0 <= m < a.sync_odoo.models@.len() && m != model ==> #[trigger] b.sync_odoo.models@[m]
                == a.sync_odoo.models@[m],
        b.sync_odoo.models@[model as int].name == a.sync_odoo.models@[model as int].name,
        b.sync_odoo.models@[model as int].dependents
            == a.sync_odoo.models@[model as int].dependents,
        forall|h: Handle| #[trigger]
            held(b.sync_odoo.models@[model as int].symbols).contains(h) <==> h
                == a.sync_odoo.symbols@[symbol as int]->0.handle || held(
                a.sync_odoo.models@[model as int].symbols,
            ).contains(h),
{
    change_sets_off(a, b, model, None);
}

/// A class that is of a model already changes nothing when it is added.
pub proof fn known_class_changes_nothing(
    a: SessionInfo,
    b: SessionInfo,
    model: ModelId,
    symbol: SymbolId,
)
    requires
        added(a, b, model, symbol),
        held(a.sync_odoo.models@[model as int].symbols).contains(
            a.sync_odoo.symbols@[symbol as int]->0.handle,
        ),
    ensures
        b == a,
{
}

} // verus!
