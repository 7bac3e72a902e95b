//! How often classes are listed.
use vstd::prelude::*;

use crate::constants::{ModelId, SymbolId};
use crate::model_walk::{all_symbols_walk, classes_walk, names_walk, unmet, unmet_drops, unmet_shrinks, with_entry, with_message, Walk};
use crate::odoo::{LogView, SyncOdoo};
use crate::text::texts;

verus! {

/// How many classes the first `n` models have, counting those whose names are in the set.
pub open spec fn classes_of_named(odoo: SyncOdoo, names: Set<Seq<char>>, n: nat) -> nat
    decreases n,
{
    if n == 0 {
        0
    } else {
        classes_of_named(odoo, names, (n - 1) as nat) + if names.contains(
            odoo.models@[n - 1].name@,
        ) {
            odoo.classes((n - 1) as usize).len()
        } else {
            0
        }
    }
}

/// One name more adds the classes of the model that has it.
proof fn name_adds_its_model(odoo: SyncOdoo, names: Set<Seq<char>>, name: Seq<char>, n: nat)
    requires
        odoo.wf(),
        n <= odoo.models.len(),
        !names.contains(name),
    ensures
        classes_of_named(odoo, names.insert(name), n) == classes_of_named(odoo, names, n)
            + match odoo.model_at(name) {
            Some(model) if model < n => odoo.classes(model).len(),
            _ => 0,
        },
    decreases n,
{
    if n > 0 {
        name_adds_its_model(odoo, names, name, (n - 1) as nat);
        let last = odoo.models@[n - 1].name@;
        if last == name {
            odoo.named_is_found(n - 1);
        } else if odoo.model_at(name) is Some {
            odoo.model_at_is_first(name);
        }
    }
}

spec fn total(odoo: SyncOdoo, names: Set<Seq<char>>) -> int {
    classes_of_named(odoo, names, odoo.models@.len()) as int
}

proof fn walk_counts_classes(odoo: SyncOdoo, ids: Seq<SymbolId>, depth: nat, walk: Walk)
    requires
        odoo.wf(),
        unmet(odoo.models@, walk.seen) <= depth,
    ensures
        ({
            let after = classes_walk(odoo, None, true, ids, depth, walk);
            &&& walk.seen.subset_of(after.seen)
            &&& after.entries.len() - walk.entries.len() == ids.len() + total(odoo, after.seen)
                - total(odoo, walk.seen)
        }),
    decreases depth, 1int, ids.len(),
{
    if ids.len() > 0 {
        let front = ids.drop_last();
        let id = ids.last();
        walk_counts_classes(odoo, front, depth, walk);
        let before = classes_walk(odoo, None, true, front, depth, walk);
        let listed = Walk {
            entries: with_entry(odoo, None, id, before.entries),
            log: with_message(odoo, None, id, before.log),
            ..before
        };
        unmet_shrinks(odoo.models@, walk.seen, before.seen);
        walk_counts_names(odoo, texts(odoo.model_data(id).inherit@), depth, listed);
    }
}

proof fn walk_counts_names(odoo: SyncOdoo, names: Seq<Seq<char>>, depth: nat, walk: Walk)
    requires
        odoo.wf(),
        unmet(odoo.models@, walk.seen) <= depth,
    ensures
        ({
            let after = names_walk(odoo, None, names, depth, walk);
            &&& walk.seen.subset_of(after.seen)
            &&& after.entries.len() - walk.entries.len() == total(odoo, after.seen) - total(
                odoo,
                walk.seen,
            )
        }),
    decreases depth, 0int, names.len(),
{
    if names.len() > 0 {
        let front = names.drop_last();
        let name = names.last();
        walk_counts_names(odoo, front, depth, walk);
        let before = names_walk(odoo, None, front, depth, walk);
        unmet_shrinks(odoo.models@, walk.seen, before.seen);
        if !before.seen.contains(name) {
            let seen = before.seen.insert(name);
            assert(odoo.models@.len() == odoo.models.len());
            name_adds_its_model(odoo, before.seen, name, odoo.models@.len());
            if odoo.model_at(name) is Some {
                let model = odoo.model_at(name)->0;
                odoo.model_at_is_first(name);
                unmet_drops(odoo.models@, before.seen, model as int);
                assert(depth > 0);
                walk_counts_classes(
                    odoo,
                    odoo.classes(model),
                    (depth - 1) as nat,
                    Walk { entries: Seq::empty(), seen, ..before },
                );
            }
        }
    }
}

/// With inheritance, and when no module asks, the model's own classes are listed, and then those
/// of every model that is inherited by name, each such model once: the model itself too, where a
/// class of it inherits from that name.
pub proof fn inherited_models_are_listed_once(odoo: SyncOdoo, model: ModelId, log: Seq<LogView>)
    requires
        odoo.wf(),
    ensures
        ({
            let walk = all_symbols_walk(odoo, None, true, model, log);
            walk.entries.len() == odoo.classes(model).len() + classes_of_named(
                odoo,
                walk.seen,
                odoo.models@.len(),
            )
        }),
{
    let start = Walk { entries: Seq::empty(), log, seen: Set::empty() };
    unmet_shrinks(odoo.models@, Set::empty(), Set::empty());
    walk_counts_classes(odoo, odoo.classes(model), odoo.models@.len(), start);
    none_of_none(odoo, odoo.models@.len());
}

proof fn none_of_none(odoo: SyncOdoo, n: nat)
    ensures
        classes_of_named(odoo, Set::empty(), n) == 0,
    decreases n,
{
    if n > 0 {
        none_of_none(odoo, (n - 1) as nat);
    }
}

} // verus!
