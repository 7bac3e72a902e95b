//! What holds of the walks over inherited models as a whole.
use vstd::prelude::*;

use crate::constants::{ModelId, SymbolId};
use crate::handles::held;
use crate::model_walk::{all_inherits_visit, all_symbols_walk, classes_walk, delegates, entry_of, names_walk, unmet, unmet_drops, unmet_shrinks, visit, visit_classes, visit_names, with_entry, with_message, EntryView, Visit, Walk};
use crate::odoo::{ascending, members_are_exact, LogView, SyncOdoo};
use crate::text::texts;

verus! {

/// Whether `names` holds the names of all models that the classes inherit from.
pub open spec fn inherits_within(odoo: SyncOdoo, ids: Seq<SymbolId>, names: Set<Seq<char>>) -> bool {
    forall|k: int, name: Seq<char>|
        0 <= k < ids.len() && #[trigger] texts(odoo.model_data(ids[k]).inherit@).contains(name)
            ==> names.contains(name)
}

/// Whether `names` holds what the models of its names inherit from, those in `apart`
/// left aside.
pub open spec fn closed_but(odoo: SyncOdoo, apart: Set<Seq<char>>, names: Set<Seq<char>>) -> bool {
    forall|name: Seq<char>|
        #[trigger] names.contains(name) && !apart.contains(name) && odoo.model_at(name) is Some
            ==> inherits_within(odoo, odoo.classes(odoo.model_at(name)->0), names)
}

/// Whether `e` lists a class of a model whose name is in `names` and not in `apart`.
pub open spec fn listed_of(
    odoo: SyncOdoo,
    from: Option<SymbolId>,
    apart: Set<Seq<char>>,
    names: Set<Seq<char>>,
    e: EntryView,
) -> bool {
    exists|name: Seq<char>|
        #[trigger] names.contains(name) && !apart.contains(name) && odoo.model_at(name) is Some
            && listed(odoo, from, odoo.classes(odoo.model_at(name)->0), e)
}

/// Whether `e` lists one of the classes.
pub open spec fn listed(
    odoo: SyncOdoo,
    from: Option<SymbolId>,
    ids: Seq<SymbolId>,
    e: EntryView,
) -> bool {
    exists|k: int| 0 <= k < ids.len() && entry_of(odoo, from, #[trigger] ids[k]) == Some(e)
}

proof fn closed_compose(
    odoo: SyncOdoo,
    a: Set<Seq<char>>,
    b: Set<Seq<char>>,
    c: Set<Seq<char>>,
)
    requires
        a.subset_of(b),
        b.subset_of(c),
        closed_but(odoo, a, b),
        closed_but(odoo, b, c),
    ensures
        closed_but(odoo, a, c),
{
    assert forall|name: Seq<char>|
        #[trigger] c.contains(name) && !a.contains(name) && odoo.model_at(
            name,
        ) is Some implies inherits_within(odoo, odoo.classes(odoo.model_at(name)->0), c) by {
        if b.contains(name) {
            assert(inherits_within(odoo, odoo.classes(odoo.model_at(name)->0), b));
        }
    }
}

proof fn listed_compose(
    odoo: SyncOdoo,
    from: Option<SymbolId>,
    a: Set<Seq<char>>,
    b: Set<Seq<char>>,
    c: Set<Seq<char>>,
    e: EntryView,
)
    requires
        a.subset_of(b),
        b.subset_of(c),
    ensures
        listed_of(odoo, from, a, c, e) <==> listed_of(odoo, from, a, b, e) || listed_of(
            odoo,
            from,
            b,
            c,
            e,
        ),
{
    if listed_of(odoo, from, a, c, e) {
        let name = choose|name: Seq<char>|
            #[trigger] c.contains(name) && !a.contains(name) && odoo.model_at(name) is Some
                && listed(odoo, from, odoo.classes(odoo.model_at(name)->0), e);
        if b.contains(name) {
            assert(listed_of(odoo, from, a, b, e));
        } else {
            assert(listed_of(odoo, from, b, c, e));
        }
    }
    if listed_of(odoo, from, a, b, e) {
        let name = choose|name: Seq<char>|
            #[trigger] b.contains(name) && !a.contains(name) && odoo.model_at(name) is Some
                && listed(odoo, from, odoo.classes(odoo.model_at(name)->0), e);
        assert(c.contains(name));
    }
    if listed_of(odoo, from, b, c, e) {
        let name = choose|name: Seq<char>|
            #[trigger] c.contains(name) && !b.contains(name) && odoo.model_at(name) is Some
                && listed(odoo, from, odoo.classes(odoo.model_at(name)->0), e);
        assert(!a.contains(name));
    }
}

proof fn pushed_contains<T>(s: Seq<T>, x: T, e: T)
    ensures
        s.push(x).contains(e) <==> s.contains(e) || e == x,
{
    if s.push(x).contains(e) {
        let i = choose|i: int| 0 <= i < s.push(x).len() && s.push(x)[i] == e;
        if i < s.len() {
            assert(s[i] == e);
        }
    }
    if s.contains(e) {
        let i = choose|i: int| 0 <= i < s.len() && s[i] == e;
        assert(s.push(x)[i] == e);
    }
    assert(s.push(x)[s.len() as int] == x);
}

proof fn joined_contains<T>(s: Seq<T>, t: Seq<T>, e: T)
    ensures
        (s + t).contains(e) <==> s.contains(e) || t.contains(e),
{
    if (s + t).contains(e) {
        let i = choose|i: int| 0 <= i < (s + t).len() && (s + t)[i] == e;
        if i < s.len() {
            assert(s[i] == e);
        } else {
            assert(t[i - s.len()] == e);
        }
    }
    if s.contains(e) {
        let i = choose|i: int| 0 <= i < s.len() && s[i] == e;
        assert((s + t)[i] == e);
    }
    if t.contains(e) {
        let i = choose|i: int| 0 <= i < t.len() && t[i] == e;
        assert((s + t)[s.len() + i] == e);
    }
}

proof fn listed_step(
    odoo: SyncOdoo,
    from: Option<SymbolId>,
    ids: Seq<SymbolId>,
    e: EntryView,
)
    requires
        ids.len() > 0,
    ensures
        listed(odoo, from, ids, e) <==> listed(odoo, from, ids.drop_last(), e) || entry_of(
            odoo,
            from,
            ids.last(),
        ) == Some(e),
{
    let front = ids.drop_last();
    if listed(odoo, from, ids, e) {
        let k = choose|k: int|
            0 <= k < ids.len() && entry_of(odoo, from, #[trigger] ids[k]) == Some(e);
        if k < front.len() {
            assert(entry_of(odoo, from, front[k]) == Some(e));
        }
    }
    if listed(odoo, from, front, e) {
        let k = choose|k: int|
            0 <= k < front.len() && entry_of(odoo, from, #[trigger] front[k]) == Some(e);
        assert(entry_of(odoo, from, ids[k]) == Some(e));
    }
    assert(ids[ids.len() - 1] == ids.last());
}

proof fn classes_walked(
    odoo: SyncOdoo,
    from: Option<SymbolId>,
    ids: Seq<SymbolId>,
    depth: nat,
    walk: Walk,
    e: EntryView,
    bound: Set<Seq<char>>,
)
    requires
        unmet(odoo.models@, walk.seen) <= depth,
    ensures
        ({
            let after = classes_walk(odoo, from, true, ids, depth, walk);
            &&& walk.seen.subset_of(after.seen)
            &&& closed_but(odoo, walk.seen, after.seen)
            &&& inherits_within(odoo, ids, after.seen)
            &&& after.entries.contains(e) <==> {
                ||| walk.entries.contains(e)
                ||| listed(odoo, from, ids, e)
                ||| listed_of(odoo, from, walk.seen, after.seen, e)
            }
            &&& inherits_within(odoo, ids, bound) && closed_but(odoo, Set::empty(), bound)
                ==> after.seen.subset_of(walk.seen.union(bound))
        }),
    decreases depth, 1int, ids.len(),
{
    let after = classes_walk(odoo, from, true, ids, depth, walk);
    if ids.len() == 0 {
        assert(!listed_of(odoo, from, walk.seen, after.seen, e));
        assert(!listed(odoo, from, ids, e));
    } else {
        let front = ids.drop_last();
        let id = ids.last();
        let before = classes_walk(odoo, from, true, front, depth, walk);
        classes_walked(odoo, from, front, depth, walk, e, bound);
        let names = texts(odoo.model_data(id).inherit@);
        let step = Walk {
            entries: with_entry(odoo, from, id, before.entries),
            log: with_message(odoo, from, id, before.log),
            ..before
        };
        unmet_shrinks(odoo.models@, walk.seen, before.seen);
        names_walked(odoo, from, names, depth, step, e, bound);
        closed_compose(odoo, walk.seen, before.seen, after.seen);
        listed_compose(odoo, from, walk.seen, before.seen, after.seen, e);
        listed_step(odoo, from, ids, e);
        if entry_of(odoo, from, id) is Some {
            pushed_contains(before.entries, entry_of(odoo, from, id)->0, e);
        }
        assert forall|k: int, name: Seq<char>|
            0 <= k < ids.len() && #[trigger] texts(odoo.model_data(ids[k]).inherit@).contains(
                name,
            ) implies after.seen.contains(name) by {
            if k < front.len() {
                assert(ids[k] == front[k]);
                assert(texts(odoo.model_data(front[k]).inherit@).contains(name));
            } else {
                assert(names.contains(name));
            }
        }
        if inherits_within(odoo, ids, bound) && closed_but(odoo, Set::empty(), bound) {
            assert forall|k: int, name: Seq<char>|
                0 <= k < front.len() && #[trigger] texts(
                    odoo.model_data(front[k]).inherit@,
                ).contains(name) implies bound.contains(name) by {
                assert(texts(odoo.model_data(ids[k]).inherit@).contains(name));
            }
            assert forall|name: Seq<char>| names.contains(name) implies bound.contains(name) by {
                assert(texts(odoo.model_data(ids[ids.len() - 1]).inherit@).contains(name));
            }
        }
    }
}

proof fn names_walked(
    odoo: SyncOdoo,
    from: Option<SymbolId>,
    names: Seq<Seq<char>>,
    depth: nat,
    walk: Walk,
    e: EntryView,
    bound: Set<Seq<char>>,
)
    requires
        unmet(odoo.models@, walk.seen) <= depth,
    ensures
        ({
            let after = names_walk(odoo, from, names, depth, walk);
            &&& walk.seen.subset_of(after.seen)
            &&& closed_but(odoo, walk.seen, after.seen)
            &&& forall|name: Seq<char>| names.contains(name) ==> after.seen.contains(name)
            &&& after.entries.contains(e) <==> walk.entries.contains(e) || listed_of(
                odoo,
                from,
                walk.seen,
                after.seen,
                e,
            )
            &&& (forall|name: Seq<char>| names.contains(name) ==> bound.contains(name))
                && closed_but(odoo, Set::empty(), bound) ==> after.seen.subset_of(
                walk.seen.union(bound),
            )
        }),
    decreases depth, 0int, names.len(),
{
    let after = names_walk(odoo, from, names, depth, walk);
    if names.len() == 0 {
        assert(!listed_of(odoo, from, walk.seen, after.seen, e));
    } else {
        let front = names.drop_last();
        let name = names.last();
        let before = names_walk(odoo, from, front, depth, walk);
        names_walked(odoo, from, front, depth, walk, e, bound);
        unmet_shrinks(odoo.models@, walk.seen, before.seen);
        let within = (forall|n: Seq<char>| names.contains(n) ==> bound.contains(n)) && closed_but(
            odoo,
            Set::empty(),
            bound,
        );
        assert(names.contains(name)) by {
            assert(names[names.len() - 1] == name);
        }
        assert forall|n: Seq<char>| front.contains(n) implies names.contains(n) by {
            let i = choose|i: int| 0 <= i < front.len() && front[i] == n;
            assert(names[i] == n);
        }
        if !before.seen.contains(name) {
            let marked = Walk { seen: before.seen.insert(name), ..before };
            if odoo.model_at(name) is Some {
                let model = odoo.model_at(name)->0;
                let ids = odoo.classes(model);
                odoo.model_at_is_first(name);
                unmet_drops(odoo.models@, before.seen, model as int);
                assert(depth > 0);
                let start = Walk { entries: Seq::empty(), ..marked };
                let sub = classes_walk(odoo, from, true, ids, (depth - 1) as nat, start);
                classes_walked(odoo, from, ids, (depth - 1) as nat, start, e, bound);
                joined_contains(before.entries, sub.entries, e);
                assert forall|n: Seq<char>|
                    #[trigger] after.seen.contains(n) && !before.seen.contains(n) && odoo.model_at(
                        n,
                    ) is Some implies inherits_within(
                    odoo,
                    odoo.classes(odoo.model_at(n)->0),
                    after.seen,
                ) by {}
                if listed_of(odoo, from, before.seen, after.seen, e) {
                    let n = choose|n: Seq<char>|
                        #[trigger] after.seen.contains(n) && !before.seen.contains(n)
                            && odoo.model_at(n) is Some && listed(
                            odoo,
                            from,
                            odoo.classes(odoo.model_at(n)->0),
                            e,
                        );
                    if n != name {
                        assert(listed_of(odoo, from, marked.seen, after.seen, e));
                    }
                }
                if listed_of(odoo, from, marked.seen, after.seen, e) {
                    let n = choose|n: Seq<char>|
                        #[trigger] after.seen.contains(n) && !marked.seen.contains(n)
                            && odoo.model_at(n) is Some && listed(
                            odoo,
                            from,
                            odoo.classes(odoo.model_at(n)->0),
                            e,
                        );
                    assert(!before.seen.contains(n));
                }
                if listed(odoo, from, ids, e) {
                    assert(after.seen.contains(name));
                    assert(listed_of(odoo, from, before.seen, after.seen, e));
                }
                if within {
                    assert(bound.contains(name));
                    assert(inherits_within(odoo, ids, bound));
                }
            } else {
                assert(!listed_of(odoo, from, before.seen, after.seen, e));
            }
            closed_compose(odoo, walk.seen, before.seen, after.seen);
            listed_compose(odoo, from, walk.seen, before.seen, after.seen, e);
        }
        assert forall|n: Seq<char>| names.contains(n) implies after.seen.contains(n) by {
            let i = choose|i: int| 0 <= i < names.len() && names[i] == n;
            if i < front.len() {
                assert(front[i] == n);
                assert(front.contains(n));
            }
        }
    }
}

/// With inheritance, the models that a walk meets are the least set of names that holds
/// what the classes of the model inherit from, and what the classes of the models in it
/// inherit from. The walk lists exactly the classes of the model and of the models it
/// met, but for classes outside any module when seen from one.
pub proof fn all_symbols_are_complete(
    odoo: SyncOdoo,
    from: Option<SymbolId>,
    model: ModelId,
    log: Seq<LogView>,
)
    ensures
        ({
            let walk = all_symbols_walk(odoo, from, true, model, log);
            let ids = odoo.classes(model);
            &&& inherits_within(odoo, ids, walk.seen)
            &&& closed_but(odoo, Set::empty(), walk.seen)
            &&& forall|names: Set<Seq<char>>|
                inherits_within(odoo, ids, names) && closed_but(odoo, Set::empty(), names)
                    ==> #[trigger] walk.seen.subset_of(names)
            &&& forall|e: EntryView| #[trigger]
                walk.entries.contains(e) <==> listed(odoo, from, ids, e) || listed_of(
                    odoo,
                    from,
                    Set::empty(),
                    walk.seen,
                    e,
                )
        }),
{
    let start = Walk { entries: Seq::empty(), log, seen: Set::empty() };
    let walk = all_symbols_walk(odoo, from, true, model, log);
    let ids = odoo.classes(model);
    let depth = odoo.models@.len();
    unmet_shrinks(odoo.models@, Set::empty(), Set::empty());
    assert forall|names: Set<Seq<char>>|
        inherits_within(odoo, ids, names) && closed_but(
            odoo,
            Set::empty(),
            names,
        ) implies #[trigger] walk.seen.subset_of(names) by {
        classes_walked(odoo, from, ids, depth, start, arbitrary(), names);
    }
    assert forall|e: EntryView| #[trigger] walk.entries.contains(e) <==> listed(
        odoo,
        from,
        ids,
        e,
    ) || listed_of(odoo, from, Set::empty(), walk.seen, e) by {
        classes_walked(odoo, from, ids, depth, start, e, Set::empty());
    }
    classes_walked(odoo, from, ids, depth, start, arbitrary(), Set::empty());
}

/// Without inheritance, a walk lists exactly the classes of the model, in order.
pub proof fn own_symbols_only(
    odoo: SyncOdoo,
    from: Option<SymbolId>,
    model: ModelId,
    log: Seq<LogView>,
    e: EntryView,
)
    ensures
        all_symbols_walk(odoo, from, false, model, log).entries.contains(e) <==> listed(
            odoo,
            from,
            odoo.classes(model),
            e,
        ),
        all_symbols_walk(odoo, from, false, model, log).seen == Set::<Seq<char>>::empty(),
{
    let start = Walk { entries: Seq::empty(), log, seen: Set::empty() };
    own_classes_only(odoo, from, odoo.classes(model), odoo.models@.len(), start, e);
}

proof fn own_classes_only(
    odoo: SyncOdoo,
    from: Option<SymbolId>,
    ids: Seq<SymbolId>,
    depth: nat,
    walk: Walk,
    e: EntryView,
)
    ensures
        ({
            let after = classes_walk(odoo, from, false, ids, depth, walk);
            &&& after.entries.contains(e) <==> walk.entries.contains(e) || listed(
                odoo,
                from,
                ids,
                e,
            )
            &&& after.seen == walk.seen
        }),
    decreases ids.len(),
{
    if ids.len() > 0 {
        let front = ids.drop_last();
        let id = ids.last();
        let before = classes_walk(odoo, from, false, front, depth, walk);
        own_classes_only(odoo, from, front, depth, walk, e);
        listed_step(odoo, from, ids, e);
        if entry_of(odoo, from, id) is Some {
            pushed_contains(before.entries, entry_of(odoo, from, id)->0, e);
        }
    }
}

/// Whether a class inherits from, or delegates to, the model called `name`.
pub open spec fn leads_to(odoo: SyncOdoo, id: SymbolId, name: Seq<char>) -> bool {
    texts(odoo.model_data(id).inherit@).contains(name) || delegates(
        odoo.model_data(id).inherits@,
    ).contains(name)
}

/// Whether `names` holds the names of all models that the classes lead to.
pub open spec fn leads_within(odoo: SyncOdoo, ids: Seq<SymbolId>, names: Set<Seq<char>>) -> bool {
    forall|k: int, name: Seq<char>|
        0 <= k < ids.len() && #[trigger] leads_to(odoo, ids[k], name) && odoo.model_at(
            name,
        ) is Some ==> names.contains(name)
}

/// Whether `names` holds what the models of its names lead to, those in `apart` left
/// aside.
pub open spec fn complete_but(
    odoo: SyncOdoo,
    apart: Set<Seq<char>>,
    names: Set<Seq<char>>,
) -> bool {
    forall|name: Seq<char>|
        #[trigger] names.contains(name) && !apart.contains(name) && odoo.model_at(name) is Some
            ==> leads_within(odoo, odoo.classes(odoo.model_at(name)->0), names)
}

proof fn complete_compose(
    odoo: SyncOdoo,
    a: Set<Seq<char>>,
    b: Set<Seq<char>>,
    c: Set<Seq<char>>,
)
    requires
        a.subset_of(b),
        b.subset_of(c),
        complete_but(odoo, a, b),
        complete_but(odoo, b, c),
    ensures
        complete_but(odoo, a, c),
{
    assert forall|name: Seq<char>|
        #[trigger] c.contains(name) && !a.contains(name) && odoo.model_at(
            name,
        ) is Some implies leads_within(odoo, odoo.classes(odoo.model_at(name)->0), c) by {
        if b.contains(name) {
            assert(leads_within(odoo, odoo.classes(odoo.model_at(name)->0), b));
        }
    }
}

/// Whether `e` was listed, one way or the other.
pub open spec fn found(v: Visit, e: EntryView) -> bool {
    v.main.contains(e) || v.inherits.contains(e)
}

proof fn visited(
    odoo: SyncOdoo,
    from: Option<SymbolId>,
    model: ModelId,
    depth: nat,
    log: Seq<LogView>,
    before: Set<Seq<char>>,
    e: EntryView,
    bound: Set<Seq<char>>,
)
    requires
        odoo.first_model(odoo.models@[model as int].name@, model as int),
        unmet(odoo.models@, before) < depth,
    ensures
        ({
            let after = visit(odoo, from, model, depth, log, before);
            let name = odoo.models@[model as int].name@;
            &&& before.subset_of(after.visited)
            &&& after.visited.contains(name)
            &&& complete_but(odoo, before, after.visited)
            &&& found(after, e) <==> listed_of(odoo, from, before, after.visited, e)
            &&& !before.contains(name) && listed(odoo, from, odoo.classes(model), e)
                ==> after.main.contains(e)
            &&& bound.contains(name) && complete_but(odoo, Set::empty(), bound)
                ==> after.visited.subset_of(before.union(bound))
        }),
    decreases depth, 2int, 0nat,
{
    let name = odoo.models@[model as int].name@;
    let after = visit(odoo, from, model, depth, log, before);
    odoo.first_model_is_unique(name);
    assert(odoo.model_at(name) is Some);
    odoo.model_at_is_first(name);
    assert(odoo.model_at(name) == Some(model));
    if before.contains(name) {
        assert(!listed_of(odoo, from, before, after.visited, e));
    } else {
        let ids = odoo.classes(model);
        let start = Visit {
            main: Seq::empty(),
            inherits: Seq::empty(),
            log,
            visited: before.insert(name),
        };
        unmet_drops(odoo.models@, before, model as int);
        classes_visited(odoo, from, ids, depth, start, e, bound);
        assert forall|n: Seq<char>|
            #[trigger] after.visited.contains(n) && !before.contains(n) && odoo.model_at(
                n,
            ) is Some implies leads_within(
            odoo,
            odoo.classes(odoo.model_at(n)->0),
            after.visited,
        ) by {
            if n != name {
                assert(!start.visited.contains(n));
            }
        }
        if listed_of(odoo, from, before, after.visited, e) {
            let n = choose|n: Seq<char>|
                #[trigger] after.visited.contains(n) && !before.contains(n) && odoo.model_at(
                    n,
                ) is Some && listed(odoo, from, odoo.classes(odoo.model_at(n)->0), e);
            if n != name {
                assert(!start.visited.contains(n));
                assert(listed_of(odoo, from, start.visited, after.visited, e));
            }
        }
        if listed_of(odoo, from, start.visited, after.visited, e) {
            let n = choose|n: Seq<char>|
                #[trigger] after.visited.contains(n) && !start.visited.contains(n)
                    && odoo.model_at(n) is Some && listed(
                    odoo,
                    from,
                    odoo.classes(odoo.model_at(n)->0),
                    e,
                );
            assert(!before.contains(n));
        }
        if listed(odoo, from, ids, e) {
            assert(after.visited.contains(name));
            assert(listed_of(odoo, from, before, after.visited, e));
        }
        if bound.contains(name) && complete_but(odoo, Set::empty(), bound) {
            assert(leads_within(odoo, ids, bound));
        }
    }
}

proof fn classes_visited(
    odoo: SyncOdoo,
    from: Option<SymbolId>,
    ids: Seq<SymbolId>,
    depth: nat,
    start: Visit,
    e: EntryView,
    bound: Set<Seq<char>>,
)
    requires
        depth > 0,
        unmet(odoo.models@, start.visited) < depth - 1,
    ensures
        ({
            let after = visit_classes(odoo, from, ids, depth, start);
            &&& start.visited.subset_of(after.visited)
            &&& complete_but(odoo, start.visited, after.visited)
            &&& leads_within(odoo, ids, after.visited)
            &&& found(after, e) <==> {
                ||| found(start, e)
                ||| listed(odoo, from, ids, e)
                ||| listed_of(odoo, from, start.visited, after.visited, e)
            }
            &&& start.main.contains(e) || listed(odoo, from, ids, e) ==> after.main.contains(e)
            &&& leads_within(odoo, ids, bound) && complete_but(odoo, Set::empty(), bound)
                ==> after.visited.subset_of(start.visited.union(bound))
        }),
    decreases depth, 1int, ids.len(),
{
    let after = visit_classes(odoo, from, ids, depth, start);
    if ids.len() == 0 {
        assert(!listed_of(odoo, from, start.visited, after.visited, e));
        assert(!listed(odoo, from, ids, e));
    } else {
        let front = ids.drop_last();
        let id = ids.last();
        let before = visit_classes(odoo, from, front, depth, start);
        classes_visited(odoo, from, front, depth, start, e, bound);
        let step = Visit {
            main: with_entry(odoo, from, id, before.main),
            log: with_message(odoo, from, id, before.log),
            ..before
        };
        let data = odoo.model_data(id);
        let inherit = texts(data.inherit@);
        let delegated = delegates(data.inherits@);
        let middle = visit_names(odoo, from, inherit, depth, false, step);
        unmet_shrinks(odoo.models@, start.visited, before.visited);
        names_visited(odoo, from, inherit, depth, false, step, e, bound);
        unmet_shrinks(odoo.models@, before.visited, middle.visited);
        names_visited(odoo, from, delegated, depth, true, middle, e, bound);
        complete_compose(odoo, before.visited, middle.visited, after.visited);
        complete_compose(odoo, start.visited, before.visited, after.visited);
        listed_compose(odoo, from, before.visited, middle.visited, after.visited, e);
        listed_compose(odoo, from, start.visited, before.visited, after.visited, e);
        listed_step(odoo, from, ids, e);
        if entry_of(odoo, from, id) is Some {
            pushed_contains(before.main, entry_of(odoo, from, id)->0, e);
        }
        assert forall|k: int, name: Seq<char>|
            0 <= k < ids.len() && #[trigger] leads_to(odoo, ids[k], name) && odoo.model_at(
                name,
            ) is Some implies after.visited.contains(name) by {
            if k < front.len() {
                assert(ids[k] == front[k]);
                assert(leads_to(odoo, front[k], name));
            }
        }
        if leads_within(odoo, ids, bound) && complete_but(odoo, Set::empty(), bound) {
            assert forall|k: int, name: Seq<char>|
                0 <= k < front.len() && #[trigger] leads_to(odoo, front[k], name)
                    && odoo.model_at(name) is Some implies bound.contains(name) by {
                assert(leads_to(odoo, ids[k], name));
            }
            assert forall|name: Seq<char>|
                (inherit.contains(name) || delegated.contains(name)) && odoo.model_at(
                    name,
                ) is Some implies bound.contains(name) by {
                assert(leads_to(odoo, ids[ids.len() - 1], name));
            }
        }
    }
}

proof fn names_visited(
    odoo: SyncOdoo,
    from: Option<SymbolId>,
    names: Seq<Seq<char>>,
    depth: nat,
    delegated: bool,
    start: Visit,
    e: EntryView,
    bound: Set<Seq<char>>,
)
    requires
        depth > 0,
        unmet(odoo.models@, start.visited) < depth - 1,
    ensures
        ({
            let after = visit_names(odoo, from, names, depth, delegated, start);
            &&& start.visited.subset_of(after.visited)
            &&& complete_but(odoo, start.visited, after.visited)
            &&& forall|name: Seq<char>|
                names.contains(name) && odoo.model_at(name) is Some ==> after.visited.contains(name)
            &&& found(after, e) <==> found(start, e) || listed_of(
                odoo,
                from,
                start.visited,
                after.visited,
                e,
            )
            &&& start.main.contains(e) ==> after.main.contains(e)
            &&& (forall|name: Seq<char>|
                names.contains(name) && odoo.model_at(name) is Some ==> bound.contains(name))
                && complete_but(odoo, Set::empty(), bound) ==> after.visited.subset_of(
                start.visited.union(bound),
            )
        }),
    decreases depth, 0int, names.len(),
{
    let after = visit_names(odoo, from, names, depth, delegated, start);
    if names.len() == 0 {
        assert(!listed_of(odoo, from, start.visited, after.visited, e));
    } else {
        let front = names.drop_last();
        let name = names.last();
        let before = visit_names(odoo, from, front, depth, delegated, start);
        names_visited(odoo, from, front, depth, delegated, start, e, bound);
        unmet_shrinks(odoo.models@, start.visited, before.visited);
        assert(names.contains(name)) by {
            assert(names[names.len() - 1] == name);
        }
        assert forall|n: Seq<char>| front.contains(n) implies names.contains(n) by {
            let i = choose|i: int| 0 <= i < front.len() && front[i] == n;
            assert(names[i] == n);
        }
        if odoo.model_at(name) is Some {
            let model = odoo.model_at(name)->0;
            odoo.model_at_is_first(name);
            let sub = visit(
                odoo,
                from,
                model,
                (depth - 1) as nat,
                before.log,
                before.visited,
            );
            visited(odoo, from, model, (depth - 1) as nat, before.log, before.visited, e, bound);
            complete_compose(odoo, start.visited, before.visited, after.visited);
            listed_compose(odoo, from, start.visited, before.visited, after.visited, e);
            if delegated {
                joined_contains(before.inherits, sub.main, e);
                joined_contains(before.inherits + sub.main, sub.inherits, e);
            } else {
                joined_contains(before.main, sub.main, e);
                joined_contains(before.inherits, sub.inherits, e);
            }
        }
        assert forall|n: Seq<char>|
            names.contains(n) && odoo.model_at(n) is Some implies after.visited.contains(n) by {
            let i = choose|i: int| 0 <= i < names.len() && names[i] == n;
            if i < front.len() {
                assert(front[i] == n);
                assert(front.contains(n));
            }
        }
    }
}

/// The models that are visited along both kinds of inheritance are the least set of
/// names that holds the model's own and, for the classes of every model in it, the names
/// of the models that these inherit from or delegate to. The two lists together hold
/// exactly the classes of the visited models, but for classes outside any module when
/// seen from one; the first holds all of the model's own.
pub proof fn all_symbols_inherits_are_complete(
    odoo: SyncOdoo,
    from: Option<SymbolId>,
    model: ModelId,
    log: Seq<LogView>,
)
    requires
        odoo.first_model(odoo.models@[model as int].name@, model as int),
    ensures
        ({
            let visit = all_inherits_visit(odoo, from, model, log);
            let name = odoo.models@[model as int].name@;
            &&& visit.visited.contains(name)
            &&& complete_but(odoo, Set::empty(), visit.visited)
            &&& forall|names: Set<Seq<char>>|
                names.contains(name) && complete_but(odoo, Set::empty(), names)
                    ==> #[trigger] visit.visited.subset_of(names)
            &&& forall|e: EntryView| #[trigger]
                found(visit, e) <==> listed_of(odoo, from, Set::empty(), visit.visited, e)
            &&& forall|e: EntryView| #[trigger]
                listed(odoo, from, odoo.classes(model), e) ==> visit.main.contains(e)
        }),
{
    let none = Set::<Seq<char>>::empty();
    let depth = (odoo.models@.len() + 1) as nat;
    let name = odoo.models@[model as int].name@;
    let result = all_inherits_visit(odoo, from, model, log);
    unmet_shrinks(odoo.models@, none, none);
    visited(odoo, from, model, depth, log, none, arbitrary(), none);
    assert forall|names: Set<Seq<char>>|
        names.contains(name) && complete_but(
            odoo,
            none,
            names,
        ) implies #[trigger] result.visited.subset_of(names) by {
        visited(odoo, from, model, depth, log, none, arbitrary(), names);
    }
    assert forall|e: EntryView| #[trigger] found(result, e) <==> listed_of(
        odoo,
        from,
        none,
        result.visited,
        e,
    ) by {
        visited(odoo, from, model, depth, log, none, e, none);
    }
    assert forall|e: EntryView| #[trigger]
        listed(odoo, from, odoo.classes(model), e) implies result.main.contains(e) by {
        visited(odoo, from, model, depth, log, none, e, none);
    }
}

/// What a visit finds does not depend on what was logged before it.
pub proof fn visit_ignores_log(
    odoo: SyncOdoo,
    from: Option<SymbolId>,
    model: ModelId,
    depth: nat,
    log: Seq<LogView>,
    other: Seq<LogView>,
    before: Set<Seq<char>>,
)
    ensures
        same_but_log(
            visit(odoo, from, model, depth, log, before),
            visit(odoo, from, model, depth, other, before),
        ),
    decreases depth, 2int, 0nat,
{
    let name = odoo.models@[model as int].name@;
    if !before.contains(name) && depth > 0 {
        let start = Visit {
            main: Seq::empty(),
            inherits: Seq::empty(),
            log,
            visited: before.insert(name),
        };
        classes_ignore_log(
            odoo,
            from,
            odoo.classes(model),
            depth,
            start,
            Visit { log: other, ..start },
        );
    }
}

/// Whether two visits found the same.
pub open spec fn same_but_log(a: Visit, b: Visit) -> bool {
    a.main == b.main && a.inherits == b.inherits && a.visited == b.visited
}

proof fn classes_ignore_log(
    odoo: SyncOdoo,
    from: Option<SymbolId>,
    ids: Seq<SymbolId>,
    depth: nat,
    a: Visit,
    b: Visit,
)
    requires
        same_but_log(a, b),
    ensures
        same_but_log(
            visit_classes(odoo, from, ids, depth, a),
            visit_classes(odoo, from, ids, depth, b),
        ),
    decreases depth, 1int, ids.len(),
{
    if ids.len() > 0 {
        let front = ids.drop_last();
        let id = ids.last();
        classes_ignore_log(odoo, from, front, depth, a, b);
        let x = visit_classes(odoo, from, front, depth, a);
        let y = visit_classes(odoo, from, front, depth, b);
        let p = Visit {
            main: with_entry(odoo, from, id, x.main),
            log: with_message(odoo, from, id, x.log),
            ..x
        };
        let q = Visit {
            main: with_entry(odoo, from, id, y.main),
            log: with_message(odoo, from, id, y.log),
            ..y
        };
        let data = odoo.model_data(id);
        names_ignore_log(odoo, from, texts(data.inherit@), depth, false, p, q);
        names_ignore_log(
            odoo,
            from,
            delegates(data.inherits@),
            depth,
            true,
            visit_names(odoo, from, texts(data.inherit@), depth, false, p),
            visit_names(odoo, from, texts(data.inherit@), depth, false, q),
        );
    }
}

proof fn names_ignore_log(
    odoo: SyncOdoo,
    from: Option<SymbolId>,
    names: Seq<Seq<char>>,
    depth: nat,
    delegated: bool,
    a: Visit,
    b: Visit,
)
    requires
        same_but_log(a, b),
    ensures
        same_but_log(
            visit_names(odoo, from, names, depth, delegated, a),
            visit_names(odoo, from, names, depth, delegated, b),
        ),
    decreases depth, 0int, names.len(),
{
    if names.len() > 0 {
        let front = names.drop_last();
        names_ignore_log(odoo, from, front, depth, delegated, a, b);
        let x = visit_names(odoo, from, front, depth, delegated, a);
        let y = visit_names(odoo, from, front, depth, delegated, b);
        if odoo.model_at(names.last()) is Some && depth > 0 {
            visit_ignores_log(
                odoo,
                from,
                odoo.model_at(names.last())->0,
                (depth - 1) as nat,
                x.log,
                y.log,
                x.visited,
            );
        }
    }
}

/// Whether the class at `id` is of the model called `name`.
pub open spec fn is_class_of(odoo: SyncOdoo, name: Seq<char>, id: SymbolId) -> bool {
    odoo.model_at(name) is Some && odoo.classes(odoo.model_at(name)->0).contains(id)
}

/// Whether no class is of two models whose names are in `names`.
pub open spec fn in_one_model(odoo: SyncOdoo, names: Set<Seq<char>>) -> bool {
    forall|a: Seq<char>, b: Seq<char>, id: SymbolId|
        names.contains(a) && names.contains(b) && #[trigger] is_class_of(odoo, a, id)
            && #[trigger] is_class_of(odoo, b, id) ==> a == b
}

/// Whether no class is listed twice.
pub open spec fn distinct(v: Visit) -> bool {
    &&& v.main.no_duplicates()
    &&& v.inherits.no_duplicates()
    &&& forall|e: EntryView| !(#[trigger] v.main.contains(e) && v.inherits.contains(e))
}

/// Whether every class that is listed is of a model that was visited.
pub open spec fn of_visited(odoo: SyncOdoo, from: Option<SymbolId>, v: Visit) -> bool {
    forall|e: EntryView| #[trigger]
        found(v, e) ==> listed_of(odoo, from, Set::empty(), v.visited, e)
}

proof fn joined_distinct<T>(s: Seq<T>, t: Seq<T>)
    requires
        s.no_duplicates(),
        t.no_duplicates(),
        forall|e: T| !(#[trigger] s.contains(e) && t.contains(e)),
    ensures
        (s + t).no_duplicates(),
{
    assert forall|i: int, j: int| 0 <= i < s.len() && 0 <= j < t.len() implies s[i] != t[j] by {
        assert(s.contains(s[i]));
        assert(t.contains(t[j]));
    }
    vstd::seq_lib::lemma_no_dup_in_concat(s, t);
}

proof fn listed_is_class(
    odoo: SyncOdoo,
    from: Option<SymbolId>,
    ids: Seq<SymbolId>,
    e: EntryView,
)
    requires
        listed(odoo, from, ids, e),
    ensures
        ids.contains(e.0),
{
    let k = choose|k: int| 0 <= k < ids.len() && entry_of(odoo, from, #[trigger] ids[k]) == Some(e);
    assert(ids[k] == e.0);
}

proof fn not_of_both(
    odoo: SyncOdoo,
    from: Option<SymbolId>,
    a: Set<Seq<char>>,
    b: Set<Seq<char>>,
    e: EntryView,
)
    requires
        a.subset_of(b),
        in_one_model(odoo, b),
        listed_of(odoo, from, Set::empty(), a, e),
    ensures
        !listed_of(odoo, from, a, b, e),
{
    if listed_of(odoo, from, a, b, e) {
        let x = choose|n: Seq<char>|
            #[trigger] a.contains(n) && !Set::<Seq<char>>::empty().contains(n) && odoo.model_at(
                n,
            ) is Some && listed(odoo, from, odoo.classes(odoo.model_at(n)->0), e);
        let y = choose|n: Seq<char>|
            #[trigger] b.contains(n) && !a.contains(n) && odoo.model_at(n) is Some && listed(
                odoo,
                from,
                odoo.classes(odoo.model_at(n)->0),
                e,
            );
        listed_is_class(odoo, from, odoo.classes(odoo.model_at(x)->0), e);
        listed_is_class(odoo, from, odoo.classes(odoo.model_at(y)->0), e);
        assert(is_class_of(odoo, x, e.0) && is_class_of(odoo, y, e.0));
    }
}

proof fn visit_is_distinct(
    odoo: SyncOdoo,
    from: Option<SymbolId>,
    model: ModelId,
    depth: nat,
    log: Seq<LogView>,
    before: Set<Seq<char>>,
)
    requires
        odoo.first_model(odoo.models@[model as int].name@, model as int),
        unmet(odoo.models@, before) < depth,
        in_one_model(odoo, visit(odoo, from, model, depth, log, before).visited),
    ensures
        distinct(visit(odoo, from, model, depth, log, before)),
    decreases depth, 2int, 0nat,
{
    let name = odoo.models@[model as int].name@;
    odoo.first_model_is_unique(name);
    odoo.model_at_is_first(name);
    if !before.contains(name) {
        let ids = odoo.classes(model);
        let start = Visit {
            main: Seq::empty(),
            inherits: Seq::empty(),
            log,
            visited: before.insert(name),
        };
        unmet_drops(odoo.models@, before, model as int);
        assert(odoo.symbols@.len() == odoo.symbols.len());
        members_are_exact(odoo.symbols@, held(odoo.models@[model as int].symbols));
        assert(ids.take(ids.len() as int) =~= ids);
        classes_are_distinct(odoo, from, name, ids.len() as int, depth, start);
    }
}

proof fn classes_are_distinct(
    odoo: SyncOdoo,
    from: Option<SymbolId>,
    name: Seq<char>,
    n: int,
    depth: nat,
    start: Visit,
)
    requires
        depth > 0,
        unmet(odoo.models@, start.visited) < depth - 1,
        start.main.len() == 0,
        start.inherits.len() == 0,
        start.visited.contains(name),
        odoo.model_at(name) is Some,
        ascending(odoo.classes(odoo.model_at(name)->0)),
        0 <= n <= odoo.classes(odoo.model_at(name)->0).len(),
        in_one_model(
            odoo,
            visit_classes(
                odoo,
                from,
                odoo.classes(odoo.model_at(name)->0).take(n),
                depth,
                start,
            ).visited,
        ),
    ensures
        distinct(
            visit_classes(
                odoo,
                from,
                odoo.classes(odoo.model_at(name)->0).take(n),
                depth,
                start,
            ),
        ),
    decreases depth, 1int, n as nat,
{
    let all = odoo.classes(odoo.model_at(name)->0);
    let ids = all.take(n);
    let after = visit_classes(odoo, from, ids, depth, start);
    let none = Set::<Seq<char>>::empty();
    if n > 0 {
        let front = ids.drop_last();
        let id = ids.last();
        assert(front =~= all.take(n - 1));
        let before = visit_classes(odoo, from, front, depth, start);
        let step = Visit {
            main: with_entry(odoo, from, id, before.main),
            log: with_message(odoo, from, id, before.log),
            ..before
        };
        let data = odoo.model_data(id);
        let inherit = texts(data.inherit@);
        let delegated = delegates(data.inherits@);
        let middle = visit_names(odoo, from, inherit, depth, false, step);
        classes_visited(odoo, from, front, depth, start, arbitrary(), none);
        unmet_shrinks(odoo.models@, start.visited, before.visited);
        names_visited(odoo, from, inherit, depth, false, step, arbitrary(), none);
        unmet_shrinks(odoo.models@, before.visited, middle.visited);
        names_visited(odoo, from, delegated, depth, true, middle, arbitrary(), none);
        classes_are_distinct(odoo, from, name, n - 1, depth, start);
        assert(all.contains(id)) by {
            assert(all[n - 1] == id);
        }
        assert forall|e: EntryView| #[trigger] found(before, e) implies listed_of(
            odoo,
            from,
            none,
            before.visited,
            e,
        ) && e.0 != id by {
            classes_visited(odoo, from, front, depth, start, e, none);
            listed_compose(odoo, from, none, start.visited, before.visited, e);
            if listed(odoo, from, front, e) {
                listed_is_class(odoo, from, front, e);
                let k = choose|k: int| 0 <= k < front.len() && front[k] == e.0;
                assert(all[k] < all[n - 1]);
                let l = choose|l: int|
                    0 <= l < front.len() && entry_of(odoo, from, #[trigger] front[l]) == Some(e);
                assert(all[l] == front[l]);
                assert(listed(odoo, from, all, e));
                assert(before.visited.contains(name));
            } else {
                let other = choose|other: Seq<char>|
                    #[trigger] before.visited.contains(other) && !start.visited.contains(other)
                        && odoo.model_at(other) is Some && listed(
                        odoo,
                        from,
                        odoo.classes(odoo.model_at(other)->0),
                        e,
                    );
                listed_is_class(odoo, from, odoo.classes(odoo.model_at(other)->0), e);
                assert(before.visited.contains(name));
                assert(is_class_of(odoo, other, e.0));
                assert(is_class_of(odoo, name, id));
            }
        }
        assert(distinct(step) && of_visited(odoo, from, step)) by {
            if let Some(e) = entry_of(odoo, from, id) {
                assert(!found(before, e));
                assert forall|f: EntryView| #[trigger] found(step, f) implies listed_of(
                    odoo,
                    from,
                    none,
                    step.visited,
                    f,
                ) by {
                    pushed_contains(before.main, e, f);
                    if f == e {
                        assert(entry_of(odoo, from, all[n - 1]) == Some(e));
                        assert(listed(odoo, from, all, e));
                        assert(step.visited.contains(name));
                    } else {
                        assert(found(before, f));
                    }
                }
                assert forall|f: EntryView|
                    !(#[trigger] step.main.contains(f) && step.inherits.contains(f)) by {
                    pushed_contains(before.main, e, f);
                    assert(!(before.main.contains(f) && before.inherits.contains(f)));
                }
                assert forall|i: int| 0 <= i < before.main.len() implies before.main[i] != e by {
                    assert(before.main.contains(before.main[i]));
                }
            } else {
                assert forall|f: EntryView| #[trigger] found(step, f) implies listed_of(
                    odoo,
                    from,
                    none,
                    step.visited,
                    f,
                ) by {
                    assert(found(before, f));
                }
            }
        }
        names_are_distinct(odoo, from, inherit, depth, false, step);
        names_are_distinct(odoo, from, delegated, depth, true, middle);
    } else {
        assert(ids =~= Seq::empty());
    }
}

proof fn names_are_distinct(
    odoo: SyncOdoo,
    from: Option<SymbolId>,
    names: Seq<Seq<char>>,
    depth: nat,
    delegated: bool,
    start: Visit,
)
    requires
        depth > 0,
        unmet(odoo.models@, start.visited) < depth - 1,
        distinct(start),
        of_visited(odoo, from, start),
        in_one_model(odoo, visit_names(odoo, from, names, depth, delegated, start).visited),
    ensures
        distinct(visit_names(odoo, from, names, depth, delegated, start)),
        of_visited(odoo, from, visit_names(odoo, from, names, depth, delegated, start)),
    decreases depth, 0int, names.len(),
{
    let after = visit_names(odoo, from, names, depth, delegated, start);
    let none = Set::<Seq<char>>::empty();
    assert forall|e: EntryView| #[trigger] found(after, e) implies listed_of(
        odoo,
        from,
        none,
        after.visited,
        e,
    ) by {
        names_visited(odoo, from, names, depth, delegated, start, e, none);
        listed_compose(odoo, from, none, start.visited, after.visited, e);
        assert(found(start, e) ==> listed_of(odoo, from, none, start.visited, e));
    }
    if names.len() > 0 {
        let front = names.drop_last();
        let name = names.last();
        let before = visit_names(odoo, from, front, depth, delegated, start);
        names_visited(odoo, from, front, depth, delegated, start, arbitrary(), none);
        unmet_shrinks(odoo.models@, start.visited, before.visited);
        if odoo.model_at(name) is Some {
            let model = odoo.model_at(name)->0;
            odoo.model_at_is_first(name);
            let less = (depth - 1) as nat;
            let sub = visit(odoo, from, model, less, before.log, before.visited);
            visited(odoo, from, model, less, before.log, before.visited, arbitrary(), none);
            names_are_distinct(odoo, from, front, depth, delegated, start);
            visit_is_distinct(odoo, from, model, less, before.log, before.visited);
            assert forall|e: EntryView| !(#[trigger] found(before, e) && found(sub, e)) by {
                visited(odoo, from, model, less, before.log, before.visited, e, none);
                if found(before, e) {
                    not_of_both(odoo, from, before.visited, sub.visited, e);
                }
            }
            visits_join(before, sub);
        } else {
            names_are_distinct(odoo, from, front, depth, delegated, start);
        }
    }
}

proof fn visits_join(a: Visit, b: Visit)
    requires
        distinct(a),
        distinct(b),
        forall|e: EntryView| !(#[trigger] found(a, e) && found(b, e)),
    ensures
        distinct(Visit { main: a.main, inherits: a.inherits + b.main + b.inherits, ..b }),
        distinct(Visit { main: a.main + b.main, inherits: a.inherits + b.inherits, ..b }),
{
    let inherits = a.inherits + b.main;
    assert forall|e: EntryView| !(#[trigger] a.main.contains(e) && b.main.contains(e)) by {
        assert(!(found(a, e) && found(b, e)));
    }
    joined_distinct(a.main, b.main);
    assert forall|e: EntryView| !(#[trigger] a.inherits.contains(e) && b.inherits.contains(e)) by {
        assert(!(found(a, e) && found(b, e)));
    }
    joined_distinct(a.inherits, b.inherits);
    assert forall|e: EntryView| !(#[trigger] a.inherits.contains(e) && b.main.contains(e)) by {
        assert(!(found(a, e) && found(b, e)));
    }
    joined_distinct(a.inherits, b.main);
    assert forall|e: EntryView| !(#[trigger] inherits.contains(e) && b.inherits.contains(e)) by {
        joined_contains(a.inherits, b.main, e);
        assert(!(found(a, e) && found(b, e)));
        assert(!(b.main.contains(e) && b.inherits.contains(e)));
    }
    joined_distinct(inherits, b.inherits);
    assert forall|e: EntryView|
        !(#[trigger] a.main.contains(e) && (inherits + b.inherits).contains(e)) by {
        joined_contains(a.inherits, b.main, e);
        joined_contains(inherits, b.inherits, e);
        assert(!(found(a, e) && found(b, e)));
    }
    assert forall|e: EntryView|
        !(#[trigger] (a.main + b.main).contains(e) && (a.inherits + b.inherits).contains(e)) by {
        joined_contains(a.main, b.main, e);
        joined_contains(a.inherits, b.inherits, e);
        assert(!(found(a, e) && found(b, e)));
        assert(!(a.main.contains(e) && a.inherits.contains(e)));
        assert(!(b.main.contains(e) && b.inherits.contains(e)));
    }
}

/// Along both kinds of inheritance no class is listed twice, neither in one list nor in both,
/// unless it is a class of two of the models that were visited.
pub proof fn all_symbols_inherits_are_distinct(
    odoo: SyncOdoo,
    from: Option<SymbolId>,
    model: ModelId,
    log: Seq<LogView>,
)
    requires
        odoo.first_model(odoo.models@[model as int].name@, model as int),
        in_one_model(odoo, all_inherits_visit(odoo, from, model, log).visited),
    ensures
        ({
            let visit = all_inherits_visit(odoo, from, model, log);
            let ids = (visit.main + visit.inherits).map_values(|e: EntryView| e.0);
            ids.no_duplicates()
        }),
{
    let none = Set::<Seq<char>>::empty();
    let depth = (odoo.models@.len() + 1) as nat;
    let visit = all_inherits_visit(odoo, from, model, log);
    let all = visit.main + visit.inherits;
    let ids = all.map_values(|e: EntryView| e.0);
    unmet_shrinks(odoo.models@, none, none);
    visit_is_distinct(odoo, from, model, depth, log, none);
    joined_distinct(visit.main, visit.inherits);
    assert forall|i: int| 0 <= i < all.len() implies entry_of(odoo, from, ids[i]) == Some(
        #[trigger] all[i],
    ) by {
        let e = all[i];
        visited(odoo, from, model, depth, log, none, e, none);
        assert(all.contains(e));
        joined_contains(visit.main, visit.inherits, e);
        let name = choose|name: Seq<char>|
            #[trigger] visit.visited.contains(name) && !none.contains(name) && odoo.model_at(
                name,
            ) is Some && listed(odoo, from, odoo.classes(odoo.model_at(name)->0), e);
        let classes = odoo.classes(odoo.model_at(name)->0);
        let k = choose|k: int|
            0 <= k < classes.len() && entry_of(odoo, from, #[trigger] classes[k]) == Some(e);
        assert(classes[k] == e.0);
    }
    assert forall|i: int, j: int| 0 <= i < j < ids.len() implies ids[i] != ids[j] by {
        assert(all[i] != all[j]);
    }
}

} // verus!
