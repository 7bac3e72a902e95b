//! Classes outside any module are warned of.
use vstd::prelude::*;

use crate::constants::{MessageType, ModelId, SymbolId};
use crate::model_walk::{all_inherits_visit, all_symbols_walk, classes_walk, delegates, entry_of, names_walk, visit, visit_classes, visit_names, with_entry, with_message, Visit, Walk};
use crate::odoo::{LogView, SyncOdoo};
use crate::text::texts;

verus! {

/// Whether a message warns of a class outside any module.
pub open spec fn is_warning(message: LogView) -> bool {
    message.typ == MessageType::WARNING && message.message
        == "A model should be declared in a module."@
}

/// Whether `b` is `a` with `n` such warnings added.
pub open spec fn warned(a: Seq<LogView>, b: Seq<LogView>, n: int) -> bool {
    &&& b.len() == a.len() + n
    &&& b.take(a.len() as int) == a
    &&& forall|i: int| a.len() <= i < b.len() ==> is_warning(#[trigger] b[i])
}

proof fn warned_compose(a: Seq<LogView>, b: Seq<LogView>, c: Seq<LogView>, m: int, n: int)
    requires
        warned(a, b, m),
        warned(b, c, n),
        0 <= m,
        0 <= n,
    ensures
        warned(a, c, m + n),
{
    assert(c.take(a.len() as int) =~= a) by {
        assert forall|i: int| 0 <= i < a.len() implies c[i] == a[i] by {
            assert(c.take(b.len() as int)[i] == b[i]);
            assert(b.take(a.len() as int)[i] == a[i]);
        }
    }
    assert forall|i: int| a.len() <= i < c.len() implies is_warning(#[trigger] c[i]) by {
        if i < b.len() {
            assert(c.take(b.len() as int)[i] == b[i]);
        }
    }
}

/// How far the walk for a module has come beside the one for none: both have met the same names,
/// and what it did not list it warned of.
spec fn alike(log: Seq<LogView>, before: int, all: Walk, some: Walk) -> bool {
    &&& all.seen == some.seen
    &&& some.entries.len() <= all.entries.len()
    &&& 0 <= before
    &&& warned(log, some.log, before + all.entries.len() - some.entries.len())
}

proof fn class_is_listed_or_warned(
    odoo: SyncOdoo,
    from: SymbolId,
    id: SymbolId,
    log: Seq<LogView>,
    before: int,
    all: Walk,
    some: Walk,
)
    requires
        alike(log, before, all, some),
    ensures
        alike(
            log,
            before,
            Walk {
                entries: with_entry(odoo, None, id, all.entries),
                log: with_message(odoo, None, id, all.log),
                ..all
            },
            Walk {
                entries: with_entry(odoo, Some(from), id, some.entries),
                log: with_message(odoo, Some(from), id, some.log),
                ..some
            },
        ),
{
    if entry_of(odoo, Some(from), id) is None {
        let next = with_message(odoo, Some(from), id, some.log);
        assert(next.take(some.log.len() as int) =~= some.log);
        assert(warned(some.log, next, 1));
        warned_compose(
            log,
            some.log,
            next,
            before + all.entries.len() - some.entries.len(),
            1,
        );
    }
}

proof fn classes_are_listed_or_warned(
    odoo: SyncOdoo,
    from: SymbolId,
    inherited: bool,
    ids: Seq<SymbolId>,
    depth: nat,
    log: Seq<LogView>,
    before: int,
    all: Walk,
    some: Walk,
)
    requires
        alike(log, before, all, some),
    ensures
        alike(
            log,
            before,
            classes_walk(odoo, None, inherited, ids, depth, all),
            classes_walk(odoo, Some(from), inherited, ids, depth, some),
        ),
    decreases depth, 1int, ids.len(),
{
    if ids.len() > 0 {
        let front = ids.drop_last();
        let id = ids.last();
        classes_are_listed_or_warned(odoo, from, inherited, front, depth, log, before, all, some);
        let a = classes_walk(odoo, None, inherited, front, depth, all);
        let b = classes_walk(odoo, Some(from), inherited, front, depth, some);
        class_is_listed_or_warned(odoo, from, id, log, before, a, b);
        let x = Walk {
            entries: with_entry(odoo, None, id, a.entries),
            log: with_message(odoo, None, id, a.log),
            ..a
        };
        let y = Walk {
            entries: with_entry(odoo, Some(from), id, b.entries),
            log: with_message(odoo, Some(from), id, b.log),
            ..b
        };
        if inherited {
            names_are_listed_or_warned(
                odoo,
                from,
                texts(odoo.model_data(id).inherit@),
                depth,
                log,
                before,
                x,
                y,
            );
        }
    }
}

proof fn names_are_listed_or_warned(
    odoo: SyncOdoo,
    from: SymbolId,
    names: Seq<Seq<char>>,
    depth: nat,
    log: Seq<LogView>,
    before: int,
    all: Walk,
    some: Walk,
)
    requires
        alike(log, before, all, some),
    ensures
        alike(
            log,
            before,
            names_walk(odoo, None, names, depth, all),
            names_walk(odoo, Some(from), names, depth, some),
        ),
    decreases depth, 0int, names.len(),
{
    if names.len() > 0 {
        let front = names.drop_last();
        let name = names.last();
        names_are_listed_or_warned(odoo, from, front, depth, log, before, all, some);
        let a = names_walk(odoo, None, front, depth, all);
        let b = names_walk(odoo, Some(from), front, depth, some);
        if !a.seen.contains(name) && odoo.model_at(name) is Some && depth > 0 {
            let model = odoo.model_at(name)->0;
            let x = Walk { seen: a.seen.insert(name), entries: Seq::empty(), ..a };
            let y = Walk { seen: b.seen.insert(name), entries: Seq::empty(), ..b };
            let more = before + a.entries.len() - b.entries.len();
            assert(alike(log, more, x, y));
            classes_are_listed_or_warned(
                odoo,
                from,
                true,
                odoo.classes(model),
                (depth - 1) as nat,
                log,
                more,
                x,
                y,
            );
        }
    }
}

/// Every class that is listed when no module asks is, when one asks, either listed for it or
/// warned of: the warnings make up for the entries that are missing, one for one.
pub proof fn listed_or_warned(
    odoo: SyncOdoo,
    from: SymbolId,
    inherited: bool,
    model: ModelId,
    log: Seq<LogView>,
)
    ensures
        ({
            let all = all_symbols_walk(odoo, None, inherited, model, log);
            let some = all_symbols_walk(odoo, Some(from), inherited, model, log);
            &&& some.entries.len() <= all.entries.len()
            &&& warned(log, some.log, all.entries.len() - some.entries.len())
            &&& all.log == log
        }),
{
    let start = Walk { entries: Seq::empty(), log, seen: Set::empty() };
    assert(log.take(log.len() as int) =~= log);
    assert(alike(log, 0, start, start));
    let ids = odoo.classes(model);
    let depth = odoo.models@.len();
    classes_are_listed_or_warned(odoo, from, inherited, ids, depth, log, 0, start, start);
    nobody_asks_no_warning(odoo, inherited, ids, depth, start);
}

proof fn nobody_asks_no_warning(
    odoo: SyncOdoo,
    inherited: bool,
    ids: Seq<SymbolId>,
    depth: nat,
    walk: Walk,
)
    ensures
        classes_walk(odoo, None, inherited, ids, depth, walk).log == walk.log,
    decreases depth, 1int, ids.len(),
{
    if ids.len() > 0 {
        let front = ids.drop_last();
        let id = ids.last();
        nobody_asks_no_warning(odoo, inherited, front, depth, walk);
        let a = classes_walk(odoo, None, inherited, front, depth, walk);
        let x = Walk {
            entries: with_entry(odoo, None, id, a.entries),
            log: with_message(odoo, None, id, a.log),
            ..a
        };
        no_name_no_warning(odoo, texts(odoo.model_data(id).inherit@), depth, x);
    }
}

proof fn no_name_no_warning(odoo: SyncOdoo, names: Seq<Seq<char>>, depth: nat, walk: Walk)
    ensures
        names_walk(odoo, None, names, depth, walk).log == walk.log,
    decreases depth, 0int, names.len(),
{
    if names.len() > 0 {
        let front = names.drop_last();
        let name = names.last();
        no_name_no_warning(odoo, front, depth, walk);
        let a = names_walk(odoo, None, front, depth, walk);
        if !a.seen.contains(name) && odoo.model_at(name) is Some && depth > 0 {
            nobody_asks_no_warning(
                odoo,
                true,
                odoo.classes(odoo.model_at(name)->0),
                (depth - 1) as nat,
                Walk { seen: a.seen.insert(name), entries: Seq::empty(), ..a },
            );
        }
    }
}

/// How many classes a visit has listed.
pub open spec fn listed_by(v: Visit) -> int {
    (v.main.len() + v.inherits.len()) as int
}

spec fn visits_alike(log: Seq<LogView>, before: int, all: Visit, some: Visit) -> bool {
    &&& all.visited == some.visited
    &&& listed_by(some) <= listed_by(all)
    &&& 0 <= before
    &&& warned(log, some.log, before + listed_by(all) - listed_by(some))
}

proof fn visit_lists_or_warns(
    odoo: SyncOdoo,
    from: SymbolId,
    model: ModelId,
    depth: nat,
    log: Seq<LogView>,
    before: int,
    a: Visit,
    b: Visit,
)
    requires
        visits_alike(log, before, a, b),
        listed_by(a) == 0,
        listed_by(b) == 0,
    ensures
        visits_alike(
            log,
            before,
            visit(odoo, None, model, depth, a.log, a.visited),
            visit(odoo, Some(from), model, depth, b.log, b.visited),
        ),
    decreases depth, 2int, 0nat,
{
    let name = odoo.models@[model as int].name@;
    if !a.visited.contains(name) && depth > 0 {
        visit_classes_list_or_warn(
            odoo,
            from,
            odoo.classes(model),
            depth,
            log,
            before,
            Visit {
                main: Seq::empty(),
                inherits: Seq::empty(),
                log: a.log,
                visited: a.visited.insert(name),
            },
            Visit {
                main: Seq::empty(),
                inherits: Seq::empty(),
                log: b.log,
                visited: b.visited.insert(name),
            },
        );
    }
}

proof fn visit_classes_list_or_warn(
    odoo: SyncOdoo,
    from: SymbolId,
    ids: Seq<SymbolId>,
    depth: nat,
    log: Seq<LogView>,
    before: int,
    all: Visit,
    some: Visit,
)
    requires
        visits_alike(log, before, all, some),
    ensures
        visits_alike(
            log,
            before,
            visit_classes(odoo, None, ids, depth, all),
            visit_classes(odoo, Some(from), ids, depth, some),
        ),
    decreases depth, 1int, ids.len(),
{
    if ids.len() > 0 {
        let front = ids.drop_last();
        let id = ids.last();
        visit_classes_list_or_warn(odoo, from, front, depth, log, before, all, some);
        let a = visit_classes(odoo, None, front, depth, all);
        let b = visit_classes(odoo, Some(from), front, depth, some);
        let x = Visit {
            main: with_entry(odoo, None, id, a.main),
            log: with_message(odoo, None, id, a.log),
            ..a
        };
        let y = Visit {
            main: with_entry(odoo, Some(from), id, b.main),
            log: with_message(odoo, Some(from), id, b.log),
            ..b
        };
        if entry_of(odoo, Some(from), id) is None {
            assert(y.log.take(b.log.len() as int) =~= b.log);
            assert(warned(b.log, y.log, 1));
            warned_compose(log, b.log, y.log, before + listed_by(a) - listed_by(b), 1);
        }
        let data = odoo.model_data(id);
        let names = texts(data.inherit@);
        visit_names_list_or_warn(odoo, from, names, depth, false, log, before, x, y);
        visit_names_list_or_warn(
            odoo,
            from,
            delegates(data.inherits@),
            depth,
            true,
            log,
            before,
            visit_names(odoo, None, names, depth, false, x),
            visit_names(odoo, Some(from), names, depth, false, y),
        );
    }
}

proof fn visit_names_list_or_warn(
    odoo: SyncOdoo,
    from: SymbolId,
    names: Seq<Seq<char>>,
    depth: nat,
    delegated: bool,
    log: Seq<LogView>,
    before: int,
    all: Visit,
    some: Visit,
)
    requires
        visits_alike(log, before, all, some),
    ensures
        visits_alike(
            log,
            before,
            visit_names(odoo, None, names, depth, delegated, all),
            visit_names(odoo, Some(from), names, depth, delegated, some),
        ),
    decreases depth, 0int, names.len(),
{
    if names.len() > 0 {
        let front = names.drop_last();
        let name = names.last();
        visit_names_list_or_warn(odoo, from, front, depth, delegated, log, before, all, some);
        let a = visit_names(odoo, None, front, depth, delegated, all);
        let b = visit_names(odoo, Some(from), front, depth, delegated, some);
        if odoo.model_at(name) is Some && depth > 0 {
            let more = before + listed_by(a) - listed_by(b);
            visit_lists_or_warns(
                odoo,
                from,
                odoo.model_at(name)->0,
                (depth - 1) as nat,
                log,
                more,
                Visit { main: Seq::empty(), inherits: Seq::empty(), ..a },
                Visit { main: Seq::empty(), inherits: Seq::empty(), ..b },
            );
        }
    }
}

/// The same along both kinds of inheritance.
pub proof fn visited_listed_or_warned(
    odoo: SyncOdoo,
    from: SymbolId,
    model: ModelId,
    log: Seq<LogView>,
)
    ensures
        ({
            let all = all_inherits_visit(odoo, None, model, log);
            let some = all_inherits_visit(odoo, Some(from), model, log);
            &&& listed_by(some) <= listed_by(all)
            &&& warned(log, some.log, listed_by(all) - listed_by(some))
        }),
{
    let start = Visit { main: Seq::empty(), inherits: Seq::empty(), log, visited: Set::empty() };
    assert(log.take(log.len() as int) =~= log);
    assert(visits_alike(log, 0, start, start));
    visit_lists_or_warns(
        odoo,
        from,
        model,
        (odoo.models@.len() + 1) as nat,
        log,
        0,
        start,
        start,
    );
}

} // verus!
