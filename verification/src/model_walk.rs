//! Walks over the models that a model inherits from.
use vstd::prelude::*;

use crate::constants::{MessageType, ModelId, SymbolId};
use crate::model::{contains_text, Model};
use crate::odoo::{log_views, LogMessage, LogView, SessionInfo, SyncOdoo};
use crate::text::texts;
use crate::xml_data::optional_text;

verus! {

/// A class, and the module that has to be depended on to use it, if that is not yet so.
pub type Entry = (SymbolId, Option<String>);

/// Mathematical model of an `Entry`.
pub type EntryView = (SymbolId, Option<Seq<char>>);

/// The models of a list of entries.
pub open spec fn entry_views(v: Seq<Entry>) -> Seq<EntryView> {
    v.map_values(|e: Entry| (e.0, optional_text(e.1)))
}

/// What a walk has come to.
#[verifier::ext_equal]
pub struct Walk {
    /// The classes that were found, in order.
    pub entries: Seq<EntryView>,
    /// Messages about classes outside any module.
    pub log: Seq<LogView>,
    /// Names of the inherited models that were met.
    pub seen: Set<Seq<char>>,
}

/// The message about a class outside any module.
pub open spec fn moduleless() -> LogView {
    LogView { typ: MessageType::WARNING, message: "A model should be declared in a module."@ }
}

/// How the class at `id` is listed for a module; not at all if it belongs to none.
pub open spec fn entry_of(odoo: SyncOdoo, from: Option<SymbolId>, id: SymbolId) -> Option<
    EntryView,
> {
    match (from, odoo.sym(id).module) {
        (None, _) => Some((id, None)),
        (Some(_), None) => None,
        (Some(from), Some(module)) => if odoo.in_deps(from, odoo.dir_of(module)) {
            Some((id, None))
        } else {
            Some((id, Some(odoo.dir_of(module))))
        },
    }
}

/// `entries` with the class at `id`, if it is listed.
pub open spec fn with_entry(
    odoo: SyncOdoo,
    from: Option<SymbolId>,
    id: SymbolId,
    entries: Seq<EntryView>,
) -> Seq<EntryView> {
    match entry_of(odoo, from, id) {
        Some(entry) => entries.push(entry),
        None => entries,
    }
}

/// `log` with a message, if the class at `id` is not listed.
pub open spec fn with_message(
    odoo: SyncOdoo,
    from: Option<SymbolId>,
    id: SymbolId,
    log: Seq<LogView>,
) -> Seq<LogView> {
    match entry_of(odoo, from, id) {
        Some(entry) => log,
        None => log.push(moduleless()),
    }
}

/// Walks over the classes `ids`, and over the models that they inherit from if
/// `inherited`, each model name at most once; `depth` bounds how far inheritance is
/// followed.
pub open spec fn classes_walk(
    odoo: SyncOdoo,
    from: Option<SymbolId>,
    inherited: bool,
    ids: Seq<SymbolId>,
    depth: nat,
    walk: Walk,
) -> Walk
    decreases depth, 1int, ids.len(),
{
    if ids.len() == 0 {
        walk
    } else {
        let before = classes_walk(odoo, from, inherited, ids.drop_last(), depth, walk);
        let id = ids.last();
        let listed = Walk {
            entries: with_entry(odoo, from, id, before.entries),
            log: with_message(odoo, from, id, before.log),
            ..before
        };
        if inherited {
            names_walk(odoo, from, texts(odoo.model_data(id).inherit@), depth, listed)
        } else {
            listed
        }
    }
}

/// Walks over the classes of the models called `names`, each name at most once.
pub open spec fn names_walk(
    odoo: SyncOdoo,
    from: Option<SymbolId>,
    names: Seq<Seq<char>>,
    depth: nat,
    walk: Walk,
) -> Walk
    decreases depth, 0int, names.len(),
{
    if names.len() == 0 {
        walk
    } else {
        let before = names_walk(odoo, from, names.drop_last(), depth, walk);
        let name = names.last();
        if before.seen.contains(name) {
            before
        } else {
            let marked = Walk { seen: before.seen.insert(name), ..before };
            match odoo.model_at(name) {
                Some(model) if depth > 0 => {
                    let sub = classes_walk(
                        odoo,
                        from,
                        true,
                        odoo.classes(model),
                        (depth - 1) as nat,
                        Walk { entries: Seq::empty(), ..marked },
                    );
                    Walk { entries: marked.entries + sub.entries, ..sub }
                },
                _ => marked,
            }
        }
    }
}

/// All classes that build a model, and those of the models it inherits from if
/// `inherited`.
pub open spec fn all_symbols_walk(
    odoo: SyncOdoo,
    from: Option<SymbolId>,
    inherited: bool,
    model: ModelId,
    log: Seq<LogView>,
) -> Walk {
    classes_walk(
        odoo,
        from,
        inherited,
        odoo.classes(model),
        odoo.models@.len(),
        Walk { entries: Seq::empty(), log, seen: Set::empty() },
    )
}

/// How many models have a name that was not met yet.
pub open spec fn unmet(models: Seq<Model>, seen: Set<Seq<char>>) -> nat
    decreases models.len(),
{
    if models.len() == 0 {
        0
    } else {
        unmet(models.drop_last(), seen) + if seen.contains(models.last().name@) {
            0nat
        } else {
            1nat
        }
    }
}

pub proof fn unmet_shrinks(models: Seq<Model>, a: Set<Seq<char>>, b: Set<Seq<char>>)
    requires
        a.subset_of(b),
    ensures
        unmet(models, b) <= unmet(models, a),
        unmet(models, a) <= models.len(),
    decreases models.len(),
{
    if models.len() > 0 {
        unmet_shrinks(models.drop_last(), a, b);
    }
}

pub proof fn unmet_drops(models: Seq<Model>, seen: Set<Seq<char>>, i: int)
    requires
        0 <= i < models.len(),
        !seen.contains(models[i].name@),
    ensures
        unmet(models, seen.insert(models[i].name@)) < unmet(models, seen),
    decreases models.len(),
{
    let more = seen.insert(models[i].name@);
    if i < models.len() - 1 {
        unmet_drops(models.drop_last(), seen, i);
    } else {
        unmet_shrinks(models.drop_last(), seen, more);
    }
}

/// The names as a set.
pub open spec fn name_set(names: Seq<String>) -> Set<Seq<char>> {
    texts(names).to_set()
}

/// Adds a name.
pub(crate) fn add_name(names: &mut Vec<String>, name: &str)
    ensures
        name_set(final(names)@) == name_set(old(names)@).insert(name@),
{
    let ghost before = texts(names@);
    names.push(name.to_owned());
    proof {
        let after = texts(names@);
        assert(after =~= before.push(name@));
        assert forall|x: Seq<char>| after.to_set().contains(x) <==> before.to_set().insert(
            name@,
        ).contains(x) by {
            if after.contains(x) {
                let i = choose|i: int| 0 <= i < after.len() && after[i] == x;
                if i < before.len() {
                    assert(before[i] == x);
                }
            }
            if before.contains(x) {
                let i = choose|i: int| 0 <= i < before.len() && before[i] == x;
                assert(after[i] == x);
            }
            assert(after[before.len() as int] == name@);
        }
        assert(after.to_set() =~= before.to_set().insert(name@));
    }
}

/// Lists the class at `id`, or logs that it belongs to no module.
fn list_class(
    odoo: &SyncOdoo,
    from: Option<SymbolId>,
    id: SymbolId,
    out: &mut Vec<Entry>,
    messages: &mut Vec<LogMessage>,
)
    requires
        odoo.wf(),
        odoo.live(id),
        from is Some ==> odoo.is_module(from->0),
    ensures
        entry_views(final(out)@) == with_entry(*odoo, from, id, entry_views(old(out)@)),
        log_views(final(messages)@) == with_message(*odoo, from, id, log_views(old(messages)@)),
{
    let ghost entries = entry_views(out@);
    let ghost log = log_views(messages@);
    match from {
        None => {
            out.push((id, None));
            assert(entry_views(out@) =~= entries.push((id, None)));
        },
        Some(from) => {
            match odoo.module_of(id) {
                Some(module) => {
                    let dir = odoo.dir_name(module);
                    if odoo.is_in_deps(from, dir) {
                        out.push((id, None));
                        assert(entry_views(out@) =~= entries.push((id, None)));
                    } else {
                        out.push((id, Some(dir.to_owned())));
                        assert(entry_views(out@) =~= entries.push((id, Some(dir@))));
                    }
                },
                None => {
                    messages.push(
                        LogMessage {
                            typ: MessageType::WARNING,
                            message: "A model should be declared in a module.".to_owned(),
                        },
                    );
                    assert(log_views(messages@) =~= log.push(moduleless()));
                },
            }
        },
    }
}

impl Model {
    /// All classes that build the model, each with the module that has to be depended
    /// on to use it, if that is not yet so. If `with_inheritance`, the classes of the
    /// models that it inherits from come too, those of each model name once.
    pub fn all_symbols(
        model: ModelId,
        session: &mut SessionInfo,
        from_module: Option<SymbolId>,
        with_inheritance: bool,
    ) -> (r: Vec<Entry>)
        requires
            old(session).sync_odoo.wf(),
            with_inheritance ==> old(session).sync_odoo.models_wf(),
            model < old(session).sync_odoo.models.len(),
            from_module is Some ==> old(session).sync_odoo.is_module(from_module->0),
        ensures
            ({
                let walk = all_symbols_walk(
                    old(session).sync_odoo,
                    from_module,
                    with_inheritance,
                    model,
                    log_views(old(session).messages@),
                );
                &&& entry_views(r@) == walk.entries
                &&& log_views(final(session).messages@) == walk.log
            }),
            final(session).sync_odoo == old(session).sync_odoo,
            final(session).disabled_codes == old(session).disabled_codes,
            final(session).requests == old(session).requests,
    {
        let mut seen: Vec<String> = Vec::new();
        proof {
            assert(texts(seen@) =~= Seq::empty());
            assert(name_set(seen@) =~= Set::empty());
            unmet_shrinks(session.sync_odoo.models@, Set::empty(), Set::empty());
        }
        Self::all_symbols_helper(
            model,
            &session.sync_odoo,
            from_module,
            with_inheritance,
            &mut seen,
            &mut session.messages,
            Ghost(session.sync_odoo.models@.len()),
        )
    }

    fn all_symbols_helper(
        model: ModelId,
        odoo: &SyncOdoo,
        from_module: Option<SymbolId>,
        with_inheritance: bool,
        seen_inherited_models: &mut Vec<String>,
        messages: &mut Vec<LogMessage>,
        Ghost(depth): Ghost<nat>,
    ) -> (r: Vec<Entry>)
        requires
            odoo.wf(),
            with_inheritance ==> odoo.models_wf(),
            model < odoo.models.len(),
            from_module is Some ==> odoo.is_module(from_module->0),
            unmet(odoo.models@, name_set(old(seen_inherited_models)@)) <= depth,
        ensures
            classes_walk(
                *odoo,
                from_module,
                with_inheritance,
                odoo.classes(model),
                depth,
                Walk {
                    entries: Seq::empty(),
                    log: log_views(old(messages)@),
                    seen: name_set(old(seen_inherited_models)@),
                },
            ) == (Walk {
                entries: entry_views(r@),
                log: log_views(final(messages)@),
                seen: name_set(final(seen_inherited_models)@),
            }),
            name_set(old(seen_inherited_models)@).subset_of(
                name_set(final(seen_inherited_models)@),
            ),
        decreases depth,
    {
        let ids = odoo.get_classes(model);
        let mut symbols: Vec<Entry> = Vec::new();
        let ghost start = Walk {
            entries: Seq::empty(),
            log: log_views(messages@),
            seen: name_set(seen_inherited_models@),
        };
        let mut i: usize = 0;
        proof {
            assert(ids@.take(0) =~= Seq::empty());
            assert(entry_views(symbols@) =~= Seq::empty());
        }
        while i < ids.len()
            invariant
                i <= ids.len(),
                odoo.wf(),
                with_inheritance ==> odoo.models_wf(),
                model < odoo.models.len(),
                ids@ == odoo.classes(model),
                forall|k: int| 0 <= k < ids.len() ==> odoo.live(#[trigger] ids@[k]),
                from_module is Some ==> odoo.is_module(from_module->0),
                start.seen.subset_of(name_set(seen_inherited_models@)),
                unmet(odoo.models@, start.seen) <= depth,
                classes_walk(
                    *odoo,
                    from_module,
                    with_inheritance,
                    ids@.take(i as int),
                    depth,
                    start,
                ) == (Walk {
                    entries: entry_views(symbols@),
                    log: log_views(messages@),
                    seen: name_set(seen_inherited_models@),
                }),
            decreases ids.len() - i,
        {
            let id: SymbolId = ids[i];
            proof {
                assert(ids@.take(i + 1).drop_last() =~= ids@.take(i as int));
                assert(odoo.classes(model).contains(ids@[i as int]));
                assert(with_inheritance ==> odoo.is_model_class(id));
                assert(odoo.live(ids@[i as int]));
            }
            list_class(odoo, from_module, id, &mut symbols, messages);
            i = i + 1;
            if !with_inheritance {
                continue;
            }
            if let Some(data) = odoo.get_model_data(id) {
                let ghost names = texts(data.inherit@);
                let ghost listed = Walk {
                    entries: entry_views(symbols@),
                    log: log_views(messages@),
                    seen: name_set(seen_inherited_models@),
                };
                let mut j: usize = 0;
                assert(names.take(0) =~= Seq::empty());
                while j < data.inherit.len()
                    invariant
                        j <= data.inherit.len(),
                        odoo.wf(),
                        odoo.models_wf(),
                        names == texts(data.inherit@),
                        from_module is Some ==> odoo.is_module(from_module->0),
                        start.seen.subset_of(name_set(seen_inherited_models@)),
                        unmet(odoo.models@, start.seen) <= depth,
                        names_walk(*odoo, from_module, names.take(j as int), depth, listed) == (
                        Walk {
                            entries: entry_views(symbols@),
                            log: log_views(messages@),
                            seen: name_set(seen_inherited_models@),
                        }),
                    decreases data.inherit.len() - j,
                {
                    let name = data.inherit[j].as_str();
                    proof {
                        assert(names.take(j + 1).drop_last() =~= names.take(j as int));
                        assert(names.take(j + 1).last() == name@);
                    }
                    j = j + 1;
                    if contains_text(seen_inherited_models, name) {
                        continue;
                    }
                    let ghost met = name_set(seen_inherited_models@);
                    add_name(seen_inherited_models, name);
                    if let Some(inherited) = odoo.get_model(name) {
                        proof {
                            unmet_shrinks(odoo.models@, start.seen, met);
                            unmet_drops(odoo.models@, met, inherited as int);
                        }
                        let mut more = Self::all_symbols_helper(
                            inherited,
                            odoo,
                            from_module,
                            true,
                            seen_inherited_models,
                            messages,
                            Ghost((depth - 1) as nat),
                        );
                        let ghost sofar = entry_views(symbols@);
                        let ghost added = entry_views(more@);
                        symbols.append(&mut more);
                        assert(entry_views(symbols@) =~= sofar + added);
                    }
                }
                assert(names.take(j as int) =~= names);
            }
        }
        assert(ids@.take(i as int) =~= ids@);
        symbols
    }
}

/// What a walk along both kinds of inheritance has come to.
#[verifier::ext_equal]
pub struct Visit {
    /// Classes of the model and of those it inherits from.
    pub main: Seq<EntryView>,
    /// Classes of the models it delegates to, and of what those inherit from.
    pub inherits: Seq<EntryView>,
    /// Messages about classes outside any module.
    pub log: Seq<LogView>,
    /// Names of the models that were visited.
    pub visited: Set<Seq<char>>,
}

/// Names of the models that a class delegates to.
pub open spec fn delegates(inherits: Seq<(String, String)>) -> Seq<Seq<char>> {
    inherits.map_values(|pair: (String, String)| pair.0@)
}

/// Visits a model, unless one of its name was visited; `depth` bounds how far
/// inheritance is followed.
pub open spec fn visit(
    odoo: SyncOdoo,
    from: Option<SymbolId>,
    model: ModelId,
    depth: nat,
    log: Seq<LogView>,
    visited: Set<Seq<char>>,
) -> Visit
    decreases depth, 2int, 0nat,
{
    let name = odoo.models@[model as int].name@;
    if visited.contains(name) || depth == 0 {
        Visit { main: Seq::empty(), inherits: Seq::empty(), log, visited }
    } else {
        visit_classes(
            odoo,
            from,
            odoo.classes(model),
            depth,
            Visit {
                main: Seq::empty(),
                inherits: Seq::empty(),
                log,
                visited: visited.insert(name),
            },
        )
    }
}

/// Visits classes: each one, then the models that it inherits from, then those that it
/// delegates to.
pub open spec fn visit_classes(
    odoo: SyncOdoo,
    from: Option<SymbolId>,
    ids: Seq<SymbolId>,
    depth: nat,
    start: Visit,
) -> Visit
    decreases depth, 1int, ids.len(),
{
    if ids.len() == 0 {
        start
    } else {
        let before = visit_classes(odoo, from, ids.drop_last(), depth, start);
        let id = ids.last();
        let listed = Visit {
            main: with_entry(odoo, from, id, before.main),
            log: with_message(odoo, from, id, before.log),
            ..before
        };
        let data = odoo.model_data(id);
        let inherited = visit_names(odoo, from, texts(data.inherit@), depth, false, listed);
        visit_names(odoo, from, delegates(data.inherits@), depth, true, inherited)
    }
}

/// Visits the models called `names`. What comes of a model that is delegated to counts
/// as delegated, all of it.
pub open spec fn visit_names(
    odoo: SyncOdoo,
    from: Option<SymbolId>,
    names: Seq<Seq<char>>,
    depth: nat,
    delegated: bool,
    start: Visit,
) -> Visit
    decreases depth, 0int, names.len(),
{
    if names.len() == 0 {
        start
    } else {
        let before = visit_names(odoo, from, names.drop_last(), depth, delegated, start);
        match odoo.model_at(names.last()) {
            Some(model) if depth > 0 => {
                let sub = visit(
                    odoo,
                    from,
                    model,
                    (depth - 1) as nat,
                    before.log,
                    before.visited,
                );
                if delegated {
                    Visit {
                        main: before.main,
                        inherits: before.inherits + sub.main + sub.inherits,
                        ..sub
                    }
                } else {
                    Visit {
                        main: before.main + sub.main,
                        inherits: before.inherits + sub.inherits,
                        ..sub
                    }
                }
            },
            _ => before,
        }
    }
}

/// All classes that build a model, along both kinds of inheritance.
pub open spec fn all_inherits_visit(
    odoo: SyncOdoo,
    from: Option<SymbolId>,
    model: ModelId,
    log: Seq<LogView>,
) -> Visit {
    visit(odoo, from, model, odoo.models@.len() + 1, log, Set::empty())
}

impl Model {
    /// All classes that build the model: those of the model and of the models it
    /// inherits from, and apart from them those of the models it delegates to. Every
    /// model is visited once; those inherited from come before those delegated to.
    pub fn all_symbols_inherits(
        model: ModelId,
        session: &mut SessionInfo,
        from_module: Option<SymbolId>,
    ) -> (r: (Vec<Entry>, Vec<Entry>))
        requires
            old(session).sync_odoo.wf(),
            old(session).sync_odoo.models_wf(),
            model < old(session).sync_odoo.models.len(),
            from_module is Some ==> old(session).sync_odoo.is_module(from_module->0),
        ensures
            ({
                let visit = all_inherits_visit(
                    old(session).sync_odoo,
                    from_module,
                    model,
                    log_views(old(session).messages@),
                );
                &&& entry_views(r.0@) == visit.main
                &&& entry_views(r.1@) == visit.inherits
                &&& log_views(final(session).messages@) == visit.log
            }),
            final(session).sync_odoo == old(session).sync_odoo,
            final(session).disabled_codes == old(session).disabled_codes,
            final(session).requests == old(session).requests,
    {
        let mut visited: Vec<String> = Vec::new();
        proof {
            assert(texts(visited@) =~= Seq::empty());
            assert(name_set(visited@) =~= Set::empty());
            unmet_shrinks(session.sync_odoo.models@, Set::empty(), Set::empty());
        }
        Self::all_inherits_helper(
            model,
            &session.sync_odoo,
            from_module,
            &mut visited,
            &mut session.messages,
            Ghost((session.sync_odoo.models@.len() + 1) as nat),
        )
    }

    pub(crate) fn all_inherits_helper(
        model: ModelId,
        odoo: &SyncOdoo,
        from_module: Option<SymbolId>,
        visited_models: &mut Vec<String>,
        messages: &mut Vec<LogMessage>,
        Ghost(depth): Ghost<nat>,
    ) -> (r: (Vec<Entry>, Vec<Entry>))
        requires
            odoo.wf(),
            odoo.models_wf(),
            model < odoo.models.len(),
            from_module is Some ==> odoo.is_module(from_module->0),
            unmet(odoo.models@, name_set(old(visited_models)@)) < depth,
        ensures
            visit(
                *odoo,
                from_module,
                model,
                depth,
                log_views(old(messages)@),
                name_set(old(visited_models)@),
            ) == (Visit {
                main: entry_views(r.0@),
                inherits: entry_views(r.1@),
                log: log_views(final(messages)@),
                visited: name_set(final(visited_models)@),
            }),
            name_set(old(visited_models)@).subset_of(name_set(final(visited_models)@)),
        decreases depth, 1int,
    {
        let name = odoo.models[model].name.as_str();
        let mut symbols: Vec<Entry> = Vec::new();
        let mut inherits_symbols: Vec<Entry> = Vec::new();
        proof {
            assert(entry_views(symbols@) =~= Seq::empty());
            assert(entry_views(inherits_symbols@) =~= Seq::empty());
        }
        if contains_text(visited_models, name) {
            return (symbols, inherits_symbols);
        }
        proof {
            unmet_drops(odoo.models@, name_set(visited_models@), model as int);
        }
        add_name(visited_models, name);
        let ids = odoo.get_classes(model);
        let ghost start = Visit {
            main: Seq::empty(),
            inherits: Seq::empty(),
            log: log_views(messages@),
            visited: name_set(visited_models@),
        };
        let mut i: usize = 0;
        assert(ids@.take(0) =~= Seq::empty());
        while i < ids.len()
            invariant
                i <= ids.len(),
                odoo.wf(),
                odoo.models_wf(),
                model < odoo.models.len(),
                ids@ == odoo.classes(model),
                from_module is Some ==> odoo.is_module(from_module->0),
                depth > 0,
                start.visited.subset_of(name_set(visited_models@)),
                unmet(odoo.models@, start.visited) < depth - 1,
                visit_classes(*odoo, from_module, ids@.take(i as int), depth, start) == (Visit {
                    main: entry_views(symbols@),
                    inherits: entry_views(inherits_symbols@),
                    log: log_views(messages@),
                    visited: name_set(visited_models@),
                }),
            decreases ids.len() - i,
        {
            let id: SymbolId = ids[i];
            proof {
                assert(ids@.take(i + 1).drop_last() =~= ids@.take(i as int));
                assert(odoo.classes(model).contains(ids@[i as int]));
                assert(odoo.is_model_class(id));
                unmet_shrinks(odoo.models@, start.visited, name_set(visited_models@));
            }
            list_class(odoo, from_module, id, &mut symbols, messages);
            if let Some(data) = odoo.get_model_data(id) {
                Self::visit_inherited(
                    &data.inherit,
                    odoo,
                    from_module,
                    false,
                    &mut symbols,
                    &mut inherits_symbols,
                    visited_models,
                    messages,
                    Ghost(depth),
                );
                let mut names: Vec<String> = Vec::new();
                let mut j: usize = 0;
                assert(texts(names@) =~= delegates(data.inherits@).take(0));
                while j < data.inherits.len()
                    invariant
                        j <= data.inherits.len(),
                        texts(names@) == delegates(data.inherits@).take(j as int),
                    decreases data.inherits.len() - j,
                {
                    let ghost sofar = texts(names@);
                    names.push(data.inherits[j].0.clone());
                    assert(texts(names@) =~= sofar.push(data.inherits@[j as int].0@));
                    assert(delegates(data.inherits@).take(j + 1) =~= sofar.push(
                        data.inherits@[j as int].0@,
                    ));
                    j = j + 1;
                }
                assert(delegates(data.inherits@).take(j as int) =~= delegates(data.inherits@));
                proof {
                    unmet_shrinks(odoo.models@, start.visited, name_set(visited_models@));
                }
                Self::visit_inherited(
                    &names,
                    odoo,
                    from_module,
                    true,
                    &mut symbols,
                    &mut inherits_symbols,
                    visited_models,
                    messages,
                    Ghost(depth),
                );
            }
            i = i + 1;
        }
        assert(ids@.take(i as int) =~= ids@);
        (symbols, inherits_symbols)
    }

    /// Visits the models called `names` and adds what comes of them.
    fn visit_inherited(
        names: &Vec<String>,
        odoo: &SyncOdoo,
        from_module: Option<SymbolId>,
        delegated: bool,
        symbols: &mut Vec<Entry>,
        inherits_symbols: &mut Vec<Entry>,
        visited_models: &mut Vec<String>,
        messages: &mut Vec<LogMessage>,
        Ghost(depth): Ghost<nat>,
    )
        requires
            odoo.wf(),
            odoo.models_wf(),
            from_module is Some ==> odoo.is_module(from_module->0),
            depth > 0,
            unmet(odoo.models@, name_set(old(visited_models)@)) < depth - 1,
        ensures
            visit_names(
                *odoo,
                from_module,
                texts(names@),
                depth,
                delegated,
                Visit {
                    main: entry_views(old(symbols)@),
                    inherits: entry_views(old(inherits_symbols)@),
                    log: log_views(old(messages)@),
                    visited: name_set(old(visited_models)@),
                },
            ) == (Visit {
                main: entry_views(final(symbols)@),
                inherits: entry_views(final(inherits_symbols)@),
                log: log_views(final(messages)@),
                visited: name_set(final(visited_models)@),
            }),
            name_set(old(visited_models)@).subset_of(name_set(final(visited_models)@)),
        decreases depth, 0int,
    {
        let ghost all = texts(names@);
        let ghost start = Visit {
            main: entry_views(symbols@),
            inherits: entry_views(inherits_symbols@),
            log: log_views(messages@),
            visited: name_set(visited_models@),
        };
        let mut i: usize = 0;
        assert(all.take(0) =~= Seq::empty());
        while i < names.len()
            invariant
                i <= names.len(),
                odoo.wf(),
                odoo.models_wf(),
                all == texts(names@),
                from_module is Some ==> odoo.is_module(from_module->0),
                depth > 0,
                start.visited.subset_of(name_set(visited_models@)),
                unmet(odoo.models@, start.visited) < depth - 1,
                visit_names(
                    *odoo,
                    from_module,
                    all.take(i as int),
                    depth,
                    delegated,
                    start,
                ) == (Visit {
                    main: entry_views(symbols@),
                    inherits: entry_views(inherits_symbols@),
                    log: log_views(messages@),
                    visited: name_set(visited_models@),
                }),
            decreases names.len() - i,
        {
            let name = names[i].as_str();
            proof {
                assert(all.take(i + 1).drop_last() =~= all.take(i as int));
                assert(all.take(i + 1).last() == name@);
                unmet_shrinks(odoo.models@, start.visited, name_set(visited_models@));
            }
            if let Some(model) = odoo.get_model(name) {
                let (mut main_result, mut inherits_result) = Self::all_inherits_helper(
                    model,
                    odoo,
                    from_module,
                    visited_models,
                    messages,
                    Ghost((depth - 1) as nat),
                );
                let ghost main = entry_views(main_result@);
                let ghost inherits = entry_views(inherits_result@);
                let ghost sofar = entry_views(inherits_symbols@);
                if delegated {
                    inherits_symbols.append(&mut main_result);
                    assert(entry_views(inherits_symbols@) =~= sofar + main);
                } else {
                    let ghost listed = entry_views(symbols@);
                    symbols.append(&mut main_result);
                    assert(entry_views(symbols@) =~= listed + main);
                }
                let ghost sofar = entry_views(inherits_symbols@);
                inherits_symbols.append(&mut inherits_result);
                assert(entry_views(inherits_symbols@) =~= sofar + inherits);
            }
            i = i + 1;
        }
        assert(all.take(i as int) =~= all);
    }
}

} // verus!
