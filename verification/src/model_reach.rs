//! Models that are reached through visible classes.
use vstd::prelude::*;

use crate::constants::{ModelId, SymbolId};
use crate::handles::{held, Handle, HandleSet};
use crate::model::Model;
use crate::model_walk::{add_name, delegates, name_set, unmet, unmet_drops, unmet_shrinks};
use crate::model::contains_text;
use crate::odoo::{SessionInfo, SyncOdoo};
use crate::text::texts;

verus! {

impl SyncOdoo {
    /// Whether all classes of a model belong to modules.
    pub open spec fn in_modules(self, model: ModelId) -> bool {
        forall|id: SymbolId| #[trigger]
            self.classes(model).contains(id) ==> self.sym(id).module is Some
    }

    /// Whether all classes of the models that are reached belong to modules.
    pub open spec fn reaches_modules(self, from: SymbolId, model: ModelId) -> bool {
        forall|m: ModelId| #[trigger] self.reach(from, model).contains(m) ==> self.in_modules(m)
    }

    /// Names of the models that the class at `id` inherits from; none if it is of no model.
    pub open spec fn inherit_names(self, id: SymbolId) -> Seq<Seq<char>> {
        if self.is_model_class(id) {
            texts(self.model_data(id).inherit@)
        } else {
            Seq::empty()
        }
    }

    /// Names of the models that the class at `id` delegates to; none if it is of no model.
    pub open spec fn delegate_names(self, id: SymbolId) -> Seq<Seq<char>> {
        if self.is_model_class(id) {
            delegates(self.model_data(id).inherits@)
        } else {
            Seq::empty()
        }
    }

    /// Whether what a model lists for a module are classes.
    pub open spec fn lists_classes(self, from: SymbolId, model: ModelId) -> bool {
        forall|id: SymbolId| #[trigger]
            self.visible_classes(model, Some(from)).contains(id) ==> self.sym(id).data is Class
    }

    /// Whether what the models that are reached list for a module are classes.
    pub open spec fn reaches_classes(self, from: SymbolId, model: ModelId) -> bool {
        forall|m: ModelId| #[trigger]
            self.reach(from, model).contains(m) ==> self.lists_classes(from, m)
    }

    /// The classes of a model that are visible from a module.
    pub open spec fn visible_classes(self, model: ModelId, from: Option<SymbolId>) -> Seq<SymbolId> {
        self.classes(model).filter(|id: SymbolId| self.visible(from, id))
    }

    /// Whether a class of the model `a` that is visible from a module inherits from the
    /// model `b`.
    pub open spec fn flows(self, from: SymbolId, a: ModelId, b: ModelId) -> bool {
        exists|id: SymbolId, name: Seq<char>| #[trigger]
            self.visible_classes(a, Some(from)).contains(id) && #[trigger] self.inherit_names(
                id,
            ).contains(name) && self.model_at(name) == Some(b)
    }

    /// Whether a set of models holds all that its members flow to.
    pub open spec fn flow_closed(self, from: SymbolId, models: Set<ModelId>) -> bool {
        forall|a: ModelId, b: ModelId|
            models.contains(a) && #[trigger] self.flows(from, a, b) ==> models.contains(b)
    }

    /// The least set of models that holds `model` and all that its members flow to.
    pub open spec fn reach(self, from: SymbolId, model: ModelId) -> Set<ModelId> {
        Set::new(
            |m: ModelId|
                forall|models: Set<ModelId>|
                    models.contains(model) && #[trigger] self.flow_closed(from, models)
                        ==> models.contains(m),
        )
    }

    proof fn reach_is_closed(self, from: SymbolId, model: ModelId)
        ensures
            self.reach(from, model).contains(model),
            self.flow_closed(from, self.reach(from, model)),
    {
        let all = self.reach(from, model);
        assert forall|a: ModelId, b: ModelId|
            all.contains(a) && #[trigger] self.flows(from, a, b) implies all.contains(b) by {
            assert forall|models: Set<ModelId>|
                models.contains(model) && #[trigger] self.flow_closed(
                    from,
                    models,
                ) implies models.contains(b) by {
                assert(models.contains(a));
            }
        }
    }
}

/// Whether `h` is the handle of a visible class of one of the models.
pub open spec fn handle_of_visible(
    odoo: SyncOdoo,
    from: SymbolId,
    models: Seq<ModelId>,
    h: Handle,
) -> bool {
    exists|i: int, id: SymbolId|
        0 <= i < models.len() && #[trigger] odoo.visible_classes(models[i], Some(from)).contains(
            id,
        ) && odoo.sym(id).handle == h
}

/// Names of the models that the classes delegate to, first occurrences of known models.
pub open spec fn add_models(
    odoo: SyncOdoo,
    names: Seq<Seq<char>>,
    models: Seq<ModelId>,
) -> Seq<ModelId>
    decreases names.len(),
{
    if names.len() == 0 {
        models
    } else {
        let before = add_models(odoo, names.drop_last(), models);
        match odoo.model_at(names.last()) {
            Some(model) => if before.contains(model) {
                before
            } else {
                before.push(model)
            },
            None => before,
        }
    }
}

/// The known models that the classes delegate to, each once, in order.
pub open spec fn delegated_models(odoo: SyncOdoo, ids: Seq<SymbolId>) -> Seq<ModelId>
    decreases ids.len(),
{
    if ids.len() == 0 {
        Seq::empty()
    } else {
        add_models(
            odoo,
            odoo.delegate_names(ids.last()),
            delegated_models(odoo, ids.drop_last()),
        )
    }
}

/// Whether `id` is one of the models.
fn contains_model(list: &Vec<ModelId>, id: ModelId) -> (r: bool)
    ensures
        r == list@.contains(id),
{
    let mut i: usize = 0;
    while i < list.len()
        invariant
            i <= list.len(),
            forall|j: int| 0 <= j < i ==> list@[j] != id,
        decreases list.len() - i,
    {
        if list[i] == id {
            assert(list@[i as int] == id);
            return true;
        }
        i = i + 1;
    }
    false
}

impl Model {
    /// The models that the visible classes of this one delegate to, each once, in the
    /// order in which they are met. Without a module to look from there are none.
    pub fn get_inherits_models(
        model: ModelId,
        session: &SessionInfo,
        from_module: Option<SymbolId>,
    ) -> (r: Vec<ModelId>)
        requires
            session.sync_odoo.wf(),
            model < session.sync_odoo.models.len(),
            from_module is Some ==> session.sync_odoo.is_module(from_module->0)
                && session.sync_odoo.in_modules(model) && session.sync_odoo.lists_classes(
                from_module->0,
                model,
            ),
        ensures
            r@ == if from_module is Some {
                delegated_models(
                    session.sync_odoo,
                    session.sync_odoo.visible_classes(model, from_module),
                )
            } else {
                Seq::empty()
            },
    {
        let mut out: Vec<ModelId> = Vec::new();
        if from_module.is_none() {
            return out;
        }
        let odoo = &session.sync_odoo;
        let ids = Model::get_symbols(model, session, from_module);
        let mut i: usize = 0;
        assert(ids@.take(0) =~= Seq::empty());
        while i < ids.len()
            invariant
                i <= ids.len(),
                *odoo == session.sync_odoo,
                model < odoo.models.len(),
                ids@ == odoo.visible_classes(model, from_module),
                out@ == delegated_models(*odoo, ids@.take(i as int)),
            decreases ids.len() - i,
        {
            let id: SymbolId = ids[i];
            proof {
                assert(ids@.take(i + 1).drop_last() =~= ids@.take(i as int));
                let test = |id: SymbolId| odoo.visible(from_module, id);
                assert(ids@.contains(id));
                odoo.classes(model).lemma_filter_contains_rev(test, id);
            }
            if let Some(data) = odoo.get_model_data(id) {
                let ghost start = out@;
                let ghost names = delegates(data.inherits@);
                let mut j: usize = 0;
                assert(names.take(0) =~= Seq::empty());
                while j < data.inherits.len()
                    invariant
                        j <= data.inherits.len(),
                        names == delegates(data.inherits@),
                        out@ == add_models(*odoo, names.take(j as int), start),
                    decreases data.inherits.len() - j,
                {
                    let name = data.inherits[j].0.as_str();
                    proof {
                        assert(names.take(j + 1).drop_last() =~= names.take(j as int));
                        assert(names.take(j + 1).last() == name@);
                    }
                    if let Some(delegated) = odoo.get_model(name) {
                        if !contains_model(&out, delegated) {
                            out.push(delegated);
                        }
                    }
                    j = j + 1;
                }
                assert(names.take(j as int) =~= names);
            } else {
                assert(odoo.delegate_names(id) =~= Seq::empty());
            }
            i = i + 1;
        }
        assert(ids@.take(i as int) =~= ids@);
        out
    }

    /// The visible classes of the model and of all models that it inherits from through
    /// visible classes, as a weak set.
    pub fn get_full_model_symbols(
        model: ModelId,
        session: &SessionInfo,
        from_module: SymbolId,
    ) -> (r: HandleSet)
        requires
            session.sync_odoo.wf(),
            model < session.sync_odoo.models.len(),
            session.sync_odoo.is_module(from_module),
            session.sync_odoo.reaches_modules(from_module, model),
            session.sync_odoo.reaches_classes(from_module, model),
        ensures
            forall|h: Handle| #[trigger]
                held(r).contains(h) <==> exists|m: ModelId, id: SymbolId|
                    session.sync_odoo.reach(from_module, model).contains(m)
                        && #[trigger] session.sync_odoo.visible_classes(
                        m,
                        Some(from_module),
                    ).contains(id) && session.sync_odoo.sym(id).handle == h,
    {
        let odoo = &session.sync_odoo;
        let ghost all = odoo.reach(from_module, model);
        let mut symbol_set = HandleSet::new();
        let mut already_in: Vec<String> = Vec::new();
        let mut queue: Vec<ModelId> = Vec::new();
        queue.push(model);
        let mut head: usize = 0;
        proof {
            odoo.reach_is_closed(from_module, model);
            assert(texts(already_in@) =~= Seq::empty());
            assert(name_set(already_in@) =~= Set::empty());
            assert(queue@.take(0) =~= Seq::empty());
        }
        while head < queue.len()
            invariant
                head <= queue.len(),
                queue.len() > 0,
                queue@[0] == model,
                *odoo == session.sync_odoo,
                odoo.wf(),
                odoo.reaches_modules(from_module, model),
                odoo.is_module(from_module),
                all == odoo.reach(from_module, model),
                odoo.flow_closed(from_module, all),
                forall|i: int|
                    0 <= i < queue.len() ==> #[trigger] queue@[i] < odoo.models.len()
                        && all.contains(queue@[i]),
                forall|name: Seq<char>| #[trigger]
                    name_set(already_in@).contains(name) ==> odoo.model_at(name) is Some
                        && queue@.contains(odoo.model_at(name)->0),
                forall|i: int, b: ModelId|
                    0 <= i < head && #[trigger] odoo.flows(from_module, queue@[i], b)
                        ==> queue@.contains(b),
                forall|h: Handle| #[trigger]
                    held(symbol_set).contains(h) <==> handle_of_visible(
                        *odoo,
                        from_module,
                        queue@.take(head as int),
                        h,
                    ),
            decreases unmet(odoo.models@, name_set(already_in@)), queue.len() - head,
        {
            let current: ModelId = queue[head];
            let ghost before = queue@;
            let ghost met = name_set(already_in@);
            assert(queue@[head as int] < odoo.models.len());
            assert(odoo.in_modules(current));
            let ids = Model::get_symbols(current, session, Some(from_module));
            let ghost visible = odoo.visible_classes(current, Some(from_module));
            let mut i: usize = 0;
            while i < ids.len()
                invariant
                    i <= ids.len(),
                    head < before.len() <= queue.len(),
                    queue@.take(before.len() as int) == before,
                    *odoo == session.sync_odoo,
                    current == before[head as int],
                    current < odoo.models.len(),
                    all.contains(current),
                    odoo.flow_closed(from_module, all),
                    ids@ == visible,
                    visible == odoo.visible_classes(current, Some(from_module)),
                    met.subset_of(name_set(already_in@)),
                    queue.len() == before.len() ==> name_set(already_in@) == met,
                    queue.len() > before.len() ==> unmet(odoo.models@, name_set(already_in@))
                        < unmet(odoo.models@, met),
                    forall|k: int|
                        0 <= k < queue.len() ==> #[trigger] queue@[k] < odoo.models.len()
                            && all.contains(queue@[k]),
                    forall|name: Seq<char>| #[trigger]
                        name_set(already_in@).contains(name) ==> odoo.model_at(name) is Some
                            && queue@.contains(odoo.model_at(name)->0),
                    forall|k: int, name: Seq<char>|
                        0 <= k < i && #[trigger] odoo.inherit_names(ids@[k]).contains(name)
                            && odoo.model_at(name) is Some ==> name_set(
                            already_in@,
                        ).contains(name),
                decreases ids.len() - i,
            {
                let id: SymbolId = ids[i];
                proof {
                    let test = |id: SymbolId| odoo.visible(Some(from_module), id);
                    assert(visible.contains(ids@[i as int]));
                    odoo.classes(current).lemma_filter_contains_rev(test, id);
                }
                if let Some(data) = odoo.get_model_data(id) {
                    let ghost names = texts(data.inherit@);
                    let mut j: usize = 0;
                    while j < data.inherit.len()
                        invariant
                            j <= data.inherit.len(),
                            head < before.len() <= queue.len(),
                            queue@.take(before.len() as int) == before,
                            names == texts(data.inherit@),
                            names == odoo.inherit_names(id),
                            current < odoo.models.len(),
                            visible == odoo.visible_classes(current, Some(from_module)),
                            visible.contains(id),
                            all.contains(current),
                            odoo.flow_closed(from_module, all),
                            met.subset_of(name_set(already_in@)),
                            queue.len() == before.len() ==> name_set(already_in@) == met,
                            queue.len() > before.len() ==> unmet(
                                odoo.models@,
                                name_set(already_in@),
                            ) < unmet(odoo.models@, met),
                            forall|k: int|
                                0 <= k < queue.len() ==> #[trigger] queue@[k] < odoo.models.len()
                                    && all.contains(queue@[k]),
                            forall|name: Seq<char>| #[trigger]
                                name_set(already_in@).contains(name) ==> odoo.model_at(
                                    name,
                                ) is Some && queue@.contains(odoo.model_at(name)->0),
                            forall|k: int, name: Seq<char>|
                                0 <= k < i && #[trigger] odoo.inherit_names(ids@[k]).contains(name)
                            && odoo.model_at(name) is Some ==> name_set(
                                    already_in@,
                                ).contains(name),
                            forall|k: int|
                                0 <= k < j && odoo.model_at(#[trigger] names[k]) is Some
                                    ==> name_set(already_in@).contains(names[k]),
                        decreases data.inherit.len() - j,
                    {
                        let name = data.inherit[j].as_str();
                        assert(names[j as int] == name@);
                        if let Some(inherited) = odoo.get_model(name) {
                            let ghost seen = name_set(already_in@);
                            if !contains_text(&already_in, name) {
                                let ghost queued = queue@;
                                proof {
                                    assert(names.contains(name@));
                                    assert(odoo.flows(from_module, current, inherited));
                                    unmet_shrinks(odoo.models@, met, seen);
                                    unmet_drops(odoo.models@, seen, inherited as int);
                                }
                                add_name(&mut already_in, name);
                                queue.push(inherited);
                                proof {
                                    assert(queue@.take(before.len() as int) =~= before);
                                    assert forall|n: Seq<char>| #[trigger]
                                        name_set(already_in@).contains(n) implies odoo.model_at(
                                        n,
                                    ) is Some && queue@.contains(odoo.model_at(n)->0) by {
                                        if n == name@ {
                                            assert(queue@[queued.len() as int] == inherited);
                                        } else {
                                            assert(seen.contains(n));
                                            let k = choose|k: int|
                                                0 <= k < queued.len() && queued[k]
                                                    == odoo.model_at(n)->0;
                                            assert(queue@[k] == queued[k]);
                                        }
                                    }
                                }
                            }
                        }
                        j = j + 1;
                    }
                    assert forall|k: int, name: Seq<char>|
                        0 <= k < i + 1 && #[trigger] odoo.inherit_names(ids@[k]).contains(name)
                            && odoo.model_at(name) is Some implies name_set(
                        already_in@,
                    ).contains(name) by {
                        if k == i {
                            let l = choose|l: int| 0 <= l < names.len() && names[l] == name;
                            assert(odoo.model_at(names[l]) is Some);
                        }
                    }
                }
                i = i + 1;
            }
            let ghost queued = queue@;
            let ghost listed = queue@.take(head as int);
            let ghost next = queue@.take(head + 1);
            let ghost held_before = held(symbol_set);
            let mut k: usize = 0;
            while k < ids.len()
                invariant
                    k <= ids.len(),
                    *odoo == session.sync_odoo,
                    odoo.wf(),
                    ids@ == visible,
                    current < odoo.models.len(),
                    visible == odoo.visible_classes(current, Some(from_module)),
                    forall|h: Handle| #[trigger]
                        held(symbol_set).contains(h) <==> held_before.contains(h) || exists|
                            l: int,
                        |
                            0 <= l < k && odoo.sym(#[trigger] ids@[l]).handle == h,
                decreases ids.len() - k,
            {
                let id: SymbolId = ids[k];
                proof {
                    let test = |id: SymbolId| odoo.visible(Some(from_module), id);
                    assert(visible.contains(ids@[k as int]));
                    odoo.classes(current).lemma_filter_contains_rev(test, id);
                    assert(odoo.symbols@.len() == odoo.symbols.len());
                    crate::odoo::members_are_exact(
                        odoo.symbols@,
                        held(odoo.models@[current as int].symbols),
                    );
                    assert(odoo.live(id));
                }
                let ghost held_now = held(symbol_set);
                if let Some(symbol) = odoo.get(id) {
                    symbol_set.insert(&symbol.handle);
                }
                assert forall|h: Handle| #[trigger] held(symbol_set).contains(h)
                    <==> held_before.contains(h) || exists|l: int|
                    0 <= l < k + 1 && odoo.sym(#[trigger] ids@[l]).handle == h by {
                    if held_now.contains(h) && !held_before.contains(h) {
                        let l = choose|l: int| 0 <= l < k && odoo.sym(#[trigger] ids@[l]).handle == h;
                        assert(0 <= l < k + 1);
                    }
                    if h == odoo.sym(id).handle {
                        assert(odoo.sym(ids@[k as int]).handle == h);
                    }
                    if exists|l: int| 0 <= l < k + 1 && odoo.sym(#[trigger] ids@[l]).handle == h {
                        let l = choose|l: int|
                            0 <= l < k + 1 && odoo.sym(#[trigger] ids@[l]).handle == h;
                        if l < k {
                            assert(held_now.contains(h));
                        }
                    }
                }
                k = k + 1;
            }
            proof {
                assert(next.drop_last() =~= listed);
                assert forall|h: Handle| #[trigger] held(symbol_set).contains(h)
                    <==> handle_of_visible(*odoo, from_module, next, h) by {
                    assert(before.take(head as int) =~= listed);
                    assert(held_before.contains(h) <==> handle_of_visible(
                        *odoo,
                        from_module,
                        listed,
                        h,
                    ));
                    if handle_of_visible(*odoo, from_module, listed, h) {
                        let (a, id) = choose|a: int, id: SymbolId|
                            0 <= a < listed.len() && #[trigger] odoo.visible_classes(
                                listed[a],
                                Some(from_module),
                            ).contains(id) && odoo.sym(id).handle == h;
                        assert(next[a] == listed[a]);
                        assert(odoo.visible_classes(next[a], Some(from_module)).contains(id));
                    }
                    if exists|l: int| 0 <= l < k && odoo.sym(#[trigger] ids@[l]).handle == h {
                        let l = choose|l: int| 0 <= l < k && odoo.sym(#[trigger] ids@[l]).handle == h;
                        assert(visible.contains(ids@[l]));
                        assert(next[head as int] == current);
                        assert(odoo.visible_classes(
                            next[head as int],
                            Some(from_module),
                        ).contains(ids@[l]));
                    }
                    if handle_of_visible(*odoo, from_module, next, h) {
                        let (a, id) = choose|a: int, id: SymbolId|
                            0 <= a < next.len() && #[trigger] odoo.visible_classes(
                                next[a],
                                Some(from_module),
                            ).contains(id) && odoo.sym(id).handle == h;
                        if a < head {
                            assert(odoo.visible_classes(
                                listed[a],
                                Some(from_module),
                            ).contains(id));
                        } else {
                            let l = choose|l: int| 0 <= l < visible.len() && visible[l] == id;
                            assert(odoo.sym(ids@[l]).handle == h);
                        }
                    }
                }
                assert forall|i: int, b: ModelId|
                    0 <= i < head + 1 && #[trigger] odoo.flows(
                        from_module,
                        queue@[i],
                        b,
                    ) implies queue@.contains(b) by {
                    if i < head {
                        assert(before[i] == queue@[i]);
                        assert(odoo.flows(from_module, before[i], b));
                        assert(before.contains(b));
                        let a = choose|a: int| 0 <= a < before.len() && before[a] == b;
                        assert(queue@[a] == queue@.take(before.len() as int)[a]);
                    } else {
                        assert(queue@[head as int] == queue@.take(before.len() as int)[head as int]);
                        let (id, name) = choose|id: SymbolId, name: Seq<char>| #[trigger]
                            odoo.visible_classes(current, Some(from_module)).contains(id)
                                && #[trigger] odoo.inherit_names(id).contains(name)
                                && odoo.model_at(name) == Some(b);
                        let l = choose|l: int| 0 <= l < visible.len() && visible[l] == id;
                        assert(odoo.inherit_names(ids@[l]).contains(name));
                        assert(name_set(already_in@).contains(name));
                    }
                }
            }
            head = head + 1;
        }
        proof {
            let reached = queue@.to_set();
            assert(queue@.take(head as int) =~= queue@);
            assert forall|a: ModelId, b: ModelId|
                reached.contains(a) && #[trigger] odoo.flows(
                    from_module,
                    a,
                    b,
                ) implies reached.contains(b) by {
                let i = choose|i: int| 0 <= i < queue@.len() && queue@[i] == a;
                assert(odoo.flows(from_module, queue@[i], b));
            }
            assert(reached.contains(model)) by {
                assert(queue@[0] == model);
            }
            assert(odoo.flow_closed(from_module, reached));
            assert forall|h: Handle| #[trigger] held(symbol_set).contains(h) <==> exists|
                m: ModelId,
                id: SymbolId,
            |
                all.contains(m) && #[trigger] odoo.visible_classes(
                    m,
                    Some(from_module),
                ).contains(id) && odoo.sym(id).handle == h by {
                if handle_of_visible(*odoo, from_module, queue@, h) {
                    let (i, id) = choose|i: int, id: SymbolId|
                        0 <= i < queue@.len() && #[trigger] odoo.visible_classes(
                            queue@[i],
                            Some(from_module),
                        ).contains(id) && odoo.sym(id).handle == h;
                    assert(all.contains(queue@[i]));
                }
                if exists|m: ModelId, id: SymbolId|
                    all.contains(m) && #[trigger] odoo.visible_classes(
                        m,
                        Some(from_module),
                    ).contains(id) && odoo.sym(id).handle == h {
                    let (m, id) = choose|m: ModelId, id: SymbolId|
                        all.contains(m) && #[trigger] odoo.visible_classes(
                            m,
                            Some(from_module),
                        ).contains(id) && odoo.sym(id).handle == h;
                    assert(reached.contains(m));
                    let i = choose|i: int| 0 <= i < queue@.len() && queue@[i] == m;
                    assert(odoo.visible_classes(queue@[i], Some(from_module)).contains(id));
                }
            }
        }
        symbol_set
    }
}

/// Whether one of the names is that of the model `m`.
pub open spec fn names_model_at(odoo: SyncOdoo, names: Seq<Seq<char>>, m: ModelId) -> bool {
    exists|j: int| 0 <= j < names.len() && odoo.model_at(#[trigger] names[j]) == Some(m)
}

/// Whether one of the classes delegates to the model `m`.
pub open spec fn delegates_to(odoo: SyncOdoo, ids: Seq<SymbolId>, m: ModelId) -> bool {
    exists|i: int|
        0 <= i < ids.len() && names_model_at(
            odoo,
            odoo.delegate_names(#[trigger] ids[i]),
            m,
        )
}

proof fn added_models_are_exact(odoo: SyncOdoo, names: Seq<Seq<char>>, models: Seq<ModelId>)
    requires
        models.no_duplicates(),
    ensures
        add_models(odoo, names, models).no_duplicates(),
        forall|m: ModelId| #[trigger]
            add_models(odoo, names, models).contains(m) <==> models.contains(m) || names_model_at(
                odoo,
                names,
                m,
            ),
    decreases names.len(),
{
    if names.len() > 0 {
        let front = names.drop_last();
        let before = add_models(odoo, front, models);
        let after = add_models(odoo, names, models);
        added_models_are_exact(odoo, front, models);
        assert forall|m: ModelId| #[trigger] after.contains(m) <==> models.contains(m)
            || names_model_at(odoo, names, m) by {
            if names_model_at(odoo, front, m) {
                let j = choose|j: int|
                    0 <= j < front.len() && odoo.model_at(#[trigger] front[j]) == Some(m);
                assert(odoo.model_at(names[j]) == Some(m));
            }
            if names_model_at(odoo, names, m) {
                let j = choose|j: int|
                    0 <= j < names.len() && odoo.model_at(#[trigger] names[j]) == Some(m);
                if j < front.len() {
                    assert(odoo.model_at(front[j]) == Some(m));
                } else {
                    assert(names[j] == names.last());
                }
            }
            if odoo.model_at(names.last()) == Some(m) {
                assert(odoo.model_at(names[names.len() - 1]) == Some(m));
            }
            if before.contains(m) {
                let k = choose|k: int| 0 <= k < before.len() && before[k] == m;
                assert(after[k] == m);
            }
            if after.contains(m) && !before.contains(m) {
                let k = choose|k: int| 0 <= k < after.len() && after[k] == m;
                if k < before.len() {
                    assert(before[k] == m);
                }
            }
            if let Some(model) = odoo.model_at(names.last()) {
                if !before.contains(model) {
                    assert(after[before.len() as int] == model);
                }
            }
        }
    }
}

/// The models that classes delegate to are listed once each, and they are exactly the known models
/// that one of the classes names.
pub proof fn delegated_models_are_exact(odoo: SyncOdoo, ids: Seq<SymbolId>)
    ensures
        delegated_models(odoo, ids).no_duplicates(),
        forall|m: ModelId| #[trigger]
            delegated_models(odoo, ids).contains(m) <==> delegates_to(odoo, ids, m),
    decreases ids.len(),
{
    if ids.len() > 0 {
        let front = ids.drop_last();
        let names = odoo.delegate_names(ids.last());
        delegated_models_are_exact(odoo, front);
        added_models_are_exact(odoo, names, delegated_models(odoo, front));
        assert forall|m: ModelId| #[trigger]
            delegated_models(odoo, ids).contains(m) <==> delegates_to(odoo, ids, m) by {
            if delegates_to(odoo, front, m) {
                let i = choose|i: int|
                    0 <= i < front.len() && names_model_at(
                        odoo,
                        odoo.delegate_names(#[trigger] front[i]),
                        m,
                    );
                assert(ids[i] == front[i]);
            }
            if delegates_to(odoo, ids, m) {
                let i = choose|i: int|
                    0 <= i < ids.len() && names_model_at(
                        odoo,
                        odoo.delegate_names(#[trigger] ids[i]),
                        m,
                    );
                if i < front.len() {
                    assert(front[i] == ids[i]);
                }
            }
            assert(ids[ids.len() - 1] == ids.last());
        }
    }
}

} // verus!
