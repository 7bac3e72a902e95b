//! Which models a module reaches, and which model a field relates to.
use vstd::prelude::*;

use crate::constants::{ModelId, SymType, SymbolId};
use crate::evaluation::{ContextValue, Evaluation, EvaluationSymbol};
use crate::finding_laws::{defines, is_called, main_symbols_define};
use crate::listing_laws::{belongs, classes_belong, delegates_by, filter_keeps_passing, has_module, in_deps_is_listed, inherits_from, mentions};
use crate::model_reach::{delegated_models, delegated_models_are_exact, delegates_to, names_model_at};
use crate::model_walk::delegates;
use crate::odoo::SyncOdoo;
use crate::symbols::SymbolData;
use crate::text::texts;
use crate::variable_symbol::{first_related, first_said, is_field, named_model, refers_to_class, refers_to_field, related_by, said_by};

verus! {

/// Whether a module sees the class at `id` of a model: any module sees it if none is asked for,
/// else the one that is the class's or has it.
pub open spec fn sees(
    odoo: SyncOdoo,
    from: Option<SymbolId>,
    model: ModelId,
    id: SymbolId,
) -> bool {
    &&& belongs(odoo, model, id)
    &&& from matches Some(from) ==> has_module(
        odoo,
        from,
        odoo.symbols@[id as int]->0.module->0,
    )
}

/// The classes of a model that a module sees are those whose module it is or depends on.
pub proof fn visible_is_seen(
    odoo: SyncOdoo,
    model: ModelId,
    from: Option<SymbolId>,
    id: SymbolId,
)
    requires
        model < odoo.models.len(),
    ensures
        odoo.visible_classes(model, from).contains(id) <==> sees(odoo, from, model, id),
        odoo.classes(model).filter(|id: SymbolId| odoo.visible(from, id)).contains(id) <==> sees(
            odoo,
            from,
            model,
            id,
        ),
{
    classes_belong(odoo, model);
    filter_keeps_passing(odoo.classes(model), |id: SymbolId| odoo.visible(from, id), id);
    assert(odoo.classes(model).contains(id) <==> belongs(odoo, model, id));
    if from is Some {
        in_deps_is_listed(odoo, from->0, odoo.sym(id).module->0);
    }
}

/// A module has a model if and only if it sees a class that defines it.
pub proof fn model_is_in_deps(odoo: SyncOdoo, model: ModelId, from: SymbolId)
    requires
        model < odoo.models.len(),
    ensures
        (exists|id: SymbolId| #[trigger]
            odoo.classes(model).contains(id) && odoo.main_and_visible(Some(from), id)) <==> exists|
            id: SymbolId,
        | #[trigger] defines(odoo, model, Some(from), id),
{
    let all = odoo.classes(model);
    main_symbols_define(odoo, model, Some(from));
    assert forall|id: SymbolId| all.contains(id) && odoo.main_and_visible(Some(from), id)
        <==> #[trigger] defines(odoo, model, Some(from), id) by {
        filter_keeps_passing(all, |id: SymbolId| odoo.main_and_visible(Some(from), id), id);
        assert(odoo.main_symbols(model, Some(from)).contains(id) <==> defines(
            odoo,
            model,
            Some(from),
            id,
        ));
    }
    if exists|id: SymbolId| #[trigger]
        all.contains(id) && odoo.main_and_visible(Some(from), id) {
        let id = choose|id: SymbolId| #[trigger]
            all.contains(id) && odoo.main_and_visible(Some(from), id);
        assert(defines(odoo, model, Some(from), id));
    }
}

/// Whether a symbol is a class of an Odoo model.
pub open spec fn is_of_model(odoo: SyncOdoo, id: SymbolId) -> bool {
    &&& id < odoo.symbols.len()
    &&& odoo.symbols@[id as int] is Some
    &&& odoo.symbols@[id as int]->0.data is Class
    &&& odoo.symbols@[id as int]->0.data->Class_0.model is Some
}

/// Whether a class of the model `a` that the module sees inherits from the model `b`.
pub open spec fn leads_on(odoo: SyncOdoo, from: SymbolId, a: ModelId, b: ModelId) -> bool {
    exists|id: SymbolId| #[trigger]
        sees(odoo, Some(from), a, id) && is_of_model(odoo, id) && inherits_from(odoo, id, b)
}

/// Inheritance flows from one model to another along the classes that the module sees.
pub proof fn flow_is_inheritance(odoo: SyncOdoo, from: SymbolId, a: ModelId, b: ModelId)
    requires
        odoo.wf(),
        a < odoo.models.len(),
    ensures
        odoo.flows(from, a, b) <==> leads_on(odoo, from, a, b),
{
    if odoo.flows(from, a, b) {
        let (id, name) = choose|id: SymbolId, name: Seq<char>| #[trigger]
            odoo.visible_classes(a, Some(from)).contains(id) && #[trigger] odoo.inherit_names(
                id,
            ).contains(name) && odoo.model_at(name) == Some(b);
        visible_is_seen(odoo, a, Some(from), id);
        odoo.model_at_is_first(name);
        let list = odoo.model_data(id).inherit@;
        let k = choose|k: int| 0 <= k < texts(list).len() && texts(list)[k] == name;
        assert(list[k]@ == odoo.models@[b as int].name@);
        assert(sees(odoo, Some(from), a, id) && inherits_from(odoo, id, b));
    }
    if leads_on(odoo, from, a, b) {
        let id = choose|id: SymbolId| #[trigger]
            sees(odoo, Some(from), a, id) && is_of_model(odoo, id) && inherits_from(odoo, id, b);
        let name = odoo.models@[b as int].name@;
        visible_is_seen(odoo, a, Some(from), id);
        odoo.named_is_found(b as int);
        let list = odoo.model_data(id).inherit@;
        let k = choose|k: int| 0 <= k < list.len() && (#[trigger] list[k])@ == name;
        assert(texts(list)[k] == name);
        assert(odoo.inherit_names(id).contains(name));
    }
}

/// Whether a set of models holds what inheritance leads on to from its members.
pub open spec fn is_led_closed(odoo: SyncOdoo, from: SymbolId, models: Set<ModelId>) -> bool {
    forall|a: ModelId, b: ModelId|
        models.contains(a) && #[trigger] leads_on(odoo, from, a, b) ==> models.contains(b)
}

/// What a module reaches from a model is the least set that holds the model and, with every
/// model, those that a class of it that the module sees inherits from.
pub proof fn reach_is_least(odoo: SyncOdoo, from: SymbolId, model: ModelId)
    requires
        odoo.wf(),
        model < odoo.models.len(),
    ensures
        odoo.reach(from, model).contains(model),
        is_led_closed(odoo, from, odoo.reach(from, model)),
        forall|models: Set<ModelId>|
            models.contains(model) && #[trigger] is_led_closed(odoo, from, models) ==> odoo.reach(
                from,
                model,
            ).subset_of(models),
{
    let all = odoo.reach(from, model);
    assert forall|a: ModelId, b: ModelId|
        all.contains(a) && #[trigger] leads_on(odoo, from, a, b) implies all.contains(b) by {
        let id = choose|id: SymbolId| #[trigger]
            sees(odoo, Some(from), a, id) && is_of_model(odoo, id) && inherits_from(odoo, id, b);
        assert(a < odoo.models.len());
        flow_is_inheritance(odoo, from, a, b);
        assert forall|models: Set<ModelId>|
            models.contains(model) && #[trigger] odoo.flow_closed(
                from,
                models,
            ) implies models.contains(b) by {
            assert(models.contains(a));
            assert(odoo.flows(from, a, b));
        }
    }
    assert forall|models: Set<ModelId>|
        models.contains(model) && #[trigger] is_led_closed(
            odoo,
            from,
            models,
        ) implies all.subset_of(models) by {
        let kept = Set::new(|m: ModelId| models.contains(m) && m < odoo.models.len());
        assert forall|a: ModelId, b: ModelId|
            kept.contains(a) && #[trigger] odoo.flows(from, a, b) implies kept.contains(b) by {
            flow_is_inheritance(odoo, from, a, b);
            assert(leads_on(odoo, from, a, b));
            let id = choose|id: SymbolId| #[trigger]
                sees(odoo, Some(from), a, id) && is_of_model(odoo, id) && inherits_from(
                    odoo,
                    id,
                    b,
                );
        }
        assert(odoo.flow_closed(from, kept));
        assert forall|m: ModelId| all.contains(m) implies models.contains(m) by {
            assert(kept.contains(m));
        }
    }
}

/// The models that classes delegate to are those that one of them names, each once.
pub proof fn delegated_models_are_named(odoo: SyncOdoo, ids: Seq<SymbolId>, m: ModelId)
    requires
        odoo.wf(),
    ensures
        delegated_models(odoo, ids).no_duplicates(),
        delegated_models(odoo, ids).contains(m) <==> exists|i: int|
            0 <= i < ids.len() && is_of_model(odoo, #[trigger] ids[i]) && delegates_by(
                odoo,
                ids[i],
                m,
            ),
{
    delegated_models_are_exact(odoo, ids);
    assert(delegated_models(odoo, ids).contains(m) <==> delegates_to(odoo, ids, m));
    if delegates_to(odoo, ids, m) {
        let i = choose|i: int|
            0 <= i < ids.len() && names_model_at(
                odoo,
                odoo.delegate_names(#[trigger] ids[i]),
                m,
            );
        let names = odoo.delegate_names(ids[i]);
        let j = choose|j: int| 0 <= j < names.len() && odoo.model_at(#[trigger] names[j]) == Some(m);
        odoo.model_at_is_first(names[j]);
        let pairs = odoo.model_data(ids[i]).inherits@;
        assert(pairs[j].0@ == names[j]);
        assert(is_of_model(odoo, ids[i]) && delegates_by(odoo, ids[i], m));
    }
    if exists|i: int|
        0 <= i < ids.len() && is_of_model(odoo, #[trigger] ids[i]) && delegates_by(odoo, ids[i], m) {
        let i = choose|i: int|
            0 <= i < ids.len() && is_of_model(odoo, #[trigger] ids[i]) && delegates_by(
                odoo,
                ids[i],
                m,
            );
        let pairs = odoo.model_data(ids[i]).inherits@;
        let k = choose|k: int|
            0 <= k < pairs.len() && (#[trigger] pairs[k]).0@ == odoo.models@[m as int].name@;
        odoo.named_is_found(m as int);
        let names = odoo.delegate_names(ids[i]);
        assert(names[k] == odoo.models@[m as int].name@);
        assert(names_model_at(odoo, names, m));
    }
}

/// Whether a reference is to a symbol that is there and called `name`.
pub open spec fn is_to_name(odoo: SyncOdoo, reference: EvaluationSymbol, name: Seq<char>) -> bool {
    reference.target matches Some(target) && target < odoo.symbols.len() && (
    odoo.symbols@[target as int] matches Some(symbol) && symbol.name@ == name)
}

/// Whether a reference is to one of the three classes of relational fields.
pub open spec fn is_to_field(odoo: SyncOdoo, reference: EvaluationSymbol) -> bool {
    is_to_name(odoo, reference, "Many2one"@) || is_to_name(odoo, reference, "One2many"@)
        || is_to_name(odoo, reference, "Many2many"@)
}

/// Whether a reference is to a class, other than those.
pub open spec fn is_to_class(odoo: SyncOdoo, reference: EvaluationSymbol) -> bool {
    &&& reference.target matches Some(target) && target < odoo.symbols.len() && (
    odoo.symbols@[target as int] matches Some(symbol) && (symbol.data is Class || symbol.data
        == SymbolData::Other(SymType::CLASS)))
    &&& !is_to_field(odoo, reference)
}

/// Whether a reference to a relational field names a known model in its context, whose defining
/// classes, as a module sees them, are `classes`.
pub open spec fn names_comodel(
    odoo: SyncOdoo,
    from: Option<SymbolId>,
    reference: EvaluationSymbol,
    classes: Seq<SymbolId>,
) -> bool {
    &&& is_to_field(odoo, reference)
    &&& reference.context.has("comodel_name"@)
    &&& reference.context.value("comodel_name"@) matches ContextValue::STRING(comodel) && exists|
        model: ModelId,
    | #[trigger]
        is_called(odoo, model, comodel@) && classes == odoo.main_symbols(model, from)
}

/// Whether a reference tells the model that a field relates to: it is to a class, or to a field
/// that names a model.
pub open spec fn tells(
    odoo: SyncOdoo,
    from: Option<SymbolId>,
    reference: EvaluationSymbol,
    classes: Seq<SymbolId>,
) -> bool {
    if is_to_class(odoo, reference) {
        classes == seq![reference.target->0]
    } else {
        names_comodel(odoo, from, reference, classes)
    }
}

/// Whether a reference tells anything.
pub open spec fn tells_something(
    odoo: SyncOdoo,
    from: Option<SymbolId>,
    reference: EvaluationSymbol,
) -> bool {
    exists|classes: Seq<SymbolId>| #[trigger] tells(odoo, from, reference, classes)
}

/// Whether the field itself names a model.
pub open spec fn names_something(
    odoo: SyncOdoo,
    from: Option<SymbolId>,
    reference: EvaluationSymbol,
) -> bool {
    exists|classes: Seq<SymbolId>| #[trigger] names_comodel(odoo, from, reference, classes)
}

/// Whether an evaluation is that of a relational field: it is to one itself, or, if it is to no
/// other class, one of the references that it leads to is.
pub open spec fn is_relation(
    odoo: SyncOdoo,
    symbol: EvaluationSymbol,
    references: Seq<EvaluationSymbol>,
) -> bool {
    is_to_field(odoo, symbol) || !is_to_class(odoo, symbol) && exists|i: int|
        0 <= i < references.len() && is_to_field(odoo, #[trigger] references[i])
}

/// Whether an evaluation says what a field relates to: what it names itself, or else what the
/// first telling reference tells that it leads to.
pub open spec fn relates(
    odoo: SyncOdoo,
    from: Option<SymbolId>,
    symbol: EvaluationSymbol,
    references: Seq<EvaluationSymbol>,
    classes: Seq<SymbolId>,
) -> bool {
    is_relation(odoo, symbol, references) && if names_something(odoo, from, symbol) {
        names_comodel(odoo, from, symbol, classes)
    } else {
        exists|i: int|
            0 <= i < references.len() && #[trigger] tells(odoo, from, references[i], classes)
                && forall|j: int|
                0 <= j < i ==> !#[trigger] tells_something(odoo, from, references[j])
    }
}

/// Whether an evaluation says anything of what a field relates to.
pub open spec fn relates_to_something(
    odoo: SyncOdoo,
    from: Option<SymbolId>,
    symbol: EvaluationSymbol,
    references: Seq<EvaluationSymbol>,
) -> bool {
    exists|classes: Seq<SymbolId>| #[trigger] relates(odoo, from, symbol, references, classes)
}

proof fn references_are_told_apart(odoo: SyncOdoo, reference: EvaluationSymbol)
    ensures
        refers_to_field(odoo, reference) == is_to_field(odoo, reference),
        refers_to_class(odoo, reference) == is_to_class(odoo, reference),
{
}

proof fn comodel_is_named(
    odoo: SyncOdoo,
    from: Option<SymbolId>,
    reference: EvaluationSymbol,
    classes: Seq<SymbolId>,
)
    requires
        odoo.wf(),
    ensures
        names_comodel(odoo, from, reference, classes) <==> named_model(odoo, from, reference)
            == Some(classes),
{
    references_are_told_apart(odoo, reference);
    let context = crate::evaluation::context_view(reference.context);
    assert(context.contains_key("comodel_name"@) == reference.context.has("comodel_name"@));
    if reference.context.has("comodel_name"@) {
        assert(context["comodel_name"@] == reference.context.value("comodel_name"@)@);
        if let ContextValue::STRING(comodel) = reference.context.value("comodel_name"@) {
            assert forall|model: ModelId| #[trigger]
                is_called(odoo, model, comodel@) implies odoo.model_at(comodel@) == Some(model) by {
                odoo.named_is_found(model as int);
            }
            if odoo.model_at(comodel@) is Some {
                odoo.model_at_is_first(comodel@);
                assert(is_called(odoo, odoo.model_at(comodel@)->0, comodel@));
            }
        }
    }
}

proof fn related_is_told(
    odoo: SyncOdoo,
    from: Option<SymbolId>,
    reference: EvaluationSymbol,
    classes: Seq<SymbolId>,
)
    requires
        odoo.wf(),
    ensures
        tells(odoo, from, reference, classes) <==> related_by(odoo, from, reference) == Some(
            classes,
        ),
{
    references_are_told_apart(odoo, reference);
    comodel_is_named(odoo, from, reference, classes);
}

proof fn telling_is_some(odoo: SyncOdoo, from: Option<SymbolId>, reference: EvaluationSymbol)
    requires
        odoo.wf(),
    ensures
        tells_something(odoo, from, reference) <==> related_by(odoo, from, reference) is Some,
        names_something(odoo, from, reference) <==> named_model(odoo, from, reference) is Some,
{
    assert forall|classes: Seq<SymbolId>| #[trigger]
        tells(odoo, from, reference, classes) <==> related_by(odoo, from, reference) == Some(
            classes,
        ) by {
        related_is_told(odoo, from, reference, classes);
    }
    assert forall|classes: Seq<SymbolId>| #[trigger]
        names_comodel(odoo, from, reference, classes) <==> named_model(odoo, from, reference)
            == Some(classes) by {
        comodel_is_named(odoo, from, reference, classes);
    }
    if related_by(odoo, from, reference) is Some {
        assert(tells(odoo, from, reference, related_by(odoo, from, reference)->0));
    }
    if named_model(odoo, from, reference) is Some {
        assert(names_comodel(odoo, from, reference, named_model(odoo, from, reference)->0));
    }
}

/// Whether the first telling reference tells these classes.
spec fn first_tells(
    odoo: SyncOdoo,
    from: Option<SymbolId>,
    references: Seq<EvaluationSymbol>,
    classes: Seq<SymbolId>,
) -> bool {
    exists|i: int|
        0 <= i < references.len() && #[trigger] tells(odoo, from, references[i], classes) && forall|
            j: int,
        |
            0 <= j < i ==> !#[trigger] tells_something(odoo, from, references[j])
}

proof fn first_telling_is_first(
    odoo: SyncOdoo,
    from: Option<SymbolId>,
    references: Seq<EvaluationSymbol>,
    classes: Seq<SymbolId>,
)
    requires
        odoo.wf(),
    ensures
        first_tells(odoo, from, references, classes) <==> first_related(odoo, from, references)
            == Some(classes),
        first_related(odoo, from, references) is None ==> forall|i: int|
            0 <= i < references.len() ==> !#[trigger] tells_something(odoo, from, references[i]),
    decreases references.len(),
{
    if references.len() > 0 {
        let front = references.drop_last();
        let n = references.len() - 1;
        let last = references.last();
        first_telling_is_first(odoo, from, front, classes);
        related_is_told(odoo, from, last, classes);
        telling_is_some(odoo, from, last);
        assert(references[n] == last);
        assert forall|i: int| 0 <= i < front.len() implies front[i] == #[trigger] references[i] by {}
        if first_tells(odoo, from, front, classes) {
            let i = choose|i: int|
                0 <= i < front.len() && #[trigger] tells(odoo, from, front[i], classes) && forall|
                    j: int,
                |
                    0 <= j < i ==> !#[trigger] tells_something(odoo, from, front[j]);
            assert(tells(odoo, from, references[i], classes));
            assert forall|j: int| 0 <= j < i implies !#[trigger] tells_something(
                odoo,
                from,
                references[j],
            ) by {
                assert(!tells_something(odoo, from, front[j]));
            }
        }
        if first_tells(odoo, from, references, classes) {
            let i = choose|i: int|
                0 <= i < references.len() && #[trigger] tells(odoo, from, references[i], classes)
                    && forall|j: int|
                    0 <= j < i ==> !#[trigger] tells_something(odoo, from, references[j]);
            if i < n {
                assert(tells(odoo, from, front[i], classes));
                assert forall|j: int| 0 <= j < i implies !#[trigger] tells_something(
                    odoo,
                    from,
                    front[j],
                ) by {
                    assert(!tells_something(odoo, from, references[j]));
                }
            } else if first_related(odoo, from, front) is Some {
                let other = first_related(odoo, from, front)->0;
                first_telling_is_first(odoo, from, front, other);
                let k = choose|k: int|
                    0 <= k < front.len() && #[trigger] tells(odoo, from, front[k], other) && forall|
                        j: int,
                    |
                        0 <= j < k ==> !#[trigger] tells_something(odoo, from, front[j]);
                assert(tells_something(odoo, from, references[k]));
            }
        }
        if first_related(odoo, from, references) is None {
            assert forall|i: int| 0 <= i < references.len() implies !#[trigger] tells_something(
                odoo,
                from,
                references[i],
            ) by {
                if i < n {
                    assert(!tells_something(odoo, from, front[i]));
                }
            }
        } else if first_related(odoo, from, front) is None && related_by(odoo, from, last) == Some(
            classes,
        ) {
            assert(tells(odoo, from, references[n], classes));
            assert forall|j: int| 0 <= j < n implies !#[trigger] tells_something(
                odoo,
                from,
                references[j],
            ) by {
                assert(!tells_something(odoo, from, front[j]));
            }
        }
    }
}

proof fn said_is_related(
    odoo: SyncOdoo,
    from: Option<SymbolId>,
    symbol: EvaluationSymbol,
    references: Seq<EvaluationSymbol>,
    classes: Seq<SymbolId>,
)
    requires
        odoo.wf(),
    ensures
        relates(odoo, from, symbol, references, classes) <==> said_by(
            odoo,
            from,
            symbol,
            references,
        ) == Some(classes),
        is_field(odoo, symbol, references) == is_relation(odoo, symbol, references),
{
    references_are_told_apart(odoo, symbol);
    comodel_is_named(odoo, from, symbol, classes);
    telling_is_some(odoo, from, symbol);
    first_telling_is_first(odoo, from, references, classes);
    assert(first_tells(odoo, from, references, classes) == exists|i: int|
        0 <= i < references.len() && #[trigger] tells(odoo, from, references[i], classes) && forall|
            j: int,
        |
            0 <= j < i ==> !#[trigger] tells_something(odoo, from, references[j]));
    assert((exists|i: int| 0 <= i < references.len() && refers_to_field(odoo, #[trigger] references[i]))
        <==> (exists|i: int|
        0 <= i < references.len() && is_to_field(odoo, #[trigger] references[i]))) by {
        if exists|i: int| 0 <= i < references.len() && refers_to_field(odoo, #[trigger] references[i]) {
            let i = choose|i: int|
                0 <= i < references.len() && refers_to_field(odoo, #[trigger] references[i]);
            references_are_told_apart(odoo, references[i]);
        }
        if exists|i: int| 0 <= i < references.len() && is_to_field(odoo, #[trigger] references[i]) {
            let i = choose|i: int|
                0 <= i < references.len() && is_to_field(odoo, #[trigger] references[i]);
            references_are_told_apart(odoo, references[i]);
        }
    }
}

/// The model that a variable relates to is what the first of its evaluations says that says
/// something; if none does, there is no such model.
pub proof fn first_saying_decides(
    odoo: SyncOdoo,
    from: Option<SymbolId>,
    evaluations: Seq<Evaluation>,
    lists: Seq<Vec<EvaluationSymbol>>,
    i: int,
    classes: Seq<SymbolId>,
)
    requires
        odoo.wf(),
        lists.len() == evaluations.len(),
    ensures
        0 <= i < evaluations.len() && relates(
            odoo,
            from,
            evaluations[i].symbol,
            lists[i]@,
            classes,
        ) && (forall|j: int|
            0 <= j < i ==> !relates_to_something(
                odoo,
                from,
                (#[trigger] evaluations[j]).symbol,
                lists[j]@,
            )) ==> first_said(odoo, from, evaluations, lists) == Some(classes),
        (forall|j: int|
            0 <= j < evaluations.len() ==> !relates_to_something(
                odoo,
                from,
                (#[trigger] evaluations[j]).symbol,
                lists[j]@,
            )) <==> first_said(odoo, from, evaluations, lists) is None,
    decreases evaluations.len(),
{
    if evaluations.len() > 0 {
        let front = evaluations.drop_last();
        let rest = lists.drop_last();
        let n = evaluations.len() - 1;
        let last = evaluations.last();
        let said = said_by(odoo, from, last.symbol, lists.last()@);
        first_saying_decides(odoo, from, front, rest, i, classes);
        said_is_related(odoo, from, last.symbol, lists.last()@, classes);
        assert(relates_to_something(odoo, from, last.symbol, lists.last()@) <==> said is Some) by {
            if said is Some {
                said_is_related(odoo, from, last.symbol, lists.last()@, said->0);
            }
            if relates_to_something(odoo, from, last.symbol, lists.last()@) {
                let c = choose|c: Seq<SymbolId>| #[trigger]
                    relates(odoo, from, last.symbol, lists.last()@, c);
                said_is_related(odoo, from, last.symbol, lists.last()@, c);
            }
        }
        assert(evaluations[n] == last && lists[n] == lists.last());
        assert forall|j: int| 0 <= j < n implies front[j] == #[trigger] evaluations[j] && rest[j]
            == lists[j] by {}
        if forall|j: int|
            0 <= j < front.len() ==> !relates_to_something(
                odoo,
                from,
                (#[trigger] front[j]).symbol,
                rest[j]@,
            ) {
            assert forall|j: int| 0 <= j < n implies !relates_to_something(
                odoo,
                from,
                (#[trigger] evaluations[j]).symbol,
                lists[j]@,
            ) by {
                assert(front[j] == evaluations[j]);
            }
        } else {
            let j = choose|j: int|
                0 <= j < front.len() && relates_to_something(
                    odoo,
                    from,
                    (#[trigger] front[j]).symbol,
                    rest[j]@,
                );
            assert(relates_to_something(odoo, from, evaluations[j].symbol, lists[j]@));
        }
        if 0 <= i < evaluations.len() && relates(
            odoo,
            from,
            evaluations[i].symbol,
            lists[i]@,
            classes,
        ) && (forall|j: int|
            0 <= j < i ==> !relates_to_something(
                odoo,
                from,
                (#[trigger] evaluations[j]).symbol,
                lists[j]@,
            )) {
            if i < n {
                assert forall|j: int| 0 <= j < i implies !relates_to_something(
                    odoo,
                    from,
                    (#[trigger] front[j]).symbol,
                    rest[j]@,
                ) by {
                    assert(front[j] == evaluations[j]);
                }
            } else {
                assert forall|j: int| 0 <= j < front.len() implies !relates_to_something(
                    odoo,
                    from,
                    (#[trigger] front[j]).symbol,
                    rest[j]@,
                ) by {
                    assert(front[j] == evaluations[j]);
                }
            }
        }
    }
}

} // verus!
