//! Variables, imports and function parameters.
use vstd::prelude::*;

use crate::constants::{SymType, SymbolId};
use crate::evaluation::{context_view, Context, ContextValue, ContextValueView, Evaluation, EvaluationSymbol, TextRange};
use crate::model::Model;
use crate::names::NameMap;
use crate::odoo::{SessionInfo, SyncOdoo};
use crate::text::same_text;

verus! {

/// A variable, an import or a function parameter.
pub struct VariableSymbol {
    pub name: String,
    pub is_external: bool,
    pub doc_string: Option<String>,
    pub weak_self: Option<SymbolId>,
    pub parent: Option<SymbolId>,
    /// Whether an import statement made it.
    pub is_import_variable: bool,
    /// Whether it is a function parameter.
    pub is_parameter: bool,
    /// Inferred types.
    pub evaluations: Vec<Evaluation>,
    pub range: TextRange,
}

/// Whether `name` is that of a class of relational fields.
pub open spec fn is_relational(name: Seq<char>) -> bool {
    name == "Many2one"@ || name == "One2many"@ || name == "Many2many"@
}

/// Whether a reference is to a class of relational fields.
pub open spec fn refers_to_field(odoo: SyncOdoo, reference: EvaluationSymbol) -> bool {
    &&& reference.target is Some
    &&& odoo.live(reference.target->0)
    &&& is_relational(odoo.sym(reference.target->0).name@)
}

/// Whether a reference is to a class that is not one of relational fields.
pub open spec fn refers_to_class(odoo: SyncOdoo, reference: EvaluationSymbol) -> bool {
    &&& reference.target is Some
    &&& odoo.live(reference.target->0)
    &&& odoo.sym(reference.target->0).typ() == SymType::CLASS
    &&& !refers_to_field(odoo, reference)
}

/// The classes that define the model that a relational field names.
pub open spec fn named_model(
    odoo: SyncOdoo,
    from: Option<SymbolId>,
    reference: EvaluationSymbol,
) -> Option<Seq<SymbolId>> {
    if !refers_to_field(odoo, reference) {
        None
    } else {
        match context_view(reference.context).get("comodel_name"@) {
            Some(ContextValueView::Text(comodel)) => match odoo.model_at(comodel) {
                Some(model) => Some(odoo.main_symbols(model, from)),
                None => None,
            },
            _ => None,
        }
    }
}

/// What a reference says about the model that a field relates to: the classes that define
/// the model it names, or the class that it is itself; nothing otherwise.
pub open spec fn related_by(
    odoo: SyncOdoo,
    from: Option<SymbolId>,
    reference: EvaluationSymbol,
) -> Option<Seq<SymbolId>> {
    if refers_to_class(odoo, reference) {
        Some(seq![reference.target->0])
    } else {
        named_model(odoo, from, reference)
    }
}

/// What the first reference that says something says.
pub open spec fn first_related(
    odoo: SyncOdoo,
    from: Option<SymbolId>,
    references: Seq<EvaluationSymbol>,
) -> Option<Seq<SymbolId>>
    decreases references.len(),
{
    if references.len() == 0 {
        None
    } else {
        match first_related(odoo, from, references.drop_last()) {
            Some(found) => Some(found),
            None => related_by(odoo, from, references.last()),
        }
    }
}

/// Whether an evaluation is that of a relational field: it refers to a class of such fields,
/// itself or, unless it refers to another class, in the end.
pub open spec fn is_field(
    odoo: SyncOdoo,
    symbol: EvaluationSymbol,
    references: Seq<EvaluationSymbol>,
) -> bool {
    ||| refers_to_field(odoo, symbol)
    ||| !refers_to_class(odoo, symbol) && exists|i: int|
        0 <= i < references.len() && refers_to_field(odoo, #[trigger] references[i])
}

/// What an evaluation says about the model that a field relates to: nothing unless it is that
/// of a relational field; else what the field itself names, or what the first of the
/// references in the end says.
pub open spec fn said_by(
    odoo: SyncOdoo,
    from: Option<SymbolId>,
    symbol: EvaluationSymbol,
    references: Seq<EvaluationSymbol>,
) -> Option<Seq<SymbolId>> {
    if !is_field(odoo, symbol, references) {
        None
    } else if named_model(odoo, from, symbol) is Some {
        named_model(odoo, from, symbol)
    } else {
        first_related(odoo, from, references)
    }
}

/// What the first of the evaluations that says something says, each taken with what it refers
/// to in the end.
pub open spec fn first_said(
    odoo: SyncOdoo,
    from: Option<SymbolId>,
    evaluations: Seq<Evaluation>,
    lists: Seq<Vec<EvaluationSymbol>>,
) -> Option<Seq<SymbolId>>
    decreases evaluations.len(),
{
    if evaluations.len() == 0 {
        None
    } else {
        match first_said(odoo, from, evaluations.drop_last(), lists.drop_last()) {
            Some(found) => Some(found),
            None => said_by(odoo, from, evaluations.last().symbol, lists.last()@),
        }
    }
}

proof fn first_stays(
    odoo: SyncOdoo,
    from: Option<SymbolId>,
    references: Seq<EvaluationSymbol>,
    i: int,
)
    requires
        0 <= i <= references.len(),
        first_related(odoo, from, references.take(i)) is Some,
    ensures
        first_related(odoo, from, references) == first_related(odoo, from, references.take(i)),
    decreases references.len() - i,
{
    if i == references.len() {
        assert(references.take(i) =~= references);
    } else {
        assert(references.take(i + 1).drop_last() =~= references.take(i));
        first_stays(odoo, from, references, i + 1);
    }
}

proof fn first_said_stays(
    odoo: SyncOdoo,
    from: Option<SymbolId>,
    evaluations: Seq<Evaluation>,
    lists: Seq<Vec<EvaluationSymbol>>,
    i: int,
)
    requires
        0 <= i <= evaluations.len() == lists.len(),
        first_said(odoo, from, evaluations.take(i), lists.take(i)) is Some,
    ensures
        first_said(odoo, from, evaluations, lists) == first_said(
            odoo,
            from,
            evaluations.take(i),
            lists.take(i),
        ),
    decreases evaluations.len() - i,
{
    if i == evaluations.len() {
        assert(evaluations.take(i) =~= evaluations);
        assert(lists.take(i) =~= lists);
    } else {
        assert(evaluations.take(i + 1).drop_last() =~= evaluations.take(i));
        assert(lists.take(i + 1).drop_last() =~= lists.take(i));
        first_said_stays(odoo, from, evaluations, lists, i + 1);
    }
}

proof fn nothing_is_said(
    odoo: SyncOdoo,
    from: Option<SymbolId>,
    evaluations: Seq<Evaluation>,
    lists: Seq<Vec<EvaluationSymbol>>,
)
    requires
        evaluations.len() == lists.len(),
        forall|i: int|
            0 <= i < evaluations.len() ==> !is_field(
                odoo,
                (#[trigger] evaluations[i]).symbol,
                lists[i]@,
            ),
    ensures
        first_said(odoo, from, evaluations, lists) is None,
    decreases evaluations.len(),
{
    if evaluations.len() > 0 {
        let front = evaluations.drop_last();
        assert forall|i: int| 0 <= i < front.len() implies !is_field(
            odoo,
            (#[trigger] front[i]).symbol,
            lists.drop_last()[i]@,
        ) by {
            assert(front[i] == evaluations[i]);
        }
        nothing_is_said(odoo, from, front, lists.drop_last());
        assert(evaluations.last() == evaluations[evaluations.len() - 1]);
    }
}

impl VariableSymbol {
    /// A variable of which nothing was inferred yet.
    pub fn new(name: String, range: TextRange, is_external: bool) -> (r: VariableSymbol)
        ensures
            r.name == name,
            r.range == range,
            r.is_external == is_external,
            r.doc_string is None && r.weak_self is None && r.parent is None,
            !r.is_import_variable && !r.is_parameter,
            r.evaluations@.len() == 0,
    {
        VariableSymbol {
            name,
            is_external,
            doc_string: None,
            weak_self: None,
            parent: None,
            is_import_variable: false,
            is_parameter: false,
            evaluations: Vec::new(),
            range,
        }
    }

    /// Whether the variable stands for a type: something was inferred, all of it types
    /// rather than instances, and no import made it.
    pub fn is_type_alias(&self) -> (r: bool)
        ensures
            r == {
                &&& self.evaluations@.len() >= 1
                &&& forall|i: int|
                    0 <= i < self.evaluations@.len() ==> (
                    #[trigger] self.evaluations@[i]).symbol.instance == Some(false)
                &&& !self.is_import_variable
            },
    {
        let mut i: usize = 0;
        while i < self.evaluations.len()
            invariant
                i <= self.evaluations.len(),
                forall|j: int|
                    0 <= j < i ==> (#[trigger] self.evaluations@[j]).symbol.instance == Some(false),
            decreases self.evaluations.len() - i,
        {
            let is_instance = match self.evaluations[i].symbol.instance {
                Some(instance) => instance,
                None => true,
            };
            if is_instance {
                assert(self.evaluations@[i as int].symbol.instance != Some(false));
                return false;
            }
            i = i + 1;
        }
        self.evaluations.len() >= 1 && !self.is_import_variable
    }

    /// The context in which the variable's evaluations are followed: for a variable with
    /// a parent, the parent under `base_attr`.
    pub fn follow_context(&self) -> (r: Option<Context>)
        ensures
            r is Some == self.parent is Some,
            r is Some ==> context_view(r->0) == Map::<Seq<char>, ContextValueView>::empty().insert(
                "base_attr"@,
                ContextValueView::Symbol(self.parent->0),
            ),
    {
        match self.parent {
            Some(parent) => {
                let mut context: Context = NameMap::new();
                let place = context.entry("base_attr", ContextValue::SYMBOL(parent));
                *place = ContextValue::SYMBOL(parent);
                assert(context_view(context) =~= Map::<Seq<char>, ContextValueView>::empty().insert(
                    "base_attr"@,
                    ContextValueView::Symbol(parent),
                ));
                Some(context)
            },
            None => None,
        }
    }

    /// The classes that define the model that this field relates to; none if it is not a
    /// relational field. `followed` holds, for each evaluation, what it refers to in the
    /// end.
    pub fn get_relational_model(
        &self,
        session: &SessionInfo,
        followed: &Vec<Vec<EvaluationSymbol>>,
        from_module: Option<SymbolId>,
    ) -> (r: Vec<SymbolId>)
        requires
            session.sync_odoo.wf(),
            session.sync_odoo.models_wf(),
            from_module is Some ==> session.sync_odoo.is_module(from_module->0),
            followed@.len() == self.evaluations@.len(),
        ensures
            r@ == match first_said(
                session.sync_odoo,
                from_module,
                self.evaluations@,
                followed@,
            ) {
                Some(found) => found,
                None => Seq::empty(),
            },
            (forall|i: int|
                0 <= i < self.evaluations@.len() ==> !is_field(
                    session.sync_odoo,
                    (#[trigger] self.evaluations@[i]).symbol,
                    followed@[i]@,
                )) ==> r@.len() == 0,
    {
        let ghost odoo = session.sync_odoo;
        let ghost evals = self.evaluations@;
        let ghost lists = followed@;
        proof {
            if forall|i: int|
                0 <= i < evals.len() ==> !is_field(odoo, (#[trigger] evals[i]).symbol, lists[i]@) {
                nothing_is_said(odoo, from_module, evals, lists);
            }
            assert(evals.take(0) =~= Seq::empty());
        }
        let mut i: usize = 0;
        while i < self.evaluations.len()
            invariant
                i <= self.evaluations.len(),
                evals == self.evaluations@,
                lists == followed@,
                evals.len() == lists.len(),
                odoo == session.sync_odoo,
                odoo.wf(),
                odoo.models_wf(),
                from_module is Some ==> odoo.is_module(from_module->0),
                first_said(odoo, from_module, evals.take(i as int), lists.take(i as int)) is None,
                (forall|j: int|
                    0 <= j < evals.len() ==> !is_field(
                        odoo,
                        (#[trigger] evals[j]).symbol,
                        lists[j]@,
                    )) ==> first_said(odoo, from_module, evals, lists) is None,
            decreases self.evaluations.len() - i,
        {
            proof {
                assert(evals.take(i + 1).drop_last() =~= evals.take(i as int));
                assert(lists.take(i + 1).drop_last() =~= lists.take(i as int));
            }
            let said = said_symbols(
                session,
                from_module,
                &self.evaluations[i].symbol,
                &followed[i],
            );
            if let Some(found) = said {
                proof {
                    first_said_stays(odoo, from_module, evals, lists, i + 1);
                }
                return found;
            }
            i = i + 1;
        }
        proof {
            assert(evals.take(i as int) =~= evals);
            assert(lists.take(i as int) =~= lists);
        }
        Vec::new()
    }

    /// Whether everything that was inferred has a literal value.
    pub fn is_value(&self) -> (r: bool)
        ensures
            r == forall|i: int|
                0 <= i < self.evaluations@.len() ==> (#[trigger] self.evaluations@[i]).value is Some,
    {
        let mut i: usize = 0;
        while i < self.evaluations.len()
            invariant
                i <= self.evaluations.len(),
                forall|j: int| 0 <= j < i ==> (#[trigger] self.evaluations@[j]).value is Some,
            decreases self.evaluations.len() - i,
        {
            if self.evaluations[i].value.is_none() {
                return false;
            }
            i = i + 1;
        }
        true
    }
}

/// Whether a reference is to a class of relational fields.
fn is_to_field(odoo: &SyncOdoo, reference: &EvaluationSymbol) -> (r: bool)
    ensures
        r == refers_to_field(*odoo, *reference),
{
    match reference.target {
        Some(id) => match odoo.get(id) {
            Some(symbol) => {
                let name = symbol.name.as_str();
                same_text(name, "Many2one") || same_text(name, "One2many") || same_text(
                    name,
                    "Many2many",
                )
            },
            None => false,
        },
        None => false,
    }
}

/// The class that a reference is to, unless that is one of relational fields.
fn class_of(odoo: &SyncOdoo, reference: &EvaluationSymbol) -> (r: Option<SymbolId>)
    ensures
        r == if refers_to_class(*odoo, *reference) {
            reference.target
        } else {
            None
        },
{
    if is_to_field(odoo, reference) {
        return None;
    }
    match reference.target {
        Some(id) => match odoo.get(id) {
            Some(symbol) => if symbol.get_type() == SymType::CLASS {
                Some(id)
            } else {
                None
            },
            None => None,
        },
        None => None,
    }
}

/// The classes that define the model that a relational field names.
fn named_symbols(
    session: &SessionInfo,
    from_module: Option<SymbolId>,
    reference: &EvaluationSymbol,
) -> (r: Option<Vec<SymbolId>>)
    requires
        session.sync_odoo.wf(),
        session.sync_odoo.models_wf(),
        from_module is Some ==> session.sync_odoo.is_module(from_module->0),
    ensures
        match named_model(session.sync_odoo, from_module, *reference) {
            Some(found) => r is Some && r->0@ == found,
            None => r is None,
        },
{
    if !is_to_field(&session.sync_odoo, reference) {
        return None;
    }
    if let Some(ContextValue::STRING(comodel)) = reference.context.get("comodel_name") {
        if let Some(model) = session.sync_odoo.get_model(comodel.as_str()) {
            return Some(Model::get_main_symbols(model, session, from_module));
        }
    }
    None
}

/// What an evaluation says about the model that a field relates to.
fn said_symbols(
    session: &SessionInfo,
    from_module: Option<SymbolId>,
    symbol: &EvaluationSymbol,
    references: &Vec<EvaluationSymbol>,
) -> (r: Option<Vec<SymbolId>>)
    requires
        session.sync_odoo.wf(),
        session.sync_odoo.models_wf(),
        from_module is Some ==> session.sync_odoo.is_module(from_module->0),
    ensures
        match said_by(session.sync_odoo, from_module, *symbol, references@) {
            Some(found) => r is Some && r->0@ == found,
            None => r is None,
        },
{
    let odoo = &session.sync_odoo;
    if !is_to_field(odoo, symbol) && (class_of(odoo, symbol).is_some() || !any_to_field(
        odoo,
        references,
    )) {
        return None;
    }
    let named = named_symbols(session, from_module, symbol);
    if named.is_some() {
        return named;
    }
    let ghost all = references@;
    let mut j: usize = 0;
    assert(all.take(0) =~= Seq::empty());
    while j < references.len()
        invariant
            j <= references.len(),
            all == references@,
            *odoo == session.sync_odoo,
            odoo.wf(),
            odoo.models_wf(),
            from_module is Some ==> odoo.is_module(from_module->0),
            is_field(*odoo, *symbol, all),
            named_model(*odoo, from_module, *symbol) is None,
            first_related(*odoo, from_module, all.take(j as int)) is None,
        decreases references.len() - j,
    {
        assert(all.take(j + 1).drop_last() =~= all.take(j as int));
        let reference = &references[j];
        let related: Option<Vec<SymbolId>> = match class_of(odoo, reference) {
            Some(id) => {
                let found: Vec<SymbolId> = vec![id];
                assert(found@ =~= seq![id]);
                Some(found)
            },
            None => named_symbols(session, from_module, reference),
        };
        if related.is_some() {
            proof {
                first_stays(*odoo, from_module, all, j + 1);
            }
            return related;
        }
        j = j + 1;
    }
    assert(all.take(j as int) =~= all);
    None
}

/// Whether one of the references is to a class of relational fields.
fn any_to_field(odoo: &SyncOdoo, references: &Vec<EvaluationSymbol>) -> (r: bool)
    ensures
        r == exists|i: int|
            0 <= i < references.len() && refers_to_field(*odoo, #[trigger] references@[i]),
{
    let mut i: usize = 0;
    while i < references.len()
        invariant
            i <= references.len(),
            forall|j: int| 0 <= j < i ==> !refers_to_field(*odoo, #[trigger] references@[j]),
        decreases references.len() - i,
    {
        if is_to_field(odoo, &references[i]) {
            return true;
        }
        i = i + 1;
    }
    false
}

} // verus!
