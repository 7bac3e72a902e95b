//! Second phase of the build of XML data files: models and fields.
use vstd::prelude::*;

use crate::constants::{BuildSteps, EntryPointType, ModelId, SymType, SymbolId};
use crate::dependencies::{add_dependencies, add_model_dependencies, models_depend, note_missing_models, python_file_at, steps_compose, symbols_depend};
use crate::diagnostics::{diagnostic_views, no_args, offsets, one_arg, report, reported, two_args, Diagnostic, DiagnosticCode, DiagnosticView};
use crate::evaluation::{ContextValue, Evaluation};
use crate::fields::{all_fields_of, field_visit, under, FieldMap};
use crate::file_info::FileInfo;
use crate::handles::held;
use crate::model::{contains_text, Model};
use crate::model_walk::{add_name, name_set, Entry};
use crate::names::{NameEntry, NameMap};
use crate::odoo::{log_views, EntryPoint, LogMessage, LogView, Request, SessionInfo, SyncOdoo, Version};
use crate::symbols::{Symbol, SymbolData};
use crate::text::{same_text, split_on, split_seq, texts};
use crate::xml_data::{data_views, field_views, DataKind, DataView, FieldView, OdooData, OdooDataField, OdooDataRecord, XmlDataDelete, XmlDataMenuItem, XmlDataTemplate};

verus! {

/// Checks the models and fields that an XML data file refers to.
pub struct XmlValidator {
    /// The file that is validated.
    pub xml_symbol: SymbolId,
    /// Whether the file belongs to a main or addon entry point.
    pub is_in_main_ep: bool,
}

/// What validation of a file has come to.
pub struct Findings {
    pub diagnostics: Vec<Diagnostic>,
    /// Files that define the models of the file's records.
    pub dependencies: Vec<SymbolId>,
    /// Models of the file's records.
    pub model_dependencies: Vec<ModelId>,
    /// Names of models that do not exist, or not for the file's module.
    pub missing_models: Vec<String>,
    /// Messages for the log.
    pub messages: Vec<LogMessage>,
}

/// Mathematical model of `Findings`.
#[verifier::ext_equal]
pub struct FindingsView {
    pub diagnostics: Seq<DiagnosticView>,
    pub dependencies: Seq<SymbolId>,
    pub model_dependencies: Seq<ModelId>,
    pub missing_models: Set<Seq<char>>,
    pub log: Seq<LogView>,
}

impl View for Findings {
    type V = FindingsView;

    open spec fn view(&self) -> FindingsView {
        FindingsView {
            diagnostics: diagnostic_views(self.diagnostics@),
            dependencies: self.dependencies@,
            model_dependencies: self.model_dependencies@,
            missing_models: name_set(self.missing_models@),
            log: log_views(self.messages@),
        }
    }
}

/// Whether the offsets of `range` fit in a position.
pub open spec fn fits(range: std::ops::Range<usize>) -> bool {
    range.start <= u32::MAX && range.end <= u32::MAX
}

impl OdooDataField {
    /// Whether every place of the field that a diagnostic may point to fits in a position.
    pub open spec fn placed(self) -> bool {
        &&& fits(self.range)
        &&& self.ref_key matches Some(key) ==> fits(key.1)
        &&& self.text_range matches Some(range) ==> fits(range)
    }

    /// Whether every place of the field that a diagnostic may point to fits in a position.
    pub fn is_placed(&self) -> (r: bool)
        ensures
            r == self.placed(),
    {
        let in_ref = match &self.ref_key {
            Some((_, range)) => has_positions(range),
            None => true,
        };
        let in_text = match &self.text_range {
            Some(range) => has_positions(range),
            None => true,
        };
        has_positions(&self.range) && in_ref && in_text
    }
}

impl OdooDataRecord {
    /// Whether every place of the record that a diagnostic may point to fits in a position.
    pub open spec fn placed(self) -> bool {
        &&& fits(self.model.1)
        &&& forall|i: int| 0 <= i < self.fields.len() ==> (#[trigger] self.fields@[i]).placed()
    }

    /// Whether every place of the record that a diagnostic may point to fits in a position.
    pub fn is_placed(&self) -> (r: bool)
        ensures
            r == self.placed(),
    {
        let mut i: usize = 0;
        while i < self.fields.len()
            invariant
                i <= self.fields.len(),
                forall|j: int| 0 <= j < i ==> (#[trigger] self.fields@[j]).placed(),
            decreases self.fields.len() - i,
        {
            if !self.fields[i].is_placed() {
                return false;
            }
            i = i + 1;
        }
        has_positions(&self.model.1)
    }
}

impl OdooData {
    /// Whether every place that a diagnostic may point to fits in a position.
    pub open spec fn placed(self) -> bool {
        self is RECORD ==> self->RECORD_0.placed()
    }

    /// Whether every place that a diagnostic may point to fits in a position.
    pub fn is_placed(&self) -> (r: bool)
        ensures
            r == self.placed(),
    {
        match self {
            OdooData::RECORD(record) => record.is_placed(),
            _ => true,
        }
    }
}

/// Whether the offsets of `range` fit in a position.
fn has_positions(range: &std::ops::Range<usize>) -> (r: bool)
    ensures
        r == fits(*range),
{
    range.start <= u32::MAX as usize && range.end <= u32::MAX as usize
}

impl FindingsView {
    /// `self` with a diagnostic at `range`, unless its code is switched off.
    pub open spec fn flag(
        self,
        session: SessionInfo,
        code: DiagnosticCode,
        args: Seq<Seq<char>>,
        range: std::ops::Range<usize>,
    ) -> FindingsView {
        FindingsView {
            diagnostics: reported(
                session.disabled(),
                self.diagnostics,
                code,
                args,
                offsets(range.start, range.end),
            ),
            ..self
        }
    }

    /// `self` with a model that is missing.
    pub open spec fn miss(self, model: Seq<char>) -> FindingsView {
        FindingsView { missing_models: self.missing_models.insert(model), ..self }
    }
}

impl Findings {
    /// Adds a diagnostic at `range`, unless its code is switched off.
    fn flag(
        &mut self,
        session: &SessionInfo,
        code: DiagnosticCode,
        args: Vec<String>,
        range: &std::ops::Range<usize>,
    )
        requires
            fits(*range),
        ensures
            final(self)@ == old(self)@.flag(*session, code, texts(args@), *range),
    {
        report(session, &mut self.diagnostics, code, args, range);
    }
}

// Fields

/// The first version in which `name@lang` translates the field `name`.
pub open spec fn translations_since() -> Version {
    Version { major: 18, minor: 2, patch: 0 }
}

/// Whether a field is the translation of another.
pub open spec fn is_translation(odoo: SyncOdoo, name: Seq<char>) -> bool {
    odoo.full_version.at_least(translations_since()) && split_seq(name, '@').len() > 1
}

/// Name of the field that is meant, its translations' language left aside.
pub open spec fn meant_field(odoo: SyncOdoo, name: Seq<char>) -> Seq<char> {
    if is_translation(odoo, name) {
        split_seq(name, '@')[0]
    } else {
        name
    }
}

/// The rules for the XML ID in a `ref` attribute: not empty, at most one dot, and a
/// known module before the dot.
pub open spec fn ref_checked(
    session: SessionInfo,
    field: FieldView,
    found: FindingsView,
) -> FindingsView {
    match field.ref_key {
        None => found,
        Some(key) => {
            let parts = split_seq(key.0, '.');
            if parts.len() == 1 {
                if parts[0].len() == 0 {
                    found.flag(session, DiagnosticCode::OLS05039, seq![], key.1)
                } else {
                    found
                }
            } else if parts.len() == 2 {
                if session.sync_odoo.modules.has(parts[0]) {
                    found
                } else {
                    found.flag(session, DiagnosticCode::OLS05003, seq![], key.1)
                }
            } else {
                found.flag(session, DiagnosticCode::OLS05051, seq![key.0], key.1)
            }
        },
    }
}

/// Whether the text of a field of a model is the name of a model.
pub open spec fn names_model(model: Seq<char>, field: Seq<char>) -> bool {
    ||| model == "ir.ui.view"@ && field == "model"@
    ||| model == "ir.actions.act_window"@ && field == "res_model"@
}

/// Whether there is a model of that name with any class.
pub open spec fn model_exists(odoo: SyncOdoo, name: Seq<char>) -> bool {
    odoo.model_at(name) is Some && odoo.classes(odoo.model_at(name)->0).len() > 0
}

/// The rules for a text that names a model: the model exists, and is defined by a class
/// that the file's module can see.
pub open spec fn model_text_checked(
    session: SessionInfo,
    file: SymbolId,
    model: Seq<char>,
    text: Seq<char>,
    range: std::ops::Range<usize>,
    found: FindingsView,
) -> FindingsView {
    let odoo = session.sync_odoo;
    let module = odoo.sym(file).module;
    if !model_exists(odoo, text) {
        found.miss(text).flag(session, DiagnosticCode::OLS05056, seq![text, model], range)
    } else if module is Some && odoo.main_symbols(odoo.model_at(text)->0, module).len() == 0 {
        found.flag(
            session,
            DiagnosticCode::OLS05055,
            seq![text, odoo.sym(module->0).name@],
            range,
        )
    } else {
        found
    }
}

/// The rules for a field of a record of `model`, whose known fields are `known`.
pub open spec fn field_checked(
    session: SessionInfo,
    file: SymbolId,
    model: Seq<char>,
    known: Set<Seq<char>>,
    field: FieldView,
    found: FindingsView,
) -> FindingsView {
    let name = meant_field(session.sync_odoo, field.name);
    let checked = ref_checked(session, field, found);
    if known.contains(name) {
        match (field.text, field.text_range) {
            (Some(text), Some(range)) => if names_model(model, name) {
                model_text_checked(session, file, model, text, range, checked)
            } else {
                checked
            },
            _ => checked,
        }
    } else if is_translation(session.sync_odoo, field.name) {
        checked
    } else {
        checked.flag(session, DiagnosticCode::OLS05057, seq![field.name, model], field.range)
    }
}

/// The rules for the fields of a record of `model`, in order.
pub open spec fn fields_checked(
    session: SessionInfo,
    file: SymbolId,
    model: Seq<char>,
    known: Set<Seq<char>>,
    fields: Seq<FieldView>,
    found: FindingsView,
) -> FindingsView
    decreases fields.len(),
{
    if fields.len() == 0 {
        found
    } else {
        field_checked(
            session,
            file,
            model,
            known,
            fields.last(),
            fields_checked(session, file, model, known, fields.drop_last(), found),
        )
    }
}

/// The names under which a map holds fields.
pub open spec fn names_in(map: FieldMap) -> Set<Seq<char>> {
    Set::new(|name: Seq<char>| map.has(name))
}

// Mandatory fields

/// The inferred types of the symbol at `id`.
pub open spec fn evaluations_of(odoo: SyncOdoo, id: SymbolId) -> Seq<Evaluation> {
    if odoo.live(id) {
        match odoo.sym(id).data {
            SymbolData::Variable(v) => v.evaluations@,
            SymbolData::Function(f) => f.evaluations@,
            _ => Seq::empty(),
        }
    } else {
        Seq::empty()
    }
}

/// Whether an evaluation says that a field is required.
pub open spec fn says_required(eval: Evaluation) -> bool {
    eval.symbol.context.has("required"@) && eval.symbol.context.value("required"@)
        == ContextValue::BOOLEAN(true)
}

/// Whether a field is required and has no default.
pub open spec fn is_mandatory(odoo: SyncOdoo, id: SymbolId) -> bool {
    let evals = evaluations_of(odoo, id);
    &&& exists|i: int| 0 <= i < evals.len() && says_required(#[trigger] evals[i])
    &&& !exists|i: int|
        0 <= i < evals.len() && (#[trigger] evals[i]).symbol.context.has("default"@)
}

/// `name` once for every mandatory field among `fields` that can be used as it is.
pub open spec fn mandatory_of(odoo: SyncOdoo, name: Seq<char>, fields: Seq<Entry>) -> Seq<Seq<char>>
    decreases fields.len(),
{
    if fields.len() == 0 {
        Seq::empty()
    } else {
        let front = mandatory_of(odoo, name, fields.drop_last());
        if fields.last().1 is None && is_mandatory(odoo, fields.last().0) {
            front.push(name)
        } else {
            front
        }
    }
}

/// Names of the mandatory fields, in the order in which the fields are known.
pub open spec fn mandatory_names(
    odoo: SyncOdoo,
    known: Seq<NameEntry<Vec<Entry>>>,
) -> Seq<Seq<char>>
    decreases known.len(),
{
    if known.len() == 0 {
        Seq::empty()
    } else {
        mandatory_names(odoo, known.drop_last()) + mandatory_of(
            odoo,
            known.last().name@,
            known.last().value@,
        )
    }
}

/// Whether one of the fields gives a value to the field called `name`.
pub open spec fn is_set(odoo: SyncOdoo, fields: Seq<OdooDataField>, name: Seq<char>) -> bool {
    exists|i: int|
        0 <= i < fields.len() && meant_field(odoo, (#[trigger] fields[i]).name@) == name
}

/// Tells whether none of the fields gives a value to the field of a name.
pub open spec fn unset(odoo: SyncOdoo, fields: Seq<OdooDataField>) -> spec_fn(Seq<char>) -> bool {
    |name: Seq<char>| !is_set(odoo, fields, name)
}

/// Names of the mandatory fields that a record leaves without value.
pub open spec fn mandatory_left(
    odoo: SyncOdoo,
    known: FieldMap,
    fields: Seq<OdooDataField>,
) -> Seq<Seq<char>> {
    mandatory_names(odoo, known.entries@).filter(unset(odoo, fields))
}

/// Whether a field is required and has no default.
fn check_mandatory(odoo: &SyncOdoo, id: SymbolId) -> (r: bool)
    ensures
        r == is_mandatory(*odoo, id),
{
    let symbol = match odoo.get(id) {
        Some(symbol) => symbol,
        None => {
            return false;
        },
    };
    let evals = match &symbol.data {
        SymbolData::Variable(variable) => &variable.evaluations,
        SymbolData::Function(function) => &function.evaluations,
        _ => {
            return false;
        },
    };
    let mut has_required = false;
    let mut has_default = false;
    let mut i: usize = 0;
    while i < evals.len()
        invariant
            i <= evals.len(),
            evals@ == evaluations_of(*odoo, id),
            has_required == exists|j: int| 0 <= j < i && says_required(#[trigger] evals@[j]),
            has_default == exists|j: int|
                0 <= j < i && (#[trigger] evals@[j]).symbol.context.has("default"@),
        decreases evals.len() - i,
    {
        let context = &evals[i].symbol.context;
        let ghost (required, default) = (has_required, has_default);
        if let Some(ContextValue::BOOLEAN(true)) = context.get("required") {
            has_required = true;
        }
        if context.get("default").is_some() {
            has_default = true;
        }
        proof {
            if says_required(evals@[i as int]) {
                assert(has_required);
            }
            assert(has_required == (required || says_required(evals@[i as int])));
            assert(has_default == (default || evals@[i as int].symbol.context.has("default"@)));
            if required {
                let j = choose|j: int| 0 <= j < i && says_required(#[trigger] evals@[j]);
                assert(0 <= j < i + 1);
            }
            if default {
                let j = choose|j: int|
                    0 <= j < i && (#[trigger] evals@[j]).symbol.context.has("default"@);
                assert(0 <= j < i + 1);
            }
        }
        i = i + 1;
    }
    has_required && !has_default
}

/// Names of the mandatory fields, in the order in which the fields are known.
fn find_mandatory(odoo: &SyncOdoo, known: &FieldMap) -> (r: Vec<String>)
    ensures
        texts(r@) == mandatory_names(*odoo, known.entries@),
{
    let entries = &known.entries;
    let mut out: Vec<String> = Vec::new();
    let mut i: usize = 0;
    proof {
        assert(entries@.take(0) =~= Seq::empty());
        assert(texts(out@) =~= Seq::empty());
    }
    while i < entries.len()
        invariant
            i <= entries.len(),
            texts(out@) == mandatory_names(*odoo, entries@.take(i as int)),
        decreases entries.len() - i,
    {
        let name = entries[i].name.as_str();
        let fields = &entries[i].value;
        let ghost sofar = texts(out@);
        proof {
            assert(entries@.take(i + 1).drop_last() =~= entries@.take(i as int));
            assert(fields@.take(0) =~= Seq::empty());
            assert(sofar + mandatory_of(*odoo, name@, fields@.take(0)) =~= sofar);
        }
        let mut j: usize = 0;
        while j < fields.len()
            invariant
                j <= fields.len(),
                texts(out@) == sofar + mandatory_of(*odoo, name@, fields@.take(j as int)),
            decreases fields.len() - j,
        {
            let ghost now = texts(out@);
            assert(fields@.take(j + 1).drop_last() =~= fields@.take(j as int));
            if fields[j].1.is_none() && check_mandatory(odoo, fields[j].0) {
                out.push(name.to_owned());
                assert(texts(out@) =~= now.push(name@));
                assert(texts(out@) =~= sofar + mandatory_of(*odoo, name@, fields@.take(j + 1)));
            }
            j = j + 1;
        }
        assert(fields@.take(j as int) =~= fields@);
        i = i + 1;
    }
    assert(entries@.take(i as int) =~= entries@);
    out
}

/// Tells whether a name is another than `name`.
pub open spec fn other_than(name: Seq<char>) -> spec_fn(Seq<char>) -> bool {
    |n: Seq<char>| n != name
}

/// Keeps the names other than `name`.
fn without_name(names: Vec<String>, name: &str) -> (r: Vec<String>)
    ensures
        texts(r@) == texts(names@).filter(other_than(name@)),
{
    let ghost test = other_than(name@);
    let ghost all = texts(names@);
    let mut out: Vec<String> = Vec::new();
    let mut i: usize = 0;
    proof {
        reveal(Seq::filter);
        assert(all.take(0).filter(test) =~= Seq::empty());
        assert(texts(out@) =~= Seq::empty());
    }
    while i < names.len()
        invariant
            i <= names.len(),
            all == texts(names@),
            test == other_than(name@),
            texts(out@) == all.take(i as int).filter(test),
        decreases names.len() - i,
    {
        proof {
            reveal(Seq::filter);
            assert(all.take(i + 1).drop_last() =~= all.take(i as int));
            assert(all.take(i + 1).last() == names@[i as int]@);
        }
        if !same_text(names[i].as_str(), name) {
            let ghost now = texts(out@);
            out.push(names[i].clone());
            assert(texts(out@) =~= now.push(names@[i as int]@));
        }
        i = i + 1;
    }
    assert(all.take(i as int) =~= all);
    out
}

proof fn filter_twice<T>(s: Seq<T>, p: spec_fn(T) -> bool, q: spec_fn(T) -> bool)
    ensures
        s.filter(p).filter(q) == s.filter(|x: T| p(x) && q(x)),
    decreases s.len(),
{
    reveal(Seq::filter);
    let both = |x: T| p(x) && q(x);
    if s.len() > 0 {
        filter_twice(s.drop_last(), p, q);
        let front = s.drop_last().filter(p);
        if p(s.last()) {
            assert(front.push(s.last()).drop_last() =~= front);
        }
    }
}

proof fn filter_alike<T>(s: Seq<T>, p: spec_fn(T) -> bool, q: spec_fn(T) -> bool)
    requires
        forall|x: T| s.contains(x) ==> p(x) == q(x),
    ensures
        s.filter(p) == s.filter(q),
    decreases s.len(),
{
    reveal(Seq::filter);
    if s.len() > 0 {
        assert forall|x: T| s.drop_last().contains(x) implies p(x) == q(x) by {
            let i = choose|i: int| 0 <= i < s.drop_last().len() && s.drop_last()[i] == x;
            assert(s[i] == x);
            assert(s.contains(x));
        }
        assert(s.contains(s.last())) by {
            assert(s[s.len() - 1] == s.last());
        }
        filter_alike(s.drop_last(), p, q);
    }
}

/// Adds a name to a set of names.
fn add_missing(names: &mut Vec<String>, name: &str)
    ensures
        name_set(final(names)@) == name_set(old(names)@).insert(name@),
{
    if contains_text(names, name) {
        assert(name_set(names@).insert(name@) =~= name_set(names@));
        return;
    }
    add_name(names, name);
}

impl XmlValidator {
    /// Whether the file can be validated in this session, for the module at `module`.
    pub open spec fn ready(self, session: SessionInfo, module: SymbolId) -> bool {
        let odoo = session.sync_odoo;
        &&& odoo.wf()
        &&& odoo.models_wf()
        &&& odoo.is_xml_file(self.xml_symbol)
        &&& odoo.is_module(module)
    }

    /// Applies the rules for the XML ID in a `ref` attribute.
    fn check_ref(&self, session: &SessionInfo, field: &OdooDataField, found: &mut Findings)
        requires
            field.placed(),
        ensures
            final(found)@ == ref_checked(*session, field@, old(found)@),
    {
        if let Some((ref_key_val, ref_key_range)) = &field.ref_key {
            let parts = split_on(ref_key_val.as_str(), '.');
            let ghost views = split_seq(ref_key_val@, '.');
            assert(views[0] == parts@[0]@);
            if parts.len() == 1 {
                if parts[0].as_str().is_empty() {
                    found.flag(
                        session,
                        DiagnosticCode::OLS05039,
                        no_args(),
                        ref_key_range,
                    );
                }
            } else if parts.len() == 2 {
                if session.sync_odoo.modules.get(parts[0].as_str()).is_none() {
                    found.flag(
                        session,
                        DiagnosticCode::OLS05003,
                        no_args(),
                        ref_key_range,
                    );
                }
            } else {
                found.flag(
                    session,
                    DiagnosticCode::OLS05051,
                    one_arg(ref_key_val.as_str()),
                    ref_key_range,
                );
            }
        }
    }

    /// Applies the rules for a text that names a model.
    fn check_model_text(
        &self,
        session: &SessionInfo,
        model: &str,
        text: &str,
        range: &std::ops::Range<usize>,
        found: &mut Findings,
    )
        requires
            session.sync_odoo.wf(),
            session.sync_odoo.models_wf(),
            session.sync_odoo.live(self.xml_symbol),
            fits(*range),
        ensures
            final(found)@ == model_text_checked(
                *session,
                self.xml_symbol,
                model@,
                text@,
                *range,
                old(found)@,
            ),
    {
        let odoo = &session.sync_odoo;
        let named = odoo.get_model(text);
        let present = match named {
            Some(model) => odoo.get_classes(model).len() > 0,
            None => false,
        };
        if !present {
            add_missing(&mut found.missing_models, text);
            found.flag(
                session,
                DiagnosticCode::OLS05056,
                two_args(text, model),
                range,
            );
            return;
        }
        if let (Some(from), Some(model)) = (odoo.module_of(self.xml_symbol), named) {
            if Model::get_main_symbols(model, session, Some(from)).len() == 0 {
                if let Some(module) = odoo.get(from) {
                    found.flag(
                        session,
                        DiagnosticCode::OLS05055,
                        two_args(text, module.name.as_str()),
                        range,
                    );
                }
            }
        }
    }

    /// Applies the rules for a field of a record of `model`, whose known fields are
    /// `all_fields`. Returns the name of the field that is meant.
    fn check_field(
        &self,
        session: &SessionInfo,
        model: &str,
        all_fields: &FieldMap,
        field: &OdooDataField,
        found: &mut Findings,
    ) -> (r: String)
        requires
            session.sync_odoo.wf(),
            session.sync_odoo.models_wf(),
            session.sync_odoo.live(self.xml_symbol),
            field.placed(),
        ensures
            r@ == meant_field(session.sync_odoo, field.name@),
            final(found)@ == field_checked(
                *session,
                self.xml_symbol,
                model@,
                names_in(*all_fields),
                field@,
                old(found)@,
            ),
    {
        let mut field_name: String = field.name.clone();
        let mut has_translation = false;
        let since = Version { major: 18, minor: 2, patch: 0 };
        if session.sync_odoo.full_version.is_at_least(&since) {
            let parts = split_on(field.name.as_str(), '@');
            if parts.len() > 1 {
                assert(split_seq(field.name@, '@')[0] == parts@[0]@);
                field_name = parts[0].clone();
                has_translation = true;
            }
        }
        self.check_ref(session, field, found);
        if all_fields.get(field_name.as_str()).is_some() {
            if let (Some(text), Some(text_range)) = (&field.text, &field.text_range) {
                if (same_text(model, "ir.ui.view") && same_text(field_name.as_str(), "model")) || (
                same_text(model, "ir.actions.act_window") && same_text(
                    field_name.as_str(),
                    "res_model",
                )) {
                    self.check_model_text(session, model, text.as_str(), text_range, found);
                }
            }
        } else if !has_translation {
            found.flag(
                session,
                DiagnosticCode::OLS05057,
                two_args(field.name.as_str(), model),
                &field.range,
            );
        }
        field_name
    }

    /// Applies the rules for the fields of a record whose known fields are `all_fields`.
    /// Returns the names of the mandatory fields that the record leaves without value.
    pub fn validate_fields(
        &self,
        session: &SessionInfo,
        xml_data_record: &OdooDataRecord,
        all_fields: &FieldMap,
        found: &mut Findings,
    ) -> (r: Vec<String>)
        requires
            session.sync_odoo.wf(),
            session.sync_odoo.models_wf(),
            session.sync_odoo.live(self.xml_symbol),
            xml_data_record.placed(),
        ensures
            final(found)@ == fields_checked(
                *session,
                self.xml_symbol,
                xml_data_record.model.0@,
                names_in(*all_fields),
                field_views(xml_data_record.fields@),
                old(found)@,
            ),
            texts(r@) == mandatory_left(
                session.sync_odoo,
                *all_fields,
                xml_data_record.fields@,
            ),
    {
        let odoo = &session.sync_odoo;
        let model = xml_data_record.model.0.as_str();
        let ghost start = found@;
        let ghost known = names_in(*all_fields);
        let ghost fields = xml_data_record.fields@;
        let ghost views = field_views(fields);
        let mut mandatory = find_mandatory(odoo, all_fields);
        let ghost all = texts(mandatory@);
        let mut i: usize = 0;
        proof {
            assert(fields.take(0) =~= Seq::empty());
            assert(views.take(0) =~= Seq::empty());
            nothing_set(*odoo, all);
        }
        while i < xml_data_record.fields.len()
            invariant
                i <= xml_data_record.fields.len(),
                *odoo == session.sync_odoo,
                odoo.wf(),
                odoo.models_wf(),
                odoo.live(self.xml_symbol),
                xml_data_record.placed(),
                fields == xml_data_record.fields@,
                views == field_views(fields),
                model@ == xml_data_record.model.0@,
                known == names_in(*all_fields),
                texts(mandatory@) == all.filter(unset(*odoo, fields.take(i as int))),
                found@ == fields_checked(
                    *session,
                    self.xml_symbol,
                    model@,
                    known,
                    views.take(i as int),
                    start,
                ),
            decreases xml_data_record.fields.len() - i,
        {
            assert(views.take(i + 1).drop_last() =~= views.take(i as int));
            let name = self.check_field(
                session,
                model,
                all_fields,
                &xml_data_record.fields[i],
                found,
            );
            mandatory = without_name(mandatory, name.as_str());
            proof {
                one_more_set(*odoo, all, fields, i as int);
            }
            i = i + 1;
        }
        assert(fields.take(i as int) =~= fields);
        assert(views.take(i as int) =~= views);
        mandatory
    }
}

proof fn nothing_set(odoo: SyncOdoo, all: Seq<Seq<char>>)
    ensures
        all.filter(unset(odoo, Seq::empty())) == all,
{
    let test = unset(odoo, Seq::empty());
    assert forall|name: Seq<char>| all.contains(name) implies test(name) == (|n: Seq<char>| true)(
        name,
    ) by {
        assert(!is_set(odoo, Seq::empty(), name));
    }
    filter_alike(all, test, |n: Seq<char>| true);
    all_pass(all);
}

proof fn one_more_set(odoo: SyncOdoo, all: Seq<Seq<char>>, fields: Seq<OdooDataField>, i: int)
    requires
        0 <= i < fields.len(),
    ensures
        all.filter(unset(odoo, fields.take(i))).filter(
            other_than(meant_field(odoo, fields[i].name@)),
        ) == all.filter(unset(odoo, fields.take(i + 1))),
{
    let p = unset(odoo, fields.take(i));
    let q = other_than(meant_field(odoo, fields[i].name@));
    let both = |x: Seq<char>| p(x) && q(x);
    let r = unset(odoo, fields.take(i + 1));
    filter_twice(all, p, q);
    assert forall|name: Seq<char>| all.contains(name) implies both(name) == r(name) by {
        set_step(odoo, fields, i, name);
    }
    filter_alike(all, both, r);
}

proof fn all_pass<T>(s: Seq<T>)
    ensures
        s.filter(|x: T| true) == s,
    decreases s.len(),
{
    reveal(Seq::filter);
    if s.len() > 0 {
        all_pass(s.drop_last());
        assert(s.drop_last().push(s.last()) =~= s);
    }
}

proof fn set_step(odoo: SyncOdoo, fields: Seq<OdooDataField>, i: int, name: Seq<char>)
    requires
        0 <= i < fields.len(),
    ensures
        is_set(odoo, fields.take(i + 1), name) == (is_set(odoo, fields.take(i), name)
            || meant_field(odoo, fields[i].name@) == name),
{
    let front = fields.take(i);
    let all = fields.take(i + 1);
    if is_set(odoo, all, name) {
        let j = choose|j: int|
            0 <= j < all.len() && meant_field(odoo, (#[trigger] all[j]).name@) == name;
        if j < i {
            assert(front[j] == all[j]);
        }
    }
    if is_set(odoo, front, name) {
        let j = choose|j: int|
            0 <= j < front.len() && meant_field(odoo, (#[trigger] front[j]).name@) == name;
        assert(all[j] == front[j]);
    }
    assert(all[i] == fields[i]);
}

// Records

/// The files of the classes.
pub open spec fn files_of(odoo: SyncOdoo, ids: Seq<SymbolId>) -> Seq<SymbolId> {
    ids.map_values(|id: SymbolId| odoo.sym(id).file->0)
}

impl SyncOdoo {
    /// Whether the symbol at `id` stands in a Python file that is there.
    pub open spec fn in_file(self, id: SymbolId) -> bool {
        &&& self.sym(id).file is Some
        &&& self.live(self.sym(id).file->0)
        &&& self.sym(self.sym(id).file->0).data is File
    }
}

/// Whether the classes that define the model called `name` and that a module can see stand in
/// Python files that are there.
pub open spec fn mains_in_files(odoo: SyncOdoo, module: SymbolId, name: Seq<char>) -> bool {
    model_exists(odoo, name) ==> forall|k: int|
        0 <= k < odoo.main_symbols(odoo.model_at(name)->0, Some(module)).len() ==> odoo.in_file(
            #[trigger] odoo.main_symbols(odoo.model_at(name)->0, Some(module))[k],
        )
}

/// The same for the model of a declaration, if that is checked.
pub open spec fn data_in_files(odoo: SyncOdoo, module: SymbolId, data: DataView) -> bool {
    match data.kind {
        DataKind::Record { model, .. } if odoo.typ(data.file_symbol) == Some(SymType::XML_FILE) =>
        mains_in_files(odoo, module, model),
        _ => true,
    }
}

/// Names of all fields of the class at `id`, as seen from a module.
pub open spec fn field_names(odoo: SyncOdoo, id: SymbolId, module: SymbolId) -> Set<Seq<char>> {
    Set::new(|name: Seq<char>| under(all_fields_of(odoo, id, Some(module)), name).len() > 0)
}

/// The rules for a record of the model called `name`, which is written at `range`: the model
/// exists and is defined by a class that the module can see, and it knows the fields.
pub open spec fn record_checked(
    session: SessionInfo,
    file: SymbolId,
    module: SymbolId,
    name: Seq<char>,
    range: std::ops::Range<usize>,
    fields: Seq<FieldView>,
    found: FindingsView,
) -> FindingsView {
    let odoo = session.sync_odoo;
    let mains = odoo.main_symbols(odoo.model_at(name)->0, Some(module));
    if !model_exists(odoo, name) {
        found.miss(name).flag(session, DiagnosticCode::OLS05056, seq![name], range)
    } else if mains.len() == 0 {
        found.miss(name).flag(
            session,
            DiagnosticCode::OLS05055,
            seq![name, odoo.sym(module).name@],
            range,
        )
    } else {
        fields_checked(
            session,
            file,
            name,
            field_names(odoo, mains[0], module),
            fields,
            FindingsView {
                dependencies: found.dependencies + files_of(odoo, mains),
                model_dependencies: found.model_dependencies.push(odoo.model_at(name)->0),
                log: field_visit(odoo, mains[0], Some(module), found.log).log,
                ..found
            },
        )
    }
}

/// The rules for one declaration: those for its record, unless the file it was recorded
/// for is gone.
pub open spec fn data_checked(
    session: SessionInfo,
    file: SymbolId,
    module: SymbolId,
    data: DataView,
    found: FindingsView,
) -> FindingsView {
    match data.kind {
        DataKind::Record { model, model_range, fields } if session.sync_odoo.typ(data.file_symbol)
            == Some(SymType::XML_FILE) => record_checked(
            session,
            file,
            module,
            model,
            model_range,
            fields,
            found,
        ),
        _ => found,
    }
}

/// What a module sees of a model.
pub enum ModelSight {
    /// There is no such model.
    Missing,
    /// The module can see no class that defines the model.
    Unseen,
    /// The model and the classes that define it and that the module can see.
    Seen(ModelId, Vec<SymbolId>),
}

/// What the module at `module` sees of the model called `name`.
pub fn see_model(session: &SessionInfo, module: SymbolId, name: &str) -> (r: ModelSight)
    requires
        session.sync_odoo.wf(),
        session.sync_odoo.models_wf(),
        session.sync_odoo.is_module(module),
    ensures
        ({
            let odoo = session.sync_odoo;
            let found = odoo.main_symbols(odoo.model_at(name@)->0, Some(module));
            match r {
                ModelSight::Missing => !model_exists(odoo, name@),
                ModelSight::Unseen => model_exists(odoo, name@) && found.len() == 0,
                ModelSight::Seen(model, mains) => {
                    &&& model_exists(odoo, name@)
                    &&& odoo.model_at(name@) == Some(model)
                    &&& model < odoo.models.len()
                    &&& mains@ == found
                    &&& found.len() > 0
                },
            }
        }),
{
    let odoo = &session.sync_odoo;
    match odoo.get_model(name) {
        Some(model) => {
            if odoo.get_classes(model).len() == 0 {
                return ModelSight::Missing;
            }
            let mains = Model::get_main_symbols(model, session, Some(module));
            if mains.len() == 0 {
                ModelSight::Unseen
            } else {
                ModelSight::Seen(model, mains)
            }
        },
        None => ModelSight::Missing,
    }
}

impl XmlValidator {
    /// A validator for a file of the given entry point.
    pub fn new(entry: &EntryPoint, symbol: SymbolId) -> (r: XmlValidator)
        ensures
            r.xml_symbol == symbol,
            r.is_in_main_ep == entry.typ.is_project(),
    {
        let is_in_main_ep = entry.typ == EntryPointType::MAIN || entry.typ == EntryPointType::ADDON;
        XmlValidator { xml_symbol: symbol, is_in_main_ep }
    }

    /// Applies the rules for a record.
    fn validate_record(
        &self,
        session: &SessionInfo,
        module: SymbolId,
        xml_data_record: &OdooDataRecord,
        found: &mut Findings,
    )
        requires
            self.ready(*session, module),
            mains_in_files(session.sync_odoo, module, xml_data_record.model.0@),
            xml_data_record.placed(),
        ensures
            final(found)@ == record_checked(
                *session,
                self.xml_symbol,
                module,
                xml_data_record.model.0@,
                xml_data_record.model.1,
                field_views(xml_data_record.fields@),
                old(found)@,
            ),
    {
        let odoo = &session.sync_odoo;
        let name = xml_data_record.model.0.as_str();
        let (model, mains): (ModelId, Vec<SymbolId>) = match see_model(session, module, name) {
            ModelSight::Missing => {
                add_missing(&mut found.missing_models, name);
                found.flag(
                    session,
                    DiagnosticCode::OLS05056,
                    one_arg(name),
                    &xml_data_record.model.1,
                );
                return;
            },
            ModelSight::Unseen => {
                add_missing(&mut found.missing_models, name);
                if let Some(symbol) = odoo.get(module) {
                    found.flag(
                        session,
                        DiagnosticCode::OLS05055,
                        two_args(name, symbol.name.as_str()),
                        &xml_data_record.model.1,
                    );
                }
                return;
            },
            ModelSight::Seen(model, mains) => (model, mains),
        };
        proof {
            assert forall|k: int| 0 <= k < mains.len() implies odoo.classes(model).contains(
                #[trigger] mains@[k],
            ) by {
                let test = |id: SymbolId| odoo.main_and_visible(Some(module), id);
                assert(mains@.contains(mains@[k]));
                odoo.classes(model).lemma_filter_contains_rev(test, mains@[k]);
            }
            assert forall|k: int| 0 <= k < mains.len() implies odoo.in_file(
                #[trigger] mains@[k],
            ) by {
                assert(odoo.in_file(odoo.main_symbols(model, Some(module))[k]));
            }
        }
        found.model_dependencies.push(model);
        let ghost files = files_of(*odoo, mains@);
        let ghost listed = found.dependencies@;
        let ghost pushed = found@;
        let mut i: usize = 0;
        assert(listed + files.take(0) =~= listed);
        while i < mains.len()
            invariant
                i <= mains.len(),
                model < odoo.models.len(),
                forall|k: int|
                    0 <= k < mains.len() ==> odoo.classes(model).contains(#[trigger] mains@[k]),
                odoo.models_wf(),
                forall|k: int| 0 <= k < mains.len() ==> odoo.in_file(#[trigger] mains@[k]),
                files == files_of(*odoo, mains@),
                found@ == (FindingsView { dependencies: listed + files.take(i as int), ..pushed }),
            decreases mains.len() - i,
        {
            let id: SymbolId = mains[i];
            assert(odoo.classes(model).contains(mains@[i as int]));
            if let Some(symbol) = odoo.get(id) {
                if let Some(file) = symbol.file {
                    found.dependencies.push(file);
                    assert(found.dependencies@ =~= listed + files.take(i + 1));
                }
            }
            i = i + 1;
        }
        assert(files.take(i as int) =~= files);
        assert(odoo.classes(model).contains(mains@[0]));
        let all_fields = Symbol::all_fields(mains[0], odoo, Some(module), &mut found.messages);
        self.validate_fields(session, xml_data_record, &all_fields, found);
        proof {
            assert(names_in(all_fields) =~= field_names(*odoo, mains@[0], module));
        }
    }

    /// Applies the rules for one declaration.
    pub fn validate_xml_id(
        &self,
        session: &SessionInfo,
        module: SymbolId,
        data: &OdooData,
        found: &mut Findings,
    )
        requires
            self.ready(*session, module),
            data_in_files(session.sync_odoo, module, data@),
            data.placed(),
        ensures
            final(found)@ == data_checked(
                *session,
                self.xml_symbol,
                module,
                data@,
                old(found)@,
            ),
    {
        if data.get_xml_file_symbol(&session.sync_odoo).is_none() {
            return;
        }
        match data {
            OdooData::RECORD(record) => self.validate_record(session, module, record, found),
            OdooData::MENUITEM(menu_item) => self.validate_menu_item(menu_item, found),
            OdooData::TEMPLATE(template) => self.validate_template(template, found),
            OdooData::DELETE(delete) => self.validate_delete(delete, found),
        }
    }

    /// Menu items are checked when they are loaded; nothing is left to check.
    fn validate_menu_item(&self, menu_item: &XmlDataMenuItem, found: &mut Findings)
        ensures
            *final(found) == *old(found),
    {
    }

    /// Templates are not checked.
    fn validate_template(&self, template: &XmlDataTemplate, found: &mut Findings)
        ensures
            *final(found) == *old(found),
    {
    }

    /// Deletions are not checked.
    fn validate_delete(&self, delete: &XmlDataDelete, found: &mut Findings)
        ensures
            *final(found) == *old(found),
    {
    }
}

// Files

/// The rules for several declarations, in order.
pub open spec fn list_checked(
    session: SessionInfo,
    file: SymbolId,
    module: SymbolId,
    list: Seq<DataView>,
    found: FindingsView,
) -> FindingsView
    decreases list.len(),
{
    if list.len() == 0 {
        found
    } else {
        data_checked(
            session,
            file,
            module,
            list.last(),
            list_checked(session, file, module, list.drop_last(), found),
        )
    }
}

/// The rules for what a file declares under the IDs called `names`, in order.
pub open spec fn names_checked(
    session: SessionInfo,
    file: SymbolId,
    module: SymbolId,
    names: Seq<Seq<char>>,
    found: FindingsView,
) -> FindingsView
    decreases names.len(),
{
    if names.len() == 0 {
        found
    } else {
        list_checked(
            session,
            file,
            module,
            session.sync_odoo.declared(file, names.last()),
            names_checked(session, file, module, names.drop_last(), found),
        )
    }
}

/// Nothing found yet, after what was logged in a session.
pub open spec fn nothing_found(session: SessionInfo) -> FindingsView {
    FindingsView {
        diagnostics: Seq::empty(),
        dependencies: Seq::empty(),
        model_dependencies: Seq::empty(),
        missing_models: Set::empty(),
        log: log_views(session.messages@),
    }
}

/// What validation of the file at `file` finds: it goes over all that the file declares, in the
/// order in which the IDs first came.
pub open spec fn file_checked(session: SessionInfo, file: SymbolId) -> FindingsView {
    names_checked(
        session,
        file,
        session.sync_odoo.sym(file).module->0,
        session.sync_odoo.declared_names(file),
        nothing_found(session),
    )
}

/// Whether `b` is `a` after the file at `file` was validated with what was `found`: the
/// file depends on what defines its models, and they on it; it waits for the models it
/// missed; its diagnostics are stored and to be sent.
pub open spec fn validated(
    a: SessionInfo,
    b: SessionInfo,
    file: SymbolId,
    found: FindingsView,
) -> bool {
    let x = a.sync_odoo;
    let y = b.sync_odoo;
    let handle = x.sym(file).handle;
    let path = x.sym(file).paths@[0];
    &&& b.disabled_codes == a.disabled_codes
    &&& log_views(b.messages@) == found.log
    &&& b.requests@ == a.requests@.push(Request::PublishDiagnostics(path))
    &&& y.full_version == x.full_version
    &&& y.modules == x.modules
    &&& y.rebuild_validation == x.rebuild_validation
    &&& y.main_entry.typ == x.main_entry.typ
    &&& held(y.main_entry.not_found_symbols_for_models) == if found.missing_models == Set::<
        Seq<char>,
    >::empty() {
        held(x.main_entry.not_found_symbols_for_models)
    } else {
        held(x.main_entry.not_found_symbols_for_models).insert(handle)
    }
    &&& symbols_depend(
        x.symbols@,
        y.symbols@,
        file,
        found.dependencies,
        x.models@,
        found.model_dependencies,
        found.missing_models,
    )
    &&& models_depend(x.models@, y.models@, found.model_dependencies, handle)
    &&& NameMap::replaced(x.files, y.files, path@, y.files.value(path@))
    &&& y.files.value(path@).uri == x.files.value(path@).uri
    &&& y.files.value(path@).diagnostics.at(BuildSteps::VALIDATION) == Some(found.diagnostics)
    &&& forall|step: BuildSteps|
        step != BuildSteps::VALIDATION ==> y.files.value(path@).diagnostics.at(step)
            == x.files.value(path@).diagnostics.at(step)
}

/// Whether positions can tell all places in the declarations that a diagnostic may point
/// to.
pub open spec fn all_placed(entries: Seq<NameEntry<Vec<OdooData>>>) -> bool {
    forall|i: int, j: int|
        0 <= i < entries.len() && 0 <= j < entries[i].value.len() ==> (
        #[trigger] entries[i].value@[j]).placed()
}

impl XmlValidator {
    /// Whether the file can be validated: it belongs to a module and is a known file, the
    /// classes that define the models of its records stand in files, and positions can tell all
    /// places that a diagnostic may point to.
    pub open spec fn can_validate(self, session: SessionInfo) -> bool {
        let odoo = session.sync_odoo;
        let symbol = odoo.sym(self.xml_symbol);
        &&& odoo.wf()
        &&& odoo.models_wf()
        &&& odoo.is_xml_file(self.xml_symbol)
        &&& symbol.module is Some
        &&& forall|key: Seq<char>, i: int|
            0 <= i < odoo.declared(self.xml_symbol, key).len() ==> data_in_files(
                odoo,
                symbol.module->0,
                #[trigger] odoo.declared(self.xml_symbol, key)[i],
            )
        &&& symbol.paths@.len() > 0
        &&& odoo.files.has(symbol.paths@[0]@)
        &&& all_placed(symbol.data->XmlFile_0.xml_ids.entries@)
    }

    /// The path under which the file is known.
    fn get_file_info(&self, odoo: &SyncOdoo) -> (r: String)
        requires
            odoo.live(self.xml_symbol),
            odoo.sym(self.xml_symbol).paths@.len() > 0,
        ensures
            r == odoo.sym(self.xml_symbol).paths@[0],
    {
        match odoo.get(self.xml_symbol) {
            Some(symbol) => symbol.paths[0].clone(),
            None => String::new(),
        }
    }

    /// Applies the rules for all declarations of the file.
    fn collect(&self, session: &SessionInfo, found: &mut Findings)
        requires
            self.can_validate(*session),
            found_targets(session.sync_odoo, old(found)@),
        ensures
            final(found)@ == names_checked(
                *session,
                self.xml_symbol,
                session.sync_odoo.sym(self.xml_symbol).module->0,
                session.sync_odoo.declared_names(self.xml_symbol),
                old(found)@,
            ),
            found_targets(session.sync_odoo, final(found)@),
    {
        let odoo = &session.sync_odoo;
        let ghost start = found@;
        if let Some(symbol) = odoo.get(self.xml_symbol) {
            if let (Some(module), SymbolData::XmlFile(xml)) = (symbol.module, &symbol.data) {
                let entries = &xml.xml_ids.entries;
                let ghost names = xml.xml_ids.names();
                let mut i: usize = 0;
                assert(names.take(0) =~= Seq::empty());
                while i < entries.len()
                    invariant
                        i <= entries.len(),
                        *odoo == session.sync_odoo,
                        self.can_validate(*session),
                        all_placed(entries@),
                        module == odoo.sym(self.xml_symbol).module->0,
                        *xml == odoo.sym(self.xml_symbol).data->XmlFile_0,
                        *entries == xml.xml_ids.entries,
                        names == xml.xml_ids.names(),
                        found@ == names_checked(
                            *session,
                            self.xml_symbol,
                            module,
                            names.take(i as int),
                            start,
                        ),
                        found_targets(*odoo, found@),
                    decreases entries.len() - i,
                {
                    let list = &entries[i].value;
                    let ghost views = data_views(list@);
                    let ghost before = found@;
                    let mut j: usize = 0;
                    proof {
                        assert(odoo.live(self.xml_symbol));
                        xml.xml_ids.entry_counts(i as int);
                        assert(odoo.declared(self.xml_symbol, names[i as int]) == views);
                        assert(names.take(i + 1).drop_last() =~= names.take(i as int));
                        assert(views.take(0) =~= Seq::empty());
                    }
                    while j < list.len()
                        invariant
                            j <= list.len(),
                            *odoo == session.sync_odoo,
                            self.can_validate(*session),
                            self.ready(*session, module),
                            module == odoo.sym(self.xml_symbol).module->0,
                            views == odoo.declared(self.xml_symbol, names[i as int]),
                            views == data_views(list@),
                            forall|k: int| 0 <= k < list.len() ==> (#[trigger] list@[k]).placed(),
                            found@ == list_checked(
                                *session,
                                self.xml_symbol,
                                module,
                                views.take(j as int),
                                before,
                            ),
                            found_targets(*odoo, found@),
                        decreases list.len() - j,
                    {
                        let ghost now = found@;
                        assert(views.take(j + 1).drop_last() =~= views.take(j as int));
                        assert(data_in_files(
                            *odoo,
                            module,
                            odoo.declared(self.xml_symbol, names[i as int])[j as int],
                        ));
                        self.validate_xml_id(session, module, &list[j], found);
                        proof {
                            targets_kept(
                                *session,
                                self.xml_symbol,
                                module,
                                views[j as int],
                                now,
                            );
                        }
                        j = j + 1;
                    }
                    assert(views.take(j as int) =~= views);
                    i = i + 1;
                }
                assert(names.take(i as int) =~= names);
            }
        }
    }

    /// Validates the file: applies the rules for all its declarations, makes it depend on
    /// what defines its models, notes the models it missed, and stores its diagnostics
    /// for the client.
    pub fn validate(&mut self, session: &mut SessionInfo)
        requires
            old(self).can_validate(*old(session)),
        ensures
            *final(self) == *old(self),
            validated(
                *old(session),
                *final(session),
                old(self).xml_symbol,
                file_checked(*old(session), old(self).xml_symbol),
            ),
    {
        let ghost before = *session;
        let ghost odoo = before.sync_odoo;
        let file: SymbolId = self.xml_symbol;
        let mut messages: Vec<LogMessage> = Vec::new();
        std::mem::swap(&mut messages, &mut session.messages);
        let ghost emptied = *session;
        let mut found = Findings {
            diagnostics: Vec::new(),
            dependencies: Vec::new(),
            model_dependencies: Vec::new(),
            missing_models: Vec::new(),
            messages,
        };
        proof {
            assert(diagnostic_views(found.diagnostics@) =~= Seq::empty());
            assert(texts(found.missing_models@) =~= Seq::empty());
            assert(name_set(found.missing_models@) =~= Set::empty());
            messages_are_apart(
                before,
                emptied,
                file,
                odoo.sym(file).module->0,
                odoo.declared_names(file),
                found@,
            );
        }
        self.collect(session, &mut found);
        let ghost view = found@;
        let Findings {
            diagnostics,
            dependencies,
            model_dependencies,
            missing_models,
            mut messages,
        } = found;
        session.messages.append(&mut messages);
        assert(session.messages@ =~= found.messages@);
        let path = self.get_file_info(&session.sync_odoo);
        let ghost s0 = session.sync_odoo.symbols@;
        proof {
            assert forall|k: int| 0 <= k < dependencies.len() implies python_file_at(
                s0,
                #[trigger] dependencies@[k],
            ) by {
                assert(python_file_at(s0, view.dependencies[k]));
            }
            assert forall|k: int| 0 <= k < model_dependencies.len() implies
                #[trigger] model_dependencies@[k] < odoo.models.len() by {
                assert(view.model_dependencies[k] < odoo.models.len());
            }
        }
        add_dependencies(&mut session.sync_odoo.symbols, file, &dependencies);
        let ghost s1 = session.sync_odoo.symbols@;
        assert(s1[file as int] is Some == s0[file as int] is Some);
        add_model_dependencies(
            &mut session.sync_odoo.symbols,
            &mut session.sync_odoo.models,
            file,
            &model_dependencies,
        );
        let ghost s2 = session.sync_odoo.symbols@;
        assert(s2[file as int] is Some == s1[file as int] is Some);
        if missing_models.len() > 0 {
            if let Some(symbol) = &session.sync_odoo.symbols[file] {
                session.sync_odoo.main_entry.not_found_symbols_for_models.insert(&symbol.handle);
            }
        }
        proof {
            if missing_models.len() > 0 {
                assert(texts(missing_models@)[0] == missing_models@[0]@);
                assert(name_set(missing_models@).contains(missing_models@[0]@));
            } else {
                assert(name_set(missing_models@) =~= Set::empty());
            }
        }
        note_missing_models(&mut session.sync_odoo.symbols, file, &missing_models);
        proof {
            steps_compose(
                s0,
                s1,
                s2,
                session.sync_odoo.symbols@,
                file,
                dependencies@,
                odoo.models@,
                model_dependencies@,
                name_set(missing_models@),
            );
        }
        let info = session.sync_odoo.files.entry(path.as_str(), FileInfo::new(String::new()));
        info.replace_diagnostics(BuildSteps::VALIDATION, diagnostics);
        session.requests.push(Request::PublishDiagnostics(path));
    }
}

/// Whether the files and models that were found are there.
pub open spec fn found_targets(odoo: SyncOdoo, found: FindingsView) -> bool {
    &&& forall|k: int|
        0 <= k < found.dependencies.len() ==> python_file_at(
            odoo.symbols@,
            #[trigger] found.dependencies[k],
        )
    &&& forall|k: int|
        0 <= k < found.model_dependencies.len() ==> #[trigger] found.model_dependencies[k]
            < odoo.models.len()
}

proof fn fields_leave_targets(
    session: SessionInfo,
    file: SymbolId,
    model: Seq<char>,
    known: Set<Seq<char>>,
    fields: Seq<FieldView>,
    found: FindingsView,
)
    ensures
        ({
            let after = fields_checked(session, file, model, known, fields, found);
            after.dependencies == found.dependencies && after.model_dependencies
                == found.model_dependencies
        }),
    decreases fields.len(),
{
    if fields.len() > 0 {
        fields_leave_targets(session, file, model, known, fields.drop_last(), found);
    }
}

proof fn targets_kept(
    session: SessionInfo,
    file: SymbolId,
    module: SymbolId,
    data: DataView,
    found: FindingsView,
)
    requires
        found_targets(session.sync_odoo, found),
        data_in_files(session.sync_odoo, module, data),
    ensures
        found_targets(session.sync_odoo, data_checked(session, file, module, data, found)),
{
    let odoo = session.sync_odoo;
    if let DataKind::Record { model: name, model_range, fields } = data.kind {
        if odoo.typ(data.file_symbol) == Some(SymType::XML_FILE) && model_exists(odoo, name) {
            let model = odoo.model_at(name)->0;
            odoo.model_at_is_first(name);
            let mains = odoo.main_symbols(model, Some(module));
            let files = files_of(odoo, mains);
            if mains.len() > 0 {
                fields_leave_targets(
                    session,
                    file,
                    name,
                    field_names(odoo, mains[0], module),
                    fields,
                    FindingsView {
                        dependencies: found.dependencies + files,
                        model_dependencies: found.model_dependencies.push(model),
                        log: field_visit(odoo, mains[0], Some(module), found.log).log,
                        ..found
                    },
                );
                assert forall|k: int| 0 <= k < mains.len() implies python_file_at(
                    odoo.symbols@,
                    #[trigger] files[k],
                ) by {
                    assert(odoo.in_file(mains[k]));
                }
            }
        }
    }
}

proof fn messages_are_apart(
    a: SessionInfo,
    b: SessionInfo,
    file: SymbolId,
    module: SymbolId,
    names: Seq<Seq<char>>,
    found: FindingsView,
)
    requires
        a.sync_odoo == b.sync_odoo,
        a.disabled_codes == b.disabled_codes,
    ensures
        names_checked(a, file, module, names, found) == names_checked(
            b,
            file,
            module,
            names,
            found,
        ),
    decreases names.len(),
{
    if names.len() > 0 {
        messages_are_apart(a, b, file, module, names.drop_last(), found);
        let before = names_checked(a, file, module, names.drop_last(), found);
        let list = a.sync_odoo.declared(file, names.last());
        list_messages_are_apart(a, b, file, module, list, before);
    }
}

proof fn list_messages_are_apart(
    a: SessionInfo,
    b: SessionInfo,
    file: SymbolId,
    module: SymbolId,
    list: Seq<DataView>,
    found: FindingsView,
)
    requires
        a.sync_odoo == b.sync_odoo,
        a.disabled_codes == b.disabled_codes,
    ensures
        list_checked(a, file, module, list, found) == list_checked(b, file, module, list, found),
    decreases list.len(),
{
    if list.len() > 0 {
        list_messages_are_apart(a, b, file, module, list.drop_last(), found);
        if let DataKind::Record { model: name, model_range, fields } = list.last().kind {
            let before = list_checked(a, file, module, list.drop_last(), found);
            let odoo = a.sync_odoo;
            let mains = odoo.main_symbols(odoo.model_at(name)->0, Some(module));
            field_messages_are_apart(
                a,
                b,
                file,
                name,
                field_names(odoo, mains[0], module),
                fields,
                FindingsView {
                    dependencies: before.dependencies + files_of(odoo, mains),
                    model_dependencies: before.model_dependencies.push(odoo.model_at(name)->0),
                    log: field_visit(odoo, mains[0], Some(module), before.log).log,
                    ..before
                },
            );
        }
    }
}

proof fn field_messages_are_apart(
    a: SessionInfo,
    b: SessionInfo,
    file: SymbolId,
    model: Seq<char>,
    known: Set<Seq<char>>,
    fields: Seq<FieldView>,
    found: FindingsView,
)
    requires
        a.sync_odoo == b.sync_odoo,
        a.disabled_codes == b.disabled_codes,
    ensures
        fields_checked(a, file, model, known, fields, found) == fields_checked(
            b,
            file,
            model,
            known,
            fields,
            found,
        ),
    decreases fields.len(),
{
    if fields.len() > 0 {
        field_messages_are_apart(a, b, file, model, known, fields.drop_last(), found);
    }
}

} // verus!
