//! What callers have to test before a build step, where they cannot prove it.
use vstd::prelude::*;

use crate::constants::{ModelId, SymType, SymbolId};
use crate::names::NameMap;
use crate::odoo::{SessionInfo, SyncOdoo};
use crate::symbols::SymbolData;
use crate::text::same_text;
use crate::xml_arch_builder::XmlArchBuilder;
use crate::xml_data::{data_views, field_views, DataKind, OdooData};
use crate::xml_ids::named_apart;
use crate::xml_validation::{all_placed, data_in_files, model_exists, see_model, ModelSight, XmlValidator};

verus! {

impl<V> NameMap<V> {
    /// Whether no name occurs twice.
    pub fn is_distinct(&self) -> (r: bool)
        ensures
            r == self.distinct(),
    {
        let mut j: usize = 0;
        while j < self.entries.len()
            invariant
                j <= self.entries.len(),
                forall|a: int, b: int|
                    0 <= a < b < j ==> (#[trigger] self.entries@[a]).name@ != (
                    #[trigger] self.entries@[b]).name@,
            decreases self.entries.len() - j,
        {
            let mut i: usize = 0;
            while i < j
                invariant
                    i <= j < self.entries.len(),
                    forall|a: int|
                        0 <= a < i ==> (#[trigger] self.entries@[a]).name@
                            != self.entries@[j as int].name@,
                decreases j - i,
            {
                if same_text(self.entries[i].name.as_str(), self.entries[j].name.as_str()) {
                    assert(self.entries@[i as int].name@ == self.entries@[j as int].name@);
                    return false;
                }
                i = i + 1;
            }
            j = j + 1;
        }
        true
    }
}

impl SymbolData {
    /// Whether no map holds a name twice.
    pub fn is_keyed_once(&self) -> (r: bool)
        ensures
            r == self.keyed_once(),
    {
        match self {
            SymbolData::Module(module) => module.xml_id_locations.is_distinct(),
            SymbolData::XmlFile(file) => file.xml_ids.is_distinct()
                && file.not_found_models.is_distinct(),
            SymbolData::Class(class) => class.fields.is_distinct(),
            _ => true,
        }
    }
}

impl SyncOdoo {
    /// Whether there is a module at `id`.
    pub fn has_module(&self, id: SymbolId) -> (r: bool)
        ensures
            r == self.is_module(id),
    {
        match self.get(id) {
            Some(symbol) => match &symbol.data {
                SymbolData::Module(_) => true,
                _ => false,
            },
            None => false,
        }
    }

    /// Whether there is an XML file at `id`.
    pub fn has_xml_file(&self, id: SymbolId) -> (r: bool)
        ensures
            r == self.is_xml_file(id),
    {
        match self.get(id) {
            Some(symbol) => match &symbol.data {
                SymbolData::XmlFile(_) => true,
                _ => false,
            },
            None => false,
        }
    }

    /// Whether the symbol at `id` stands in a Python file that is there.
    fn stands_in_file(&self, id: SymbolId) -> (r: bool)
        requires
            self.live(id),
        ensures
            r == self.in_file(id),
    {
        if let Some(symbol) = self.get(id) {
            if let Some(file) = symbol.file {
                if let Some(symbol) = self.get(file) {
                    if let SymbolData::File(_) = &symbol.data {
                        return true;
                    }
                }
            }
        }
        false
    }

    /// Whether no two models have the same name.
    fn has_models_apart(&self) -> (r: bool)
        ensures
            r == named_apart(self.models@),
    {
        let mut j: usize = 0;
        while j < self.models.len()
            invariant
                j <= self.models.len(),
                forall|a: int, b: int|
                    0 <= a < b < j ==> (#[trigger] self.models@[a]).name@ != (
                    #[trigger] self.models@[b]).name@,
            decreases self.models.len() - j,
        {
            let mut i: usize = 0;
            while i < j
                invariant
                    i <= j < self.models.len(),
                    forall|a: int|
                        0 <= a < i ==> (#[trigger] self.models@[a]).name@
                            != self.models@[j as int].name@,
                decreases j - i,
            {
                if same_text(self.models[i].name.as_str(), self.models[j].name.as_str()) {
                    assert(self.models@[i as int].name@ == self.models@[j as int].name@);
                    return false;
                }
                i = i + 1;
            }
            j = j + 1;
        }
        true
    }

    /// Whether the tables are well-formed.
    pub fn is_wf(&self) -> (r: bool)
        ensures
            r == self.wf(),
    {
        if !self.modules.is_distinct() || !self.files.is_distinct() || !self.has_models_apart() {
            return false;
        }
        let mut i: usize = 0;
        while i < self.modules.entries.len()
            invariant
                i <= self.modules.entries.len(),
                forall|j: int|
                    0 <= j < i ==> self.is_module((#[trigger] self.modules.entries@[j]).value),
            decreases self.modules.entries.len() - i,
        {
            if !self.has_module(self.modules.entries[i].value) {
                return false;
            }
            i = i + 1;
        }
        let mut k: usize = 0;
        while k < self.symbols.len()
            invariant
                k <= self.symbols.len(),
                forall|j: int|
                    0 <= j < k && (#[trigger] self.symbols@[j]) is Some ==> {
                        &&& self.symbols@[j]->0.handle.id() == j
                        &&& self.symbols@[j]->0.data.keyed_once()
                        &&& self.symbols@[j]->0.module is Some ==> self.is_module(
                            self.symbols@[j]->0.module->0,
                        )
                    },
            decreases self.symbols.len() - k,
        {
            if let Some(symbol) = &self.symbols[k] {
                let in_module = match symbol.module {
                    Some(module) => self.has_module(module),
                    None => true,
                };
                if symbol.handle.get_id() != k || !symbol.data.is_keyed_once() || !in_module {
                    proof {
                        assert(self.live(k));
                        assert(self.symbols@[k as int] is Some);
                    }
                    return false;
                }
            }
            k = k + 1;
        }
        assert forall|id: SymbolId| #[trigger] self.live(id) implies self.sym(id).data.keyed_once()
            && (self.sym(id).module is Some ==> self.is_module(self.sym(id).module->0)) by {
            assert(self.symbols@[id as int] is Some);
        }
        true
    }

    /// Whether the classes of models say that they are of one.
    pub fn is_models_wf(&self) -> (r: bool)
        requires
            self.wf(),
        ensures
            r == self.models_wf(),
    {
        let mut model: ModelId = 0;
        while model < self.models.len()
            invariant
                self.wf(),
                model <= self.models.len(),
                forall|m: ModelId, id: SymbolId|
                    m < model && #[trigger] self.classes(m).contains(id) ==> self.is_model_class(
                        id,
                    ),
            decreases self.models.len() - model,
        {
            let ids = self.get_classes(model);
            let mut i: usize = 0;
            while i < ids.len()
                invariant
                    model < self.models.len(),
                    i <= ids.len(),
                    ids@ == self.classes(model),
                    forall|j: int| 0 <= j < i ==> self.is_model_class(#[trigger] ids@[j]),
                decreases ids.len() - i,
            {
                if self.get_model_data(ids[i]).is_none() {
                    assert(self.classes(model).contains(ids@[i as int]));
                    return false;
                }
                i = i + 1;
            }
            assert forall|id: SymbolId| #[trigger] self.classes(model).contains(id) implies
                self.is_model_class(id) by {
                let j = choose|j: int| 0 <= j < ids@.len() && ids@[j] == id;
                assert(self.is_model_class(ids@[j]));
            }
            model = model + 1;
        }
        true
    }
}

impl XmlArchBuilder {
    /// Whether the file can be loaded in this session.
    pub fn is_ready(&self, session: &SessionInfo) -> (r: bool)
        ensures
            r == self.ready(*session),
    {
        session.sync_odoo.is_wf() && session.sync_odoo.has_xml_file(self.xml_symbol)
    }
}

/// Whether the classes that define the model of a declaration stand in files.
fn is_in_files(session: &SessionInfo, module: SymbolId, data: &OdooData) -> (r: bool)
    requires
        session.sync_odoo.wf(),
        session.sync_odoo.models_wf(),
        session.sync_odoo.is_module(module),
    ensures
        r == data_in_files(session.sync_odoo, module, data@),
{
    let odoo = &session.sync_odoo;
    if data.get_xml_file_symbol(odoo).is_none() {
        return true;
    }
    if let OdooData::RECORD(record) = data {
        if let ModelSight::Seen(model, mains) = see_model(
            session,
            module,
            record.model.0.as_str(),
        ) {
            let ghost found = odoo.main_symbols(model, Some(module));
            let mut i: usize = 0;
            while i < mains.len()
                invariant
                    i <= mains.len(),
                    *odoo == session.sync_odoo,
                    odoo.models_wf(),
                    model < odoo.models.len(),
                    mains@ == found,
                    found == odoo.main_symbols(model, Some(module)),
                    Some(model) == odoo.model_at(record.model.0@),
                    model_exists(*odoo, record.model.0@),
                    data@.kind == (DataKind::Record {
                        model: record.model.0@,
                        model_range: record.model.1,
                        fields: field_views(record.fields@),
                    }),
                    odoo.typ(data@.file_symbol) == Some(SymType::XML_FILE),
                    forall|k: int| 0 <= k < i ==> odoo.in_file(#[trigger] found[k]),
                decreases mains.len() - i,
            {
                proof {
                    let test = |id: SymbolId| odoo.main_and_visible(Some(module), id);
                    assert(found.contains(found[i as int]));
                    odoo.classes(model).lemma_filter_contains_rev(test, found[i as int]);
                    assert(odoo.classes(model).contains(found[i as int]));
                    assert(odoo.is_model_class(found[i as int]));
                }
                if !odoo.stands_in_file(mains[i]) {
                    assert(!odoo.in_file(odoo.main_symbols(model, Some(module))[i as int]));
                    return false;
                }
                i = i + 1;
            }
        }
    }
    true
}

impl XmlValidator {
    /// Whether the file can be validated in this session.
    pub fn is_validatable(&self, session: &SessionInfo) -> (r: bool)
        ensures
            r == self.can_validate(*session),
    {
        let odoo = &session.sync_odoo;
        if !odoo.is_wf() || !odoo.is_models_wf() {
            return false;
        }
        let symbol = match odoo.get(self.xml_symbol) {
            Some(symbol) => symbol,
            None => {
                return false;
            },
        };
        let (module, xml) = match (symbol.module, &symbol.data) {
            (Some(module), SymbolData::XmlFile(xml)) => (module, xml),
            _ => {
                return false;
            },
        };
        if symbol.paths.len() == 0 || odoo.files.get(symbol.paths[0].as_str()).is_none() {
            return false;
        }
        let entries = &xml.xml_ids.entries;
        let mut i: usize = 0;
        while i < entries.len()
            invariant
                i <= entries.len(),
                *odoo == session.sync_odoo,
                odoo.wf(),
                odoo.models_wf(),
                odoo.is_xml_file(self.xml_symbol),
                odoo.is_module(module),
                Some(module) == odoo.sym(self.xml_symbol).module,
                *xml == odoo.sym(self.xml_symbol).data->XmlFile_0,
                *entries == xml.xml_ids.entries,
                forall|a: int, b: int|
                    0 <= a < i && 0 <= b < entries@[a].value.len() ==> {
                        &&& (#[trigger] entries@[a].value@[b]).placed()
                        &&& data_in_files(*odoo, module, entries@[a].value@[b]@)
                    },
            decreases entries.len() - i,
        {
            let list = &entries[i].value;
            let mut j: usize = 0;
            while j < list.len()
                invariant
                    i < entries.len(),
                    j <= list.len(),
                    *list == entries@[i as int].value,
                    *odoo == session.sync_odoo,
                    odoo.wf(),
                    odoo.models_wf(),
                    odoo.is_xml_file(self.xml_symbol),
                    odoo.is_module(module),
                    Some(module) == odoo.sym(self.xml_symbol).module,
                    *xml == odoo.sym(self.xml_symbol).data->XmlFile_0,
                    *entries == xml.xml_ids.entries,
                    forall|b: int|
                        0 <= b < j ==> (#[trigger] list@[b]).placed() && data_in_files(
                            *odoo,
                            module,
                            list@[b]@,
                        ),
                decreases list.len() - j,
            {
                let data = &list[j];
                if !data.is_placed() {
                    assert(!entries@[i as int].value@[j as int].placed());
                    return false;
                }
                if !is_in_files(session, module, data) {
                    proof {
                        let key = entries@[i as int].name@;
                        assert(odoo.live(self.xml_symbol));
                        xml.xml_ids.entry_counts(i as int);
                        assert(odoo.declared(self.xml_symbol, key) == data_views(list@));
                        assert(odoo.declared(self.xml_symbol, key)[j as int] == data@);
                    }
                    return false;
                }
                j = j + 1;
            }
            i = i + 1;
        }
        proof {
            assert(all_placed(entries@));
            assert forall|key: Seq<char>, k: int|
                0 <= k < odoo.declared(self.xml_symbol, key).len() implies data_in_files(
                *odoo,
                module,
                #[trigger] odoo.declared(self.xml_symbol, key)[k],
            ) by {
                let a = choose|a: int| xml.xml_ids.first(key, a);
                assert(xml.xml_ids.first(key, a));
                xml.xml_ids.first_decides(key, a);
                assert(data_in_files(*odoo, module, entries@[a].value@[k]@));
            }
        }
        true
    }
}

} // verus!
