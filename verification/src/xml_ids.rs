//! XML IDs: where they are declared and what they stand for.
use vstd::prelude::*;

use crate::constants::SymbolId;
use crate::diagnostics::{diagnostic_views, offsets, report, reported, Diagnostic, DiagnosticCode, DiagnosticView, Range};
use crate::handles::{held, Handle};
use crate::model::Model;
use crate::odoo::{members, members_are_exact, SessionInfo, SyncOdoo};
use crate::symbols::SymbolData;
use crate::text::{split_on, split_seq, texts};
use crate::xml_data::{data_views, DataView, OdooData};

verus! {

/// The declarations of all XML files and the modules they are declared for.
#[verifier::ext_equal]
pub struct XmlIndex {
    /// The IDs without module that a file declares, in the order in which they first came.
    pub names: Map<SymbolId, Seq<Seq<char>>>,
    /// What a file declares under an ID without module.
    pub data: Map<(SymbolId, Seq<char>), Seq<DataView>>,
    /// The files that declare an ID for a module.
    pub locations: Map<(SymbolId, Seq<char>), Set<Handle>>,
}

/// What loading an XML file goes by and leaves as it is.
pub struct ArchEnv {
    /// Codes of diagnostics that are switched off.
    pub disabled: Set<DiagnosticCode>,
    /// Handles of the symbols that are there.
    pub handles: Map<SymbolId, Handle>,
    /// Modules by directory name.
    pub modules: Map<Seq<char>, SymbolId>,
    /// The file that is loaded.
    pub file: SymbolId,
    /// The module of the file.
    pub module: Option<SymbolId>,
    /// Whether the file's IDs are registered.
    pub registers: bool,
}

/// What loading an XML file changes.
#[verifier::ext_equal]
pub struct ArchState {
    pub index: XmlIndex,
    pub diagnostics: Seq<DiagnosticView>,
}

/// Whether no two models have the same name.
pub open spec fn named_apart(models: Seq<Model>) -> bool {
    forall|i: int, j: int|
        0 <= i < j < models.len() ==> (#[trigger] models[i]).name@ != (#[trigger] models[j]).name@
}

/// Whether the models have the same names, one by one.
pub open spec fn same_names(a: Seq<Model>, b: Seq<Model>) -> bool {
    a.len() == b.len() && forall|i: int| 0 <= i < a.len() ==> (#[trigger] b[i]).name == a[i].name
}

/// The same names are as far apart.
pub proof fn names_stay_apart(a: Seq<Model>, b: Seq<Model>)
    requires
        same_names(a, b),
        named_apart(a),
    ensures
        named_apart(b),
{
    assert forall|i: int, j: int| 0 <= i < j < b.len() implies (#[trigger] b[i]).name@ != (
    #[trigger] b[j]).name@ by {
        assert(a[i].name@ != a[j].name@);
    }
}

impl SyncOdoo {
    /// Whether there is a module at `id`.
    pub open spec fn is_module(self, id: SymbolId) -> bool {
        self.live(id) && self.sym(id).data is Module
    }

    /// Whether there is an XML file at `id`.
    pub open spec fn is_xml_file(self, id: SymbolId) -> bool {
        self.live(id) && self.sym(id).data is XmlFile
    }

    /// Whether handles tell positions, whatever is called a module is one, no map holds a name
    /// twice, and no two models have the same name.
    pub open spec fn wf(self) -> bool {
        &&& crate::odoo::handles_match(self.symbols@)
        &&& self.modules.distinct()
        &&& self.files.distinct()
        &&& named_apart(self.models@)
        &&& forall|id: SymbolId| #[trigger] self.live(id) ==> self.sym(id).data.keyed_once()
        &&& forall|i: int|
            0 <= i < self.modules.entries.len() ==> self.is_module(
                (#[trigger] self.modules.entries@[i]).value,
            )
        &&& forall|id: SymbolId| #[trigger]
            self.live(id) && self.sym(id).module is Some ==> self.is_module(self.sym(id).module->0)
    }

    /// Apart from the names of the models, well-formedness rests on the symbols, the modules and
    /// the files alone.
    pub proof fn still_wf(self, other: SyncOdoo)
        requires
            self.wf(),
            other.symbols@ == self.symbols@,
            other.modules == self.modules,
            other.files == self.files,
            named_apart(other.models@),
        ensures
            other.wf(),
    {
        assert forall|id: SymbolId| #[trigger] other.live(id) implies other.sym(
            id,
        ).data.keyed_once() by {
            assert(self.live(id));
        }
        assert forall|i: int| 0 <= i < other.modules.entries.len() implies other.is_module(
            (#[trigger] other.modules.entries@[i]).value,
        ) by {
            assert(self.is_module(self.modules.entries@[i].value));
        }
        assert forall|id: SymbolId| #[trigger]
            other.live(id) && other.sym(id).module is Some implies other.is_module(
            other.sym(id).module->0,
        ) by {
            assert(self.live(id));
            assert(self.is_module(self.sym(id).module->0));
        }
    }

    /// The IDs that the file declares, in the order in which they first came.
    pub open spec fn declared_names(self, file: SymbolId) -> Seq<Seq<char>> {
        if self.is_xml_file(file) {
            self.sym(file).data->XmlFile_0.xml_ids.names()
        } else {
            Seq::empty()
        }
    }

    /// What the file declares under `key`.
    pub open spec fn declared(self, file: SymbolId, key: Seq<char>) -> Seq<DataView> {
        if self.is_xml_file(file) && self.sym(file).data->XmlFile_0.xml_ids.has(key) {
            data_views(self.sym(file).data->XmlFile_0.xml_ids.value(key)@)
        } else {
            Seq::empty()
        }
    }

    /// The files that declare `key` for the module.
    pub open spec fn locations(self, module: SymbolId, key: Seq<char>) -> Set<Handle> {
        if self.is_module(module) && self.sym(module).data->Module_0.xml_id_locations.has(key) {
            held(self.sym(module).data->Module_0.xml_id_locations.value(key))
        } else {
            Set::empty()
        }
    }

    /// All declarations.
    #[verifier::opaque]
    pub open spec fn xml_index(self) -> XmlIndex {
        XmlIndex {
            names: Map::new(|file: SymbolId| true, |file: SymbolId| self.declared_names(file)),
            data: Map::new(
                |at: (SymbolId, Seq<char>)| true,
                |at: (SymbolId, Seq<char>)| self.declared(at.0, at.1),
            ),
            locations: Map::new(
                |at: (SymbolId, Seq<char>)| true,
                |at: (SymbolId, Seq<char>)| self.locations(at.0, at.1),
            ),
        }
    }

    /// Handles of the symbols that are there.
    #[verifier::opaque]
    pub open spec fn handle_map(self) -> Map<SymbolId, Handle> {
        Map::new(|id: SymbolId| self.live(id), |id: SymbolId| self.sym(id).handle)
    }

    /// Modules by directory name.
    #[verifier::opaque]
    pub open spec fn module_map(self) -> Map<Seq<char>, SymbolId> {
        Map::new(|name: Seq<char>| self.modules.has(name), |name: Seq<char>| self.modules.value(name))
    }
}

/// `names` with `name`, at the end if it is new.
pub open spec fn with_name(names: Seq<Seq<char>>, name: Seq<char>) -> Seq<Seq<char>> {
    if names.contains(name) {
        names
    } else {
        names.push(name)
    }
}

impl ArchState {
    /// `self` with a diagnostic appended, unless its code is switched off.
    pub open spec fn emit(
        self,
        env: ArchEnv,
        code: DiagnosticCode,
        args: Seq<Seq<char>>,
        range: std::ops::Range<usize>,
    ) -> ArchState {
        ArchState {
            diagnostics: reported(
                env.disabled,
                self.diagnostics,
                code,
                args,
                offsets(range.start, range.end),
            ),
            ..self
        }
    }

    /// `self` after an XML ID was looked up: one with more than one dot is refused.
    pub open spec fn after_lookup(
        self,
        env: ArchEnv,
        xml_id: Seq<char>,
        range: std::ops::Range<usize>,
    ) -> ArchState {
        if split_seq(xml_id, '.').len() > 2 {
            self.emit(env, DiagnosticCode::OLS05051, seq![xml_id], range)
        } else {
            self
        }
    }

    /// `self` after `id` was registered for `data`.
    pub open spec fn register(
        self,
        env: ArchEnv,
        id: Option<Seq<char>>,
        range: std::ops::Range<usize>,
        data: DataView,
    ) -> ArchState {
        if !env.registers || id is None || env.module is None {
            self
        } else {
            let parts = split_seq(id->0, '.');
            if parts.len() > 2 {
                self.emit(env, DiagnosticCode::OLS05051, seq![id->0], range)
            } else {
                let key = parts.last();
                let module = env.owner(parts);
                let at = (env.file, key);
                ArchState {
                    index: XmlIndex {
                        names: self.index.names.insert(
                            env.file,
                            with_name(self.index.names[env.file], key),
                        ),
                        data: self.index.data.insert(
                            at,
                            self.index.data[at].push(DataView { file_symbol: env.file, ..data }),
                        ),
                        locations: self.index.locations.insert(
                            (module, key),
                            self.index.locations[(module, key)].insert(env.handles[env.file]),
                        ),
                    },
                    ..self
                }
            }
        }
    }
}

impl ArchEnv {
    /// The module that an ID with these parts is declared for: the one it names, if
    /// that is known, else the file's.
    pub open spec fn owner(self, parts: Seq<Seq<char>>) -> SymbolId {
        if parts.len() == 2 && self.modules.contains_key(parts[0]) {
            self.modules[parts[0]]
        } else {
            self.module->0
        }
    }

    /// The module that an ID with these parts is looked up in: the one it names, or
    /// the file's if it names none.
    pub open spec fn target(self, parts: Seq<Seq<char>>) -> Option<SymbolId> {
        if parts.len() == 1 {
            self.module
        } else if parts.len() == 2 && self.modules.contains_key(parts[0]) {
            Some(self.modules[parts[0]])
        } else {
            None
        }
    }

    /// Whether `data` is what the XML ID stands for, or part of it.
    pub open spec fn stands_for(self, index: XmlIndex, xml_id: Seq<char>, data: DataView) -> bool {
        let parts = split_seq(xml_id, '.');
        let key = parts.last();
        &&& self.target(parts) is Some
        &&& exists|file: SymbolId, i: int|
            {
                &&& self.handles.contains_key(file)
                &&& index.locations[(self.target(parts)->0, key)].contains(self.handles[file])
                &&& 0 <= i < index.data[(file, key)].len()
                &&& #[trigger] index.data[(file, key)][i] == data
            }
    }

    /// Whether the XML ID stands for anything.
    pub open spec fn resolves(self, index: XmlIndex, xml_id: Seq<char>) -> bool {
        exists|data: DataView| #[trigger] self.stands_for(index, xml_id, data)
    }

    /// Whether the XML ID stands for a record of `res.groups`.
    pub open spec fn resolves_to_group(self, index: XmlIndex, xml_id: Seq<char>) -> bool {
        exists|data: DataView| #[trigger]
            self.stands_for(index, xml_id, data) && is_group(data)
    }
}

/// Whether a declaration is a record of `res.groups`.
pub open spec fn is_group(data: DataView) -> bool {
    data.kind is Record && data.kind->Record_model == "res.groups"@
}

/// What the files at `ids` declare under `key`, file after file.
pub open spec fn declared_in(odoo: SyncOdoo, ids: Seq<SymbolId>, key: Seq<char>) -> Seq<DataView>
    decreases ids.len(),
{
    if ids.len() == 0 {
        Seq::empty()
    } else {
        declared_in(odoo, ids.drop_last(), key) + odoo.declared(ids.last(), key)
    }
}

/// The module that an ID with these parts is looked up in.
pub open spec fn lookup_module(odoo: SyncOdoo, file: SymbolId, parts: Seq<Seq<char>>) -> Option<
    SymbolId,
> {
    if parts.len() == 1 {
        odoo.sym(file).module
    } else if parts.len() == 2 && odoo.modules.has(parts[0]) {
        Some(odoo.modules.value(parts[0]))
    } else {
        None
    }
}

/// What `xml_id`, written in `file`, stands for.
pub open spec fn looked_up(odoo: SyncOdoo, file: SymbolId, xml_id: Seq<char>) -> Seq<DataView> {
    let parts = split_seq(xml_id, '.');
    match lookup_module(odoo, file, parts) {
        Some(module) => declared_in(
            odoo,
            members(odoo.symbols@, odoo.locations(module, parts.last())),
            parts.last(),
        ),
        None => Seq::empty(),
    }
}

/// The views of declarations that are borrowed.
pub open spec fn borrowed_views(v: Seq<&OdooData>) -> Seq<DataView> {
    v.map_values(|d: &OdooData| d@)
}

impl SyncOdoo {
    /// What `xml_id`, written in the file `file` at `range`, stands for: the
    /// declarations of that ID in the files that declare it for the module it names,
    /// or for the file's own module.
    pub fn get_xml_ids<'a>(
        session: &'a SessionInfo,
        file: SymbolId,
        xml_id: &str,
        range: &std::ops::Range<usize>,
        diagnostics: &mut Vec<Diagnostic>,
    ) -> (r: Vec<&'a OdooData>)
        requires
            session.sync_odoo.wf(),
            session.sync_odoo.live(file),
        ensures
            borrowed_views(r@) == looked_up(session.sync_odoo, file, xml_id@),
            diagnostic_views(final(diagnostics)@) == if split_seq(xml_id@, '.').len() > 2 {
                reported(
                    session.disabled(),
                    diagnostic_views(old(diagnostics)@),
                    DiagnosticCode::OLS05051,
                    seq![xml_id@],
                    offsets(range.start, range.end),
                )
            } else {
                diagnostic_views(old(diagnostics)@)
            },
    {
        let odoo = &session.sync_odoo;
        let parts = split_on(xml_id, '.');
        let ghost views = split_seq(xml_id@, '.');
        let mut out: Vec<&'a OdooData> = Vec::new();
        assert(borrowed_views(out@) =~= Seq::empty());
        if parts.len() > 2 {
            let args: Vec<String> = vec![xml_id.to_owned()];
            assert(texts(args@) =~= seq![xml_id@]);
            report(session, diagnostics, DiagnosticCode::OLS05051, args, range);
            return out;
        }
        let module: Option<SymbolId> = if parts.len() == 1 {
            match odoo.get(file) {
                Some(symbol) => symbol.module,
                None => None,
            }
        } else {
            assert(views[0] == parts@[0]@);
            match odoo.modules.get(parts[0].as_str()) {
                Some(id) => Some(*id),
                None => None,
            }
        };
        assert(module == lookup_module(*odoo, file, views));
        let module_id: SymbolId = match module {
            Some(id) => id,
            None => {
                return out;
            },
        };
        let key = parts[parts.len() - 1].as_str();
        assert(views.last() == key@);
        let files: Vec<SymbolId> = odoo.files_of(module_id, key);
        let ghost ids = members(odoo.symbols@, odoo.locations(module_id, key@));
        let mut i: usize = 0;
        assert(ids.take(0) =~= Seq::empty());
        while i < files.len()
            invariant
                i <= files.len(),
                files@ == ids,
                *odoo == session.sync_odoo,
                borrowed_views(out@) == declared_in(*odoo, ids.take(i as int), key@),
            decreases files.len() - i,
        {
            let ghost before = borrowed_views(out@);
            assert(ids.take(i + 1).drop_last() =~= ids.take(i as int));
            let found = odoo.declarations(files[i], key);
            let mut j: usize = 0;
            assert(before + odoo.declared(files[i as int], key@).take(0) =~= before);
            while j < found.len()
                invariant
                    j <= found.len(),
                    data_views(found@) == odoo.declared(files@[i as int], key@),
                    borrowed_views(out@) == before + data_views(found@).take(j as int),
                decreases found.len() - j,
            {
                let ghost sofar = borrowed_views(out@);
                out.push(&found[j]);
                assert(borrowed_views(out@) =~= sofar.push(found@[j as int]@));
                assert(data_views(found@).take(j + 1) =~= data_views(found@).take(j as int).push(
                    found@[j as int]@,
                ));
                assert(before + data_views(found@).take(j + 1) =~= sofar.push(found@[j as int]@));
                j = j + 1;
            }
            assert(data_views(found@).take(j as int) =~= data_views(found@));
            i = i + 1;
        }
        assert(ids.take(i as int) =~= ids);
        out
    }

    /// The files that declare `key` for the module, in ascending order.
    fn files_of(&self, module: SymbolId, key: &str) -> (r: Vec<SymbolId>)
        requires
            self.wf(),
        ensures
            r@ == members(self.symbols@, self.locations(module, key@)),
    {
        if let Some(symbol) = self.get(module) {
            if let SymbolData::Module(package) = &symbol.data {
                if let Some(set) = package.xml_id_locations.get(key) {
                    return self.members_of(set);
                }
            }
        }
        proof {
            assert(self.symbols@.len() == self.symbols.len());
            members_are_exact(self.symbols@, Set::empty());
            let none = members(self.symbols@, Set::empty());
            assert(none.len() == 0) by {
                if none.len() > 0 {
                    assert(none.contains(none[0]));
                }
            }
            assert(none =~= Seq::empty());
        }
        Vec::new()
    }

    /// What the file declares under `key`.
    fn declarations(&self, file: SymbolId, key: &str) -> (r: &[OdooData])
        ensures
            data_views(r@) == self.declared(file, key@),
    {
        if let Some(symbol) = self.get(file) {
            if let SymbolData::XmlFile(xml) = &symbol.data {
                if let Some(list) = xml.xml_ids.get(key) {
                    return list.as_slice();
                }
            }
        }
        assert(data_views(Seq::empty()) =~= Seq::empty());
        &[]
    }
}

} // verus!
