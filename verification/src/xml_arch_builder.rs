//! First phase of the build of XML data files: structure and XML IDs.
//!
//! The rules for the single elements stand in `xml_arch_builder_rng_validation`.
use vstd::prelude::*;

use crate::constants::{BuildStatus, BuildSteps, EntryPointType, SymbolId};
use crate::diagnostics::{diagnostic_views, report, Diagnostic, DiagnosticCode};
use crate::file_info::FileInfo;
use crate::handles::{held, HandleSet};
use crate::odoo::{members, members_are_exact, SessionInfo, SyncOdoo};
use crate::symbols::{Symbol, SymbolData};
use crate::text::{same_text, split_on, split_seq, strip_leading, texts, without_leading};
use crate::xml_arch_builder_rng_validation::{is_root, root_loaded};
use crate::xml_data::{data_views, DataView, OdooData};
use crate::xml_ids::{borrowed_views, declared_in, is_group, lookup_module, looked_up, with_name, ArchEnv, ArchState};
use crate::xml_node::{XmlAttribute, XmlNode};

verus! {

/// Loads one XML data file.
pub struct XmlArchBuilder {
    /// Whether the file belongs to a main or addon entry point. Only then are its
    /// XML IDs registered.
    pub is_in_main_ep: bool,
    /// The file that is loaded.
    pub xml_symbol: SymbolId,
}

/// Whether `b` is `a` but for the XML IDs it declares or locates.
pub open spec fn same_but_xml_ids(a: Symbol, b: Symbol) -> bool {
    &&& a.handle == b.handle
    &&& a.name == b.name
    &&& a.module == b.module
    &&& a.file == b.file
    &&& a.outer_function == b.outer_function
    &&& a.entry == b.entry
    &&& a.paths == b.paths
    &&& match (a.data, b.data) {
        (SymbolData::Module(x), SymbolData::Module(y)) => {
            &&& x.dir_name == y.dir_name
            &&& x.all_depends == y.all_depends
            &&& x.xml_id_locations.distinct() ==> y.xml_id_locations.distinct()
        },
        (SymbolData::XmlFile(x), SymbolData::XmlFile(y)) => {
            &&& x.arch_status == y.arch_status
            &&& x.validation_status == y.validation_status
            &&& x.xml_ids.distinct() ==> y.xml_ids.distinct()
            &&& x.dependencies == y.dependencies
            &&& x.model_dependencies == y.model_dependencies
            &&& x.not_found_models == y.not_found_models
        },
        _ => a.data == b.data,
    }
}

/// Whether `b` is `a` but for the XML IDs that symbols declare or locate.
#[verifier::opaque]
pub open spec fn only_xml_ids_changed(a: SessionInfo, b: SessionInfo) -> bool {
    let x = a.sync_odoo;
    let y = b.sync_odoo;
    &&& a.disabled_codes == b.disabled_codes
    &&& a.messages == b.messages
    &&& a.requests == b.requests
    &&& x.full_version == y.full_version
    &&& x.modules == y.modules
    &&& x.models == y.models
    &&& x.main_entry == y.main_entry
    &&& x.rebuild_validation == y.rebuild_validation
    &&& x.files == y.files
    &&& x.symbols@.len() == y.symbols@.len()
    &&& forall|i: int|
        0 <= i < x.symbols@.len() ==> {
            &&& (#[trigger] x.symbols@[i]) is Some == y.symbols@[i] is Some
            &&& x.symbols@[i] is Some ==> same_but_xml_ids(x.symbols@[i]->0, y.symbols@[i]->0)
        }
}

/// Nothing changed is nothing but XML IDs changed.
pub proof fn unchanged(a: SessionInfo)
    ensures
        only_xml_ids_changed(a, a),
{
    reveal(only_xml_ids_changed);
}

/// Two changes of XML IDs make one.
pub proof fn changes_compose(a: SessionInfo, b: SessionInfo, c: SessionInfo)
    requires
        only_xml_ids_changed(a, b),
        only_xml_ids_changed(b, c),
    ensures
        only_xml_ids_changed(a, c),
{
    reveal(only_xml_ids_changed);
    let x = a.sync_odoo.symbols@;
    let y = b.sync_odoo.symbols@;
    let z = c.sync_odoo.symbols@;
    assert forall|i: int| 0 <= i < x.len() implies {
        &&& (#[trigger] x[i]) is Some == z[i] is Some
        &&& x[i] is Some ==> same_but_xml_ids(x[i]->0, z[i]->0)
    } by {
        assert(x[i] is Some == y[i] is Some);
        assert(y[i] is Some == z[i] is Some);
    }
}

impl XmlArchBuilder {
    /// Whether the file can be loaded in this session.
    pub open spec fn ready(self, session: SessionInfo) -> bool {
        session.sync_odoo.wf() && session.sync_odoo.is_xml_file(self.xml_symbol)
    }

    /// What loading goes by.
    pub open spec fn env(self, session: SessionInfo) -> ArchEnv {
        ArchEnv {
            disabled: session.disabled(),
            handles: session.sync_odoo.handle_map(),
            modules: session.sync_odoo.module_map(),
            file: self.xml_symbol,
            module: session.sync_odoo.sym(self.xml_symbol).module,
            registers: self.is_in_main_ep,
        }
    }

    /// What loading changes.
    pub open spec fn state(self, session: SessionInfo, diagnostics: Seq<Diagnostic>) -> ArchState {
        ArchState {
            index: session.sync_odoo.xml_index(),
            diagnostics: diagnostic_views(diagnostics),
        }
    }

    /// What loading goes by does not change with the XML IDs.
    pub proof fn still_ready(self, a: SessionInfo, b: SessionInfo)
        requires
            self.ready(a),
            only_xml_ids_changed(a, b),
        ensures
            self.ready(b),
            self.env(b) == self.env(a),
    {
        reveal(only_xml_ids_changed);
        reveal(SyncOdoo::handle_map);
        reveal(SyncOdoo::module_map);
        let x = a.sync_odoo;
        let y = b.sync_odoo;
        assert forall|id: SymbolId| {
            &&& #[trigger] x.live(id) == y.live(id)
            &&& x.live(id) ==> same_but_xml_ids(x.sym(id), y.sym(id))
            &&& x.is_module(id) == y.is_module(id)
            &&& x.is_xml_file(id) == y.is_xml_file(id)
        } by {
            if id < x.symbols@.len() {
                assert(x.symbols@[id as int] is Some == y.symbols@[id as int] is Some);
            }
        }
        assert forall|i: int| 0 <= i < y.modules.entries.len() implies y.is_module(
            (#[trigger] y.modules.entries@[i]).value,
        ) by {
            assert(x.is_module(x.modules.entries@[i].value));
            assert(x.live(x.modules.entries@[i].value));
        }
        assert forall|id: SymbolId| #[trigger]
            y.live(id) && y.sym(id).module is Some implies y.is_module(y.sym(id).module->0) by {
            assert(x.live(id));
            assert(x.live(x.sym(id).module->0));
        }
        assert forall|i: int| 0 <= i < y.symbols@.len() && (#[trigger] y.symbols@[i]) is Some
            implies y.symbols@[i]->0.handle.id() == i by {
            assert(x.symbols@[i] is Some);
        }
        assert forall|id: SymbolId| #[trigger] y.live(id) implies y.sym(id).data.keyed_once() by {
            assert(x.live(id));
        }
        assert(x.live(self.xml_symbol));
        assert(x.handle_map() =~= y.handle_map());
    }

    /// Looking an ID up and the abstract meaning of that ID agree.
    pub proof fn lookup_is_meaning(self, session: SessionInfo, xml_id: Seq<char>)
        requires
            self.ready(session),
        ensures
            forall|data: DataView| #[trigger]
                looked_up(session.sync_odoo, self.xml_symbol, xml_id).contains(data)
                    <==> self.env(session).stands_for(session.sync_odoo.xml_index(), xml_id, data),
    {
        reveal(SyncOdoo::handle_map);
        reveal(SyncOdoo::module_map);
        reveal(SyncOdoo::xml_index);
        let odoo = session.sync_odoo;
        let env = self.env(session);
        let parts = split_seq(xml_id, '.');
        let key = parts.last();
        assert(lookup_module(odoo, self.xml_symbol, parts) == env.target(parts));
        if env.target(parts) is Some {
            let module = env.target(parts)->0;
            let set = odoo.locations(module, key);
            let ids = members(odoo.symbols@, set);
            assert(odoo.symbols@.len() == odoo.symbols.len());
            members_are_exact(odoo.symbols@, set);
            let all = declared_in(odoo, ids, key);
            assert forall|data: DataView| #[trigger] all.contains(data) <==> env.stands_for(
                odoo.xml_index(),
                xml_id,
                data,
            ) by {
                declared_in_contains(odoo, ids, key, data);
                if all.contains(data) {
                    let (k, i) = choose|k: int, i: int|
                        0 <= k < ids.len() && 0 <= i < odoo.declared(ids[k], key).len()
                            && #[trigger] odoo.declared(ids[k], key)[i] == data;
                    assert(ids.contains(ids[k]));
                    assert(odoo.live(ids[k]));
                    assert(odoo.xml_index().data[(ids[k], key)][i] == data);
                }
                if env.stands_for(odoo.xml_index(), xml_id, data) {
                    let (file, i) = choose|file: SymbolId, i: int|
                        {
                            &&& env.handles.contains_key(file)
                            &&& odoo.xml_index().locations[(module, key)].contains(
                                env.handles[file],
                            )
                            &&& 0 <= i < odoo.xml_index().data[(file, key)].len()
                            &&& #[trigger] odoo.xml_index().data[(file, key)][i] == data
                        };
                    assert(ids.contains(file));
                    let k = choose|k: int| 0 <= k < ids.len() && ids[k] == file;
                    assert(odoo.declared(ids[k], key)[i] == data);
                }
            }
        }
    }
}

impl XmlArchBuilder {
    /// A builder for the given file.
    pub fn new(xml_symbol: SymbolId) -> (r: XmlArchBuilder)
        ensures
            r.xml_symbol == xml_symbol,
            !r.is_in_main_ep,
    {
        XmlArchBuilder { is_in_main_ep: false, xml_symbol }
    }

    /// Registers an XML ID with what it declares: in the module that it names if that
    /// is known, else in the file's module. Nothing is registered for a file outside
    /// the main and addon entry points, for a file without module, without an ID, or
    /// under an ID with more than one dot, which is reported.
    pub fn on_operation_creation(
        &self,
        session: &mut SessionInfo,
        id: Option<String>,
        node: &XmlNode,
        mut xml_data: OdooData,
        diagnostics: &mut Vec<Diagnostic>,
    )
        requires
            self.ready(*old(session)),
        ensures
            self.ready(*final(session)),
            self.env(*final(session)) == self.env(*old(session)),
            only_xml_ids_changed(*old(session), *final(session)),
            self.state(*final(session), final(diagnostics)@) == self.state(
                *old(session),
                old(diagnostics)@,
            ).register(
                self.env(*old(session)),
                crate::xml_data::optional_text(id),
                node.range,
                xml_data@,
            ),
    {
        let ghost before = *session;
        proof {
            unchanged(before);
        }
        if !self.is_in_main_ep {
            return;
        }
        let id: String = match id {
            Some(id) => id,
            None => {
                return;
            },
        };
        let own_module: Option<SymbolId> = match session.sync_odoo.get(self.xml_symbol) {
            Some(symbol) => symbol.module,
            None => None,
        };
        let module: SymbolId = match own_module {
            Some(module) => module,
            None => {
                return;
            },
        };
        let parts = split_on(id.as_str(), '.');
        let ghost views = split_seq(id@, '.');
        if parts.len() > 2 {
            let args: Vec<String> = vec![id];
            assert(texts(args@) =~= seq![id@]);
            report(session, diagnostics, DiagnosticCode::OLS05051, args, &node.range);
            return;
        }
        let key = parts[parts.len() - 1].as_str();
        assert(views.last() == key@);
        let mut xml_module: SymbolId = module;
        proof {
            reveal(SyncOdoo::module_map);
        }
        if parts.len() == 2 {
            assert(views[0] == parts@[0]@);
            if let Some(named) = session.sync_odoo.modules.get(parts[0].as_str()) {
                xml_module = *named;
                proof {
                    let i = choose|i: int| before.sync_odoo.modules.first(views[0], i);
                    assert(before.sync_odoo.modules.first(views[0], i));
                    assert(before.sync_odoo.is_module(
                        before.sync_odoo.modules.entries@[i].value,
                    ));
                }
            }
        }
        assert(xml_module == self.env(before).owner(views));
        assert(before.sync_odoo.is_module(xml_module));
        xml_data.set_file_symbol(self.xml_symbol);
        session.sync_odoo.add_location(xml_module, key, self.xml_symbol);
        let ghost middle = *session;
        proof {
            reveal(only_xml_ids_changed);
            assert(only_xml_ids_changed(before, middle));
            self.still_ready(before, middle);
        }
        session.sync_odoo.add_declaration(self.xml_symbol, key, xml_data);
        proof {
            assert(only_xml_ids_changed(middle, *session));
            changes_compose(before, middle, *session);
            self.still_ready(before, *session);
            reveal(SyncOdoo::xml_index);
            reveal(SyncOdoo::handle_map);
            let expected = self.state(before, diagnostics@).register(
                self.env(before),
                Some(id@),
                node.range,
                xml_data@,
            );
            assert(session.sync_odoo.xml_index().names =~= expected.index.names);
            assert(session.sync_odoo.xml_index().data =~= expected.index.data);
            assert(session.sync_odoo.xml_index().locations =~= expected.index.locations);
        }
    }
}

impl XmlArchBuilder {
    /// The records of `res.groups` among what the XML ID stands for, of which a leading
    /// `-` is no part; an ID with more than one dot is reported.
    pub fn get_group_ids<'a>(
        &self,
        session: &'a SessionInfo,
        xml_id: &str,
        attr: &XmlAttribute,
        diagnostics: &mut Vec<Diagnostic>,
    ) -> (r: Vec<&'a OdooData>)
        requires
            self.ready(*session),
        ensures
            borrowed_views(r@) == looked_up(
                session.sync_odoo,
                self.xml_symbol,
                strip_leading(xml_id@, '-'),
            ).filter(|d: DataView| is_group(d)),
            r.len() > 0 <==> self.env(*session).resolves_to_group(
                session.sync_odoo.xml_index(),
                strip_leading(xml_id@, '-'),
            ),
            self.state(*session, final(diagnostics)@) == self.state(
                *session,
                old(diagnostics)@,
            ).after_lookup(self.env(*session), strip_leading(xml_id@, '-'), attr.range),
    {
        let group = without_leading(xml_id, '-');
        let xml_id = group.as_str();
        let found = SyncOdoo::get_xml_ids(
            session,
            self.xml_symbol,
            xml_id,
            &attr.range,
            diagnostics,
        );
        let ghost views = looked_up(session.sync_odoo, self.xml_symbol, xml_id@);
        let ghost test = |d: DataView| is_group(d);
        let mut out: Vec<&'a OdooData> = Vec::new();
        let mut i: usize = 0;
        proof {
            reveal(Seq::filter);
            assert(views.take(0).filter(test) =~= Seq::empty());
        }
        assert(borrowed_views(out@) =~= Seq::empty());
        while i < found.len()
            invariant
                i <= found.len(),
                borrowed_views(found@) == views,
                test == (|d: DataView| is_group(d)),
                borrowed_views(out@) == views.take(i as int).filter(test),
            decreases found.len() - i,
        {
            let data: &'a OdooData = found[i];
            let ghost before = out@;
            proof {
                reveal(Seq::filter);
                assert(views.take(i + 1).drop_last() =~= views.take(i as int));
                assert(views.take(i + 1).last() == data@);
            }
            if let OdooData::RECORD(record) = data {
                if same_text(record.model.0.as_str(), "res.groups") {
                    out.push(data);
                    assert(borrowed_views(out@) =~= borrowed_views(before).push(data@));
                }
            }
            i = i + 1;
        }
        proof {
            assert(views.take(i as int) =~= views);
            self.lookup_is_meaning(*session, xml_id@);
            let env = self.env(*session);
            let index = session.sync_odoo.xml_index();
            if out.len() > 0 {
                let first = borrowed_views(out@)[0];
                assert(views.filter(test).contains(first));
                views.lemma_filter_contains_rev(test, first);
                views.lemma_filter_pred(test, 0);
                assert(env.stands_for(index, xml_id@, first) && is_group(first));
            }
            if env.resolves_to_group(index, xml_id@) {
                let data = choose|data: DataView| #[trigger]
                    env.stands_for(index, xml_id@, data) && is_group(data);
                assert(views.contains(data));
                let j = choose|j: int| 0 <= j < views.len() && views[j] == data;
                assert(test(views[j]));
                views.lemma_filter_contains(test, j);
            }
        }
        out
    }

    /// Whether the XML ID stands for anything; one with more than one dot is reported.
    pub(crate) fn is_known(
        &self,
        session: &SessionInfo,
        xml_id: &str,
        range: &std::ops::Range<usize>,
        diagnostics: &mut Vec<Diagnostic>,
    ) -> (r: bool)
        requires
            self.ready(*session),
        ensures
            r == self.env(*session).resolves(session.sync_odoo.xml_index(), xml_id@),
            self.state(*session, final(diagnostics)@) == self.state(
                *session,
                old(diagnostics)@,
            ).after_lookup(self.env(*session), xml_id@, *range),
    {
        let found = SyncOdoo::get_xml_ids(session, self.xml_symbol, xml_id, range, diagnostics);
        proof {
            self.lookup_is_meaning(*session, xml_id@);
            let views = looked_up(session.sync_odoo, self.xml_symbol, xml_id@);
            let env = self.env(*session);
            let index = session.sync_odoo.xml_index();
            if found.len() > 0 {
                assert(views.contains(views[0]));
                assert(env.stands_for(index, xml_id@, views[0]));
            }
            if env.resolves(index, xml_id@) {
                let data = choose|data: DataView| #[trigger] env.stands_for(index, xml_id@, data);
                assert(views.contains(data));
            }
        }
        found.len() > 0
    }
}

/// Whether `b` is `a` after the file at `file` was loaded, but for XML IDs: the first
/// step of its build is done and it waits for validation.
pub open spec fn only_loaded(a: SessionInfo, b: SessionInfo, file: SymbolId) -> bool {
    let x = a.sync_odoo;
    let y = b.sync_odoo;
    &&& a.disabled_codes == b.disabled_codes
    &&& a.messages == b.messages
    &&& a.requests == b.requests
    &&& x.full_version == y.full_version
    &&& x.modules == y.modules
    &&& x.models == y.models
    &&& x.main_entry == y.main_entry
    &&& x.files == y.files
    &&& held(y.rebuild_validation) == held(x.rebuild_validation).insert(x.sym(file).handle)
    &&& x.symbols@.len() == y.symbols@.len()
    &&& forall|i: int|
        0 <= i < x.symbols@.len() ==> {
            &&& (#[trigger] x.symbols@[i]) is Some == y.symbols@[i] is Some
            &&& x.symbols@[i] is Some ==> same_but_xml_ids(
                if i == file {
                    x.symbols@[i]->0.with_status(BuildSteps::ARCH, BuildStatus::DONE)
                } else {
                    x.symbols@[i]->0
                },
                y.symbols@[i]->0,
            )
        }
}

impl XmlArchBuilder {
    /// A change of the file's build status alone changes nothing that loading reads or
    /// writes.
    proof fn status_is_apart(self, a: SessionInfo, b: SessionInfo, status: BuildStatus)
        requires
            self.ready(a),
            b.sync_odoo.symbols@ == a.sync_odoo.symbols@.update(
                self.xml_symbol as int,
                Some(a.sync_odoo.sym(self.xml_symbol).with_status(BuildSteps::ARCH, status)),
            ),
            b.sync_odoo.modules == a.sync_odoo.modules,
            b.sync_odoo.files == a.sync_odoo.files,
            b.sync_odoo.models == a.sync_odoo.models,
            b.disabled_codes == a.disabled_codes,
        ensures
            self.ready(b),
            self.env(b) == self.env(a),
            b.sync_odoo.xml_index() == a.sync_odoo.xml_index(),
    {
        reveal(SyncOdoo::handle_map);
        reveal(SyncOdoo::module_map);
        reveal(SyncOdoo::xml_index);
        let x = a.sync_odoo;
        let y = b.sync_odoo;
        assert forall|id: SymbolId| {
            &&& #[trigger] x.live(id) == y.live(id)
            &&& x.live(id) ==> x.sym(id).module == y.sym(id).module && x.sym(id).handle == y.sym(
                id,
            ).handle
            &&& x.is_module(id) == y.is_module(id)
            &&& x.is_xml_file(id) == y.is_xml_file(id)
        } by {}
        assert forall|i: int| 0 <= i < y.modules.entries.len() implies y.is_module(
            (#[trigger] y.modules.entries@[i]).value,
        ) by {
            assert(x.live(x.modules.entries@[i].value));
        }
        assert forall|id: SymbolId| #[trigger]
            y.live(id) && y.sym(id).module is Some implies y.is_module(y.sym(id).module->0) by {
            assert(x.live(id));
            assert(x.live(x.sym(id).module->0));
        }
        assert forall|id: SymbolId| #[trigger] y.live(id) implies y.sym(id).data.keyed_once() by {
            assert(x.live(id));
        }
        assert(x.live(self.xml_symbol));
        assert(x.handle_map() =~= y.handle_map());
        assert forall|id: SymbolId, key: Seq<char>| {
            &&& #[trigger] x.declared(id, key) == y.declared(id, key)
            &&& x.locations(id, key) == y.locations(id, key)
            &&& x.declared_names(id) == y.declared_names(id)
        } by {
            assert(x.live(id) == y.live(id));
        }
        assert(x.xml_index().names =~= y.xml_index().names);
        assert(x.xml_index().data =~= y.xml_index().data);
        assert(x.xml_index().locations =~= y.xml_index().locations);
    }

    /// Loads the file from the root of its tree: applies the structural rules,
    /// registers the XML IDs, stores the diagnostics of the step and queues the file
    /// for validation.
    pub fn load_arch(&mut self, session: &mut SessionInfo, file_info: &mut FileInfo, node: &XmlNode)
        requires
            old(self).ready(*old(session)),
        ensures
            final(self).xml_symbol == old(self).xml_symbol,
            final(self).is_in_main_ep == match old(session).sync_odoo.sym(
                old(self).xml_symbol,
            ).entry {
                Some(typ) => typ.is_project(),
                None => old(self).is_in_main_ep,
            },
            final(self).ready(*final(session)),
            only_loaded(*old(session), *final(session), old(self).xml_symbol),
            ({
                let start = ArchState {
                    index: old(session).sync_odoo.xml_index(),
                    diagnostics: Seq::empty(),
                };
                let end = if is_root(*node) {
                    root_loaded(final(self).env(*old(session)), start, *node)
                } else {
                    start
                };
                &&& final(session).sync_odoo.xml_index() == end.index
                &&& final(file_info).diagnostics.at(BuildSteps::ARCH) == Some(end.diagnostics)
            }),
            final(file_info).uri == old(file_info).uri,
            forall|step: BuildSteps|
                step != BuildSteps::ARCH ==> final(file_info).diagnostics.at(step) == old(
                    file_info,
                ).diagnostics.at(step),
    {
        let ghost before = *session;
        let mut diagnostics: Vec<Diagnostic> = Vec::new();
        assert(diagnostic_views(diagnostics@) =~= Seq::empty());
        session.sync_odoo.set_build_status(
            self.xml_symbol,
            BuildSteps::ARCH,
            BuildStatus::IN_PROGRESS,
        );
        let ghost started = *session;
        proof {
            self.status_is_apart(before, started, BuildStatus::IN_PROGRESS);
        }
        if let Some(symbol) = session.sync_odoo.get(self.xml_symbol) {
            if let Some(typ) = symbol.entry {
                self.is_in_main_ep = typ == EntryPointType::MAIN || typ == EntryPointType::ADDON;
            }
        }
        self.load_odoo_openerp_data(session, node, &mut diagnostics);
        let ghost loaded = *session;
        session.sync_odoo.set_build_status(self.xml_symbol, BuildSteps::ARCH, BuildStatus::DONE);
        let ghost done = *session;
        proof {
            self.status_is_apart(loaded, done, BuildStatus::DONE);
        }
        file_info.replace_diagnostics(BuildSteps::ARCH, diagnostics);
        session.sync_odoo.add_to_validations(self.xml_symbol);
        proof {
            reveal(SyncOdoo::xml_index);
            reveal(only_xml_ids_changed);
            let x = before.sync_odoo.symbols@;
            let y = session.sync_odoo.symbols@;
            let s = started.sync_odoo.symbols@;
            let l = loaded.sync_odoo.symbols@;
            assert forall|id: SymbolId| #[trigger]
                session.sync_odoo.live(id) && session.sync_odoo.sym(id).module is Some implies
                session.sync_odoo.is_module(session.sync_odoo.sym(id).module->0) by {
                assert(done.sync_odoo.live(id));
                assert(done.sync_odoo.is_module(done.sync_odoo.sym(id).module->0));
            }
            assert forall|i: int| 0 <= i < session.sync_odoo.modules.entries.len() implies
                session.sync_odoo.is_module(
                (#[trigger] session.sync_odoo.modules.entries@[i]).value,
            ) by {
                assert(done.sync_odoo.is_module(done.sync_odoo.modules.entries@[i].value));
            }
            assert forall|id: SymbolId| #[trigger] session.sync_odoo.live(id) implies
                session.sync_odoo.sym(id).data.keyed_once() by {
                assert(done.sync_odoo.live(id));
            }
            assert(session.sync_odoo.xml_index().names =~= done.sync_odoo.xml_index().names);
            assert(session.sync_odoo.xml_index().data =~= done.sync_odoo.xml_index().data);
            assert(session.sync_odoo.xml_index().locations
                =~= done.sync_odoo.xml_index().locations);
            assert forall|i: int| 0 <= i < x.len() implies {
                &&& (#[trigger] x[i]) is Some == y[i] is Some
                &&& x[i] is Some ==> same_but_xml_ids(
                    if i == self.xml_symbol {
                        x[i]->0.with_status(BuildSteps::ARCH, BuildStatus::DONE)
                    } else {
                        x[i]->0
                    },
                    y[i]->0,
                )
            } by {
                assert(s[i] is Some == l[i] is Some);
            }
        }
    }
}

impl SyncOdoo {
    /// Notes that the file at `file` declares `key` for the module at `module`.
    fn add_location(&mut self, module: SymbolId, key: &str, file: SymbolId)
        requires
            old(self).is_module(module),
            old(self).live(file),
        ensures
            final(self).symbols@ == old(self).symbols@.update(
                module as int,
                final(self).symbols@[module as int],
            ),
            final(self).symbols@[module as int] is Some,
            same_but_xml_ids(old(self).sym(module), final(self).sym(module)),
            final(self).full_version == old(self).full_version,
            final(self).modules == old(self).modules,
            final(self).models == old(self).models,
            final(self).main_entry == old(self).main_entry,
            final(self).rebuild_validation == old(self).rebuild_validation,
            final(self).files == old(self).files,
            forall|other: SymbolId, name: Seq<char>| #[trigger]
                final(self).locations(other, name) == if other == module && name == key@ {
                    old(self).locations(module, key@).insert(old(self).sym(file).handle)
                } else {
                    old(self).locations(other, name)
                },
            forall|other: SymbolId, name: Seq<char>| #[trigger]
                final(self).declared(other, name) == old(self).declared(other, name),
            forall|other: SymbolId| #[trigger]
                final(self).declared_names(other) == old(self).declared_names(other),
    {
        let handle = match self.get(file) {
            Some(symbol) => symbol.handle.share(),
            None => {
                return;
            },
        };
        if let Some(symbol) = &mut self.symbols[module] {
            if let SymbolData::Module(package) = &mut symbol.data {
                let set = package.xml_id_locations.entry(key, HandleSet::new());
                set.insert(&handle);
            }
        }
    }

    /// Notes that the file at `file` declares `data` under `key`.
    fn add_declaration(&mut self, file: SymbolId, key: &str, data: OdooData)
        requires
            old(self).is_xml_file(file),
        ensures
            final(self).symbols@ == old(self).symbols@.update(
                file as int,
                final(self).symbols@[file as int],
            ),
            final(self).symbols@[file as int] is Some,
            same_but_xml_ids(old(self).sym(file), final(self).sym(file)),
            final(self).full_version == old(self).full_version,
            final(self).modules == old(self).modules,
            final(self).models == old(self).models,
            final(self).main_entry == old(self).main_entry,
            final(self).rebuild_validation == old(self).rebuild_validation,
            final(self).files == old(self).files,
            forall|other: SymbolId, name: Seq<char>| #[trigger]
                final(self).declared(other, name) == if other == file && name == key@ {
                    old(self).declared(file, key@).push(data@)
                } else {
                    old(self).declared(other, name)
                },
            forall|other: SymbolId| #[trigger]
                final(self).declared_names(other) == if other == file {
                    with_name(old(self).declared_names(file), key@)
                } else {
                    old(self).declared_names(other)
                },
            forall|other: SymbolId, name: Seq<char>| #[trigger]
                final(self).locations(other, name) == old(self).locations(other, name),
    {
        if let Some(symbol) = &mut self.symbols[file] {
            if let SymbolData::XmlFile(xml) = &mut symbol.data {
                proof {
                    xml.xml_ids.named_has(key@);
                }
                let list = xml.xml_ids.entry(key, Vec::new());
                let ghost before = list@;
                list.push(data);
                assert(data_views(list@) =~= data_views(before).push(data@));
            }
        }
    }
}

/// What several files declare is what one of them does.
proof fn declared_in_contains(odoo: SyncOdoo, ids: Seq<SymbolId>, key: Seq<char>, data: DataView)
    ensures
        declared_in(odoo, ids, key).contains(data) <==> exists|k: int, i: int|
            0 <= k < ids.len() && 0 <= i < odoo.declared(ids[k], key).len()
                && #[trigger] odoo.declared(ids[k], key)[i] == data,
    decreases ids.len(),
{
    if ids.len() > 0 {
        let front = ids.drop_last();
        declared_in_contains(odoo, front, key, data);
        let head = declared_in(odoo, front, key);
        let tail = odoo.declared(ids.last(), key);
        let all = declared_in(odoo, ids, key);
        if all.contains(data) {
            let j = choose|j: int| 0 <= j < all.len() && all[j] == data;
            if j < head.len() {
                assert(head.contains(data));
                let (k, i) = choose|k: int, i: int|
                    0 <= k < front.len() && 0 <= i < odoo.declared(front[k], key).len()
                        && #[trigger] odoo.declared(front[k], key)[i] == data;
                assert(odoo.declared(ids[k], key)[i] == data);
            } else {
                assert(odoo.declared(ids[ids.len() - 1], key)[j - head.len()] == data);
            }
        }
        if exists|k: int, i: int|
            0 <= k < ids.len() && 0 <= i < odoo.declared(ids[k], key).len()
                && #[trigger] odoo.declared(ids[k], key)[i] == data {
            let (k, i) = choose|k: int, i: int|
                0 <= k < ids.len() && 0 <= i < odoo.declared(ids[k], key).len()
                    && #[trigger] odoo.declared(ids[k], key)[i] == data;
            if k < front.len() {
                assert(odoo.declared(front[k], key)[i] == data);
                assert(head.contains(data));
                let j = choose|j: int| 0 <= j < head.len() && head[j] == data;
                assert(all[j] == data);
            } else {
                assert(all[head.len() + i] == data);
            }
        }
    }
}

} // verus!
