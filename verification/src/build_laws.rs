//! What a build step leaves behind.
use vstd::prelude::*;

use crate::change_laws::waits;
use crate::constants::{BuildStatus, BuildSteps, EntryPointType, ModelId, SymType, SymbolId};
use crate::diagnostics::DiagnosticView;
use crate::finding_laws::{data_gives, data_misses, data_needs, data_uses, findings_are_exact, is_declared, Probe};
use crate::handles::{held, Handle};
use crate::loading_laws::is_tagged;
use crate::odoo::{Request, SessionInfo, Version};
use crate::symbols::{Symbol, SymbolData};
use crate::xml_arch_builder::only_loaded;
use crate::xml_arch_builder_rng_validation::is_root;
use crate::xml_data::DataView;
use crate::xml_node::XmlNode;
use crate::xml_validation::{file_checked, validated};

verus! {

/// The files that take part in the project are those of the main entry point and of addons.
pub proof fn project_is_main_and_addons(typ: EntryPointType)
    ensures
        typ.is_project() == match typ {
            EntryPointType::MAIN => true,
            EntryPointType::ADDON => true,
            EntryPointType::BUILTIN => false,
            EntryPointType::PUBLIC => false,
            EntryPointType::CUSTOM => false,
        },
{
}

/// A data file starts with `<odoo>`, `<openerp>` or `<data>`.
pub proof fn roots_are_named(node: XmlNode)
    ensures
        is_root(node) <==> is_tagged(node, "odoo"@) || is_tagged(node, "openerp"@) || is_tagged(
            node,
            "data"@,
        ),
{
    reveal_strlit("odoo");
    reveal_strlit("openerp");
    reveal_strlit("data");
    assert("odoo"@.len() == 4 && "openerp"@.len() == 7 && "data"@.len() == 4);
}

/// The status of a build step as a symbol keeps it; nothing if symbols of its type do not.
pub open spec fn status_of(symbol: Symbol, step: BuildSteps) -> Option<BuildStatus> {
    match (symbol.data, step) {
        (SymbolData::XmlFile(f), BuildSteps::ARCH) => Some(f.arch_status),
        (SymbolData::XmlFile(f), BuildSteps::VALIDATION) => Some(f.validation_status),
        (SymbolData::Function(f), BuildSteps::ARCH) => Some(f.arch_status),
        (SymbolData::Function(f), BuildSteps::ARCH_EVAL) => Some(f.arch_eval_status),
        (SymbolData::Function(f), BuildSteps::VALIDATION) => Some(f.validation_status),
        _ => None,
    }
}

/// A status that is set is the one that is kept, and the other steps keep theirs. Nothing else of
/// the symbol changes.
pub proof fn set_status_is_kept(symbol: Symbol, step: BuildSteps, status: BuildStatus)
    ensures
        ({
            let after = symbol.with_status(step, status);
            &&& forall|other: BuildSteps| #[trigger]
                status_of(after, other) == if other == step && status_of(symbol, other) is Some {
                    Some(status)
                } else {
                    status_of(symbol, other)
                }
            &&& after.typ() == symbol.typ()
            &&& after.handle == symbol.handle
            &&& after.name == symbol.name
            &&& after.module == symbol.module
            &&& after.file == symbol.file
            &&& after.outer_function == symbol.outer_function
            &&& after.entry == symbol.entry
            &&& after.paths == symbol.paths
            &&& status_of(symbol, step) is None ==> after == symbol
            &&& status_of(symbol, step) == Some(status) ==> after == symbol
        }),
{
    let after = symbol.with_status(step, status);
    assert forall|other: BuildSteps| #[trigger] status_of(after, other) == if other == step
        && status_of(symbol, other) is Some {
        Some(status)
    } else {
        status_of(symbol, other)
    } by {
        match other {
            BuildSteps::SYNTAX => {},
            BuildSteps::ARCH => {},
            BuildSteps::ARCH_EVAL => {},
            BuildSteps::VALIDATION => {},
        }
    }
}

/// The type of a symbol is told by what it carries.
pub proof fn type_is_told(symbol: Symbol)
    ensures
        symbol.data is Module ==> symbol.typ() == SymType::PACKAGE,
        symbol.data is XmlFile ==> symbol.typ() == SymType::XML_FILE,
        symbol.data is File ==> symbol.typ() == SymType::FILE,
        symbol.data is Class ==> symbol.typ() == SymType::CLASS,
        symbol.data is Function ==> symbol.typ() == SymType::FUNCTION,
        symbol.data is Variable ==> symbol.typ() == SymType::VARIABLE,
        symbol.data matches SymbolData::Other(typ) ==> symbol.typ() == typ,
{
}

/// A file that was loaded waits for validation, with its first step done; what waited before
/// still waits, and nothing else is made to wait.
pub proof fn loaded_file_waits(a: SessionInfo, b: SessionInfo, file: SymbolId)
    requires
        only_loaded(a, b, file),
        a.sync_odoo.is_xml_file(file),
    ensures
        ({
            let x = a.sync_odoo.symbols@[file as int]->0;
            let y = b.sync_odoo.symbols@[file as int]->0;
            &&& b.sync_odoo.is_xml_file(file)
            &&& status_of(y, BuildSteps::ARCH) == Some(BuildStatus::DONE)
            &&& status_of(y, BuildSteps::VALIDATION) == status_of(x, BuildSteps::VALIDATION)
            &&& y.handle == x.handle && y.name == x.name && y.module == x.module && y.file == x.file
            &&& y.paths == x.paths && y.entry == x.entry
        }),
        forall|h: Handle| #[trigger]
            waits(b.sync_odoo, h) <==> waits(a.sync_odoo, h) || h
                == a.sync_odoo.symbols@[file as int]->0.handle,
        forall|id: SymbolId|
            id < a.sync_odoo.symbols.len() && id != file && (
            #[trigger] a.sync_odoo.symbols@[id as int]) is Some && !(
            a.sync_odoo.symbols@[id as int]->0.data is Module) && !(
            a.sync_odoo.symbols@[id as int]->0.data is XmlFile) ==> b.sync_odoo.symbols@[id as int]
                is Some && b.sync_odoo.symbols@[id as int]->0.data
                == a.sync_odoo.symbols@[id as int]->0.data,
        b.requests == a.requests && b.messages == a.messages,
        b.sync_odoo.models == a.sync_odoo.models,
        b.sync_odoo.files == a.sync_odoo.files,
{
    assert(a.sync_odoo.symbols@[file as int] is Some);
    assert(a.sync_odoo.symbols@.len() == a.sync_odoo.symbols.len());
    assert(b.sync_odoo.symbols@.len() == b.sync_odoo.symbols.len());
}

/// Whether one of the declarations of the file gives rise to the diagnostic.
pub open spec fn file_gives(session: SessionInfo, file: SymbolId, d: DiagnosticView) -> bool {
    let odoo = session.sync_odoo;
    exists|data: DataView| #[trigger]
        is_declared(odoo, file, data) && data_gives(
            odoo,
            file,
            odoo.symbols@[file as int]->0.module->0,
            data,
            d,
        )
}

/// Whether one of the declarations of the file leaves the model missing.
pub open spec fn file_misses(session: SessionInfo, file: SymbolId, name: Seq<char>) -> bool {
    let odoo = session.sync_odoo;
    exists|data: DataView| #[trigger]
        is_declared(odoo, file, data) && data_misses(
            odoo,
            odoo.symbols@[file as int]->0.module->0,
            data,
            name,
        )
}

/// Whether one of the declarations of the file makes it depend on the model.
pub open spec fn file_uses(session: SessionInfo, file: SymbolId, model: ModelId) -> bool {
    let odoo = session.sync_odoo;
    exists|data: DataView| #[trigger]
        is_declared(odoo, file, data) && data_uses(
            odoo,
            odoo.symbols@[file as int]->0.module->0,
            data,
            model,
        )
}

/// Whether one of the declarations of the file makes it depend on another file.
pub open spec fn file_needs(session: SessionInfo, file: SymbolId, other: SymbolId) -> bool {
    let odoo = session.sync_odoo;
    exists|data: DataView| #[trigger]
        is_declared(odoo, file, data) && data_needs(
            odoo,
            odoo.symbols@[file as int]->0.module->0,
            data,
            other,
        )
}

/// After validation the file and what its records use know each other: every model that it uses
/// has the file among its dependents, every file that it needs too, and the file depends on them;
/// no other model or file changes. The file waits for the models that it misses, and its
/// diagnostics are stored and to be sent.
pub proof fn validation_ties(a: SessionInfo, b: SessionInfo, file: SymbolId)
    requires
        a.sync_odoo.wf(),
        a.sync_odoo.is_xml_file(file),
        validated(a, b, file, file_checked(a, file)),
    ensures
        ({
            let x = a.sync_odoo;
            let y = b.sync_odoo;
            let own = x.symbols@[file as int]->0;
            let path = own.paths@[0];
            let before = own.data->XmlFile_0;
            let after = y.symbols@[file as int]->0.data->XmlFile_0;
            &&& y.is_xml_file(file)
            &&& y.models@.len() == x.models@.len()
            &&& forall|model: ModelId, h: Handle|
                model < x.models.len() ==> (#[trigger] held(
                    y.models@[model as int].dependents,
                ).contains(h) <==> held(x.models@[model as int].dependents).contains(h) || h
                    == own.handle && file_uses(a, file, model))
            &&& forall|model: ModelId|
                model < x.models.len() ==> (#[trigger] y.models@[model as int]).name
                    == x.models@[model as int].name && y.models@[model as int].symbols
                    == x.models@[model as int].symbols
            &&& forall|other: SymbolId, h: Handle|
                other < x.symbols.len() && x.symbols@[other as int] is Some
                    && x.symbols@[other as int]->0.data is File ==> (#[trigger] held(
                    y.symbols@[other as int]->0.data->File_0.dependents,
                ).contains(h) <==> held(
                    x.symbols@[other as int]->0.data->File_0.dependents,
                ).contains(h) || h == own.handle && file_needs(a, file, other))
            &&& forall|h: Handle| #[trigger]
                held(after.model_dependencies).contains(h) <==> held(
                    before.model_dependencies,
                ).contains(h) || exists|model: ModelId| #[trigger]
                    file_uses(a, file, model) && x.models@[model as int].handle == h
            &&& forall|h: Handle| #[trigger]
                held(after.dependencies).contains(h) <==> held(before.dependencies).contains(h)
                    || exists|other: SymbolId| #[trigger]
                    file_needs(a, file, other) && x.symbols@[other as int]->0.handle == h
            &&& forall|name: Seq<char>| #[trigger]
                after.not_found_models.has(name) <==> before.not_found_models.has(name)
                    || file_misses(a, file, name)
            &&& forall|name: Seq<char>| #[trigger]
                file_misses(a, file, name) ==> after.not_found_models.value(name)
                    == BuildSteps::VALIDATION
            &&& after.xml_ids == before.xml_ids
            &&& after.arch_status == before.arch_status
            &&& after.validation_status == before.validation_status
            &&& forall|h: Handle| #[trigger]
                held(y.main_entry.not_found_symbols_for_models).contains(h) <==> held(
                    x.main_entry.not_found_symbols_for_models,
                ).contains(h) || h == own.handle && exists|name: Seq<char>| #[trigger]
                    file_misses(a, file, name)
            &&& y.files.has(path@)
            &&& y.files.value(path@).diagnostics.at(BuildSteps::VALIDATION) is Some
            &&& forall|d: DiagnosticView| #[trigger]
                (y.files.value(path@).diagnostics.at(BuildSteps::VALIDATION)->0).contains(d)
                    <==> !a.disabled_codes@.contains(d.code) && file_gives(a, file, d)
            &&& b.requests@ == a.requests@.push(Request::PublishDiagnostics(path))
        }),
{
    let x = a.sync_odoo;
    let y = b.sync_odoo;
    let found = file_checked(a, file);
    let own = x.symbols@[file as int]->0;
    assert(x.symbols@.len() == x.symbols.len());
    assert(y.symbols@.len() == y.symbols.len());
    assert(x.models@.len() == x.models.len());
    assert(y.symbols@[file as int] is Some);
    assert forall|d: DiagnosticView| #[trigger] found.diagnostics.contains(d)
        <==> !a.disabled_codes@.contains(d.code) && file_gives(a, file, d) by {
        findings_are_exact(a, file, Probe { d, name: arbitrary(), model: 0, other: 0 });
    }
    assert forall|name: Seq<char>| #[trigger] found.missing_models.contains(name) <==> file_misses(
        a,
        file,
        name,
    ) by {
        findings_are_exact(a, file, Probe { d: arbitrary(), name, model: 0, other: 0 });
    }
    assert forall|model: ModelId| #[trigger] found.model_dependencies.contains(model) <==> file_uses(
        a,
        file,
        model,
    ) by {
        findings_are_exact(
            a,
            file,
            Probe { d: arbitrary(), name: arbitrary(), model, other: 0 },
        );
    }
    assert forall|other: SymbolId| #[trigger] found.dependencies.contains(other) <==> file_needs(
        a,
        file,
        other,
    ) by {
        findings_are_exact(
            a,
            file,
            Probe { d: arbitrary(), name: arbitrary(), model: 0, other },
        );
    }
    let before = own.data->XmlFile_0;
    let after = y.symbols@[file as int]->0.data->XmlFile_0;
    assert forall|h: Handle| #[trigger] held(after.model_dependencies).contains(h) <==> held(
        before.model_dependencies,
    ).contains(h) || exists|model: ModelId| #[trigger]
        file_uses(a, file, model) && x.models@[model as int].handle == h by {
        let ids = found.model_dependencies;
        if exists|k: int| 0 <= k < ids.len() && x.models@[#[trigger] ids[k] as int].handle == h {
            let k = choose|k: int|
                0 <= k < ids.len() && x.models@[#[trigger] ids[k] as int].handle == h;
            assert(ids.contains(ids[k]));
            assert(file_uses(a, file, ids[k]));
        }
        if exists|model: ModelId| #[trigger]
            file_uses(a, file, model) && x.models@[model as int].handle == h {
            let model = choose|model: ModelId| #[trigger]
                file_uses(a, file, model) && x.models@[model as int].handle == h;
            assert(ids.contains(model));
            let k = choose|k: int| 0 <= k < ids.len() && ids[k] == model;
            assert(x.models@[ids[k] as int].handle == h);
        }
    }
    assert forall|h: Handle| #[trigger] held(after.dependencies).contains(h) <==> held(
        before.dependencies,
    ).contains(h) || exists|other: SymbolId| #[trigger]
        file_needs(a, file, other) && x.symbols@[other as int]->0.handle == h by {
        let ids = found.dependencies;
        if exists|k: int| 0 <= k < ids.len() && x.symbols@[#[trigger] ids[k] as int]->0.handle == h {
            let k = choose|k: int|
                0 <= k < ids.len() && x.symbols@[#[trigger] ids[k] as int]->0.handle == h;
            assert(ids.contains(ids[k]));
            assert(file_needs(a, file, ids[k]));
        }
        if exists|other: SymbolId| #[trigger]
            file_needs(a, file, other) && x.symbols@[other as int]->0.handle == h {
            let other = choose|other: SymbolId| #[trigger]
                file_needs(a, file, other) && x.symbols@[other as int]->0.handle == h;
            assert(ids.contains(other));
            let k = choose|k: int| 0 <= k < ids.len() && ids[k] == other;
            assert(x.symbols@[ids[k] as int]->0.handle == h);
        }
    }
    assert forall|name: Seq<char>| #[trigger] file_misses(
        a,
        file,
        name,
    ) implies after.not_found_models.value(name) == BuildSteps::VALIDATION by {
        assert(found.missing_models.contains(name));
        assert(after.not_found_models.has(name));
    }
    assert(found.missing_models == Set::<Seq<char>>::empty() <==> !exists|name: Seq<char>|
     #[trigger]
        file_misses(a, file, name)) by {
        if exists|name: Seq<char>| #[trigger] file_misses(a, file, name) {
            let name = choose|name: Seq<char>| #[trigger] file_misses(a, file, name);
            assert(found.missing_models.contains(name));
        } else {
            assert(found.missing_models =~= Set::<Seq<char>>::empty());
        }
    }
    assert forall|other: SymbolId, h: Handle|
        other < x.symbols.len() && x.symbols@[other as int] is Some
            && x.symbols@[other as int]->0.data is File implies (#[trigger] held(
        y.symbols@[other as int]->0.data->File_0.dependents,
    ).contains(h) <==> held(x.symbols@[other as int]->0.data->File_0.dependents).contains(h) || h
        == own.handle && file_needs(a, file, other)) by {
        assert(y.symbols@[other as int] is Some);
        assert(found.dependencies.contains(other) <==> file_needs(a, file, other));
    }
    assert forall|model: ModelId, h: Handle|
        model < x.models.len() implies (#[trigger] held(
        y.models@[model as int].dependents,
    ).contains(h) <==> held(x.models@[model as int].dependents).contains(h) || h == own.handle
        && file_uses(a, file, model)) by {
        assert(found.model_dependencies.contains(model) <==> file_uses(a, file, model));
        assert(y.models@[model as int].name == x.models@[model as int].name);
    }
}

/// Versions are ordered: every one is at least itself, of two one is at least the other, both are
/// only if they are the same, and a third that is at least the second is at least the first. The
/// major number goes before the minor one, and that before the patch.
pub proof fn versions_are_ordered(a: Version, b: Version, c: Version)
    ensures
        a.at_least(a),
        a.at_least(b) || b.at_least(a),
        a.at_least(b) && b.at_least(a) ==> a.major == b.major && a.minor == b.minor && a.patch
            == b.patch,
        a.at_least(b) && b.at_least(c) ==> a.at_least(c),
        a.major > b.major ==> !b.at_least(a),
        a.major == b.major && a.minor > b.minor ==> !b.at_least(a),
        a.major == b.major && a.minor == b.minor && a.patch > b.patch ==> !b.at_least(a),
{
}

} // verus!
