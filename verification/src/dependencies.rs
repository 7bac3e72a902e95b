//! What a validated file depends on.
use vstd::prelude::*;

use crate::constants::{BuildSteps, ModelId, SymbolId};
use crate::handles::{held, Handle};
use crate::model::Model;
use crate::model_walk::name_set;
use crate::symbols::{Symbol, SymbolData, XmlFileSymbol};
use crate::text::texts;

verus! {

/// Whether `b` is `a` but for what its type carries.
pub open spec fn same_but_data(a: Symbol, b: Symbol) -> bool {
    &&& a.handle == b.handle
    &&& a.name == b.name
    &&& a.module == b.module
    &&& a.file == b.file
    &&& a.outer_function == b.outer_function
    &&& a.entry == b.entry
    &&& a.paths == b.paths
}

/// Whether `h` is the handle of one of the symbols at `ids`.
pub open spec fn handle_among(symbols: Seq<Option<Symbol>>, ids: Seq<SymbolId>, h: Handle) -> bool {
    exists|k: int| 0 <= k < ids.len() && symbols[#[trigger] ids[k] as int]->0.handle == h
}

/// Whether `h` is the handle of one of the models at `ids`.
pub open spec fn model_handle_among(models: Seq<Model>, ids: Seq<ModelId>, h: Handle) -> bool {
    exists|k: int| 0 <= k < ids.len() && models[#[trigger] ids[k] as int].handle == h
}

/// Whether `b` is the XML file `a` with dependencies on the files at `files` and the
/// models at `ids`, and with the models that it missed noted.
pub open spec fn file_depends(
    a: XmlFileSymbol,
    b: XmlFileSymbol,
    symbols: Seq<Option<Symbol>>,
    files: Seq<SymbolId>,
    models: Seq<Model>,
    ids: Seq<ModelId>,
    missing: Set<Seq<char>>,
) -> bool {
    &&& a.arch_status == b.arch_status
    &&& a.validation_status == b.validation_status
    &&& a.xml_ids == b.xml_ids
    &&& a.not_found_models.distinct() ==> b.not_found_models.distinct()
    &&& forall|h: Handle| #[trigger]
        held(b.dependencies).contains(h) <==> held(a.dependencies).contains(h) || handle_among(
            symbols,
            files,
            h,
        )
    &&& forall|h: Handle| #[trigger]
        held(b.model_dependencies).contains(h) <==> held(a.model_dependencies).contains(h)
            || model_handle_among(models, ids, h)
    &&& forall|name: Seq<char>| #[trigger]
        b.not_found_models.has(name) <==> a.not_found_models.has(name) || missing.contains(name)
    &&& forall|name: Seq<char>| #[trigger]
        b.not_found_models.has(name) ==> b.not_found_models.value(name) == if missing.contains(
            name,
        ) {
            BuildSteps::VALIDATION
        } else {
            a.not_found_models.value(name)
        }
}

/// Whether `b` is `a` after the XML file at `file` came to depend on the files at
/// `files` and the models at `ids`, and missed the models called `missing`.
pub open spec fn symbols_depend(
    a: Seq<Option<Symbol>>,
    b: Seq<Option<Symbol>>,
    file: SymbolId,
    files: Seq<SymbolId>,
    models: Seq<Model>,
    ids: Seq<ModelId>,
    missing: Set<Seq<char>>,
) -> bool {
    &&& a.len() == b.len()
    &&& forall|i: int|
        0 <= i < a.len() ==> {
            &&& (#[trigger] b[i]) is Some == a[i] is Some
            &&& a[i] is Some ==> same_but_data(a[i]->0, b[i]->0)
            &&& a[i] is Some ==> match (a[i]->0.data, b[i]->0.data) {
                (SymbolData::XmlFile(x), SymbolData::XmlFile(y)) if i == file => file_depends(
                    x,
                    y,
                    a,
                    files,
                    models,
                    ids,
                    missing,
                ),
                (SymbolData::File(x), SymbolData::File(y)) => {
                    &&& y.decl_ext_symbols == x.decl_ext_symbols
                    &&& held(y.dependents) == if files.contains(i as usize) {
                        held(x.dependents).insert(a[file as int]->0.handle)
                    } else {
                        held(x.dependents)
                    }
                },
                _ => a[i]->0.data == b[i]->0.data,
            }
        }
}

/// Whether `b` is `a` after the symbol with the handle `h` came to depend on the models
/// at `ids`.
pub open spec fn models_depend(a: Seq<Model>, b: Seq<Model>, ids: Seq<ModelId>, h: Handle) -> bool {
    &&& a.len() == b.len()
    &&& forall|i: int|
        0 <= i < a.len() ==> {
            &&& (#[trigger] b[i]).name == a[i].name
            &&& b[i].handle == a[i].handle
            &&& b[i].symbols == a[i].symbols
            &&& held(b[i].dependents) == if ids.contains(i as usize) {
                held(a[i].dependents).insert(h)
            } else {
                held(a[i].dependents)
            }
        }
}

/// Whether there is an XML file at `file`.
pub open spec fn xml_file_at(symbols: Seq<Option<Symbol>>, file: SymbolId) -> bool {
    file < symbols.len() && symbols[file as int] is Some && symbols[file as int]->0.data is XmlFile
}

/// Whether there is a Python file at `id`.
pub open spec fn python_file_at(symbols: Seq<Option<Symbol>>, id: SymbolId) -> bool {
    id < symbols.len() && symbols[id as int] is Some && symbols[id as int]->0.data is File
}

proof fn pushed_ids(ids: Seq<usize>, i: int)
    requires
        0 <= i < ids.len(),
    ensures
        forall|x: usize| #[trigger]
            ids.take(i + 1).contains(x) <==> ids.take(i).contains(x) || x == ids[i],
{
    let front = ids.take(i);
    let all = ids.take(i + 1);
    assert forall|x: usize| #[trigger] all.contains(x) <==> front.contains(x) || x == ids[i] by {
        if all.contains(x) {
            let j = choose|j: int| 0 <= j < all.len() && all[j] == x;
            if j < i {
                assert(front[j] == x);
            }
        }
        if front.contains(x) {
            let j = choose|j: int| 0 <= j < front.len() && front[j] == x;
            assert(all[j] == x);
        }
        assert(all[i] == ids[i]);
    }
}

/// Makes the XML file at `file` depend on the files at `files`: its validation on their
/// evaluation.
pub fn add_dependencies(symbols: &mut Vec<Option<Symbol>>, file: SymbolId, files: &Vec<SymbolId>)
    requires
        xml_file_at(old(symbols)@, file),
        forall|k: int| 0 <= k < files.len() ==> python_file_at(old(symbols)@, #[trigger] files@[k]),
    ensures
        symbols_depend(
            old(symbols)@,
            final(symbols)@,
            file,
            files@,
            Seq::empty(),
            Seq::empty(),
            Set::empty(),
        ),
{
    let ghost start = symbols@;
    let ghost all = files@;
    let own = match &symbols[file] {
        Some(symbol) => symbol.handle.share(),
        None => {
            return;
        },
    };
    let mut i: usize = 0;
    assert(all.take(0) =~= Seq::empty());
    while i < files.len()
        invariant
            i <= files.len(),
            all == files@,
            xml_file_at(start, file),
            own == start[file as int]->0.handle,
            forall|k: int| 0 <= k < all.len() ==> python_file_at(start, #[trigger] all[k]),
            symbols_depend(
                start,
                symbols@,
                file,
                all.take(i as int),
                Seq::empty(),
                Seq::empty(),
                Set::empty(),
            ),
        decreases files.len() - i,
    {
        let dep: SymbolId = files[i];
        let ghost now = symbols@;
        proof {
            assert(python_file_at(start, all[i as int]));
            assert(now[dep as int] is Some == start[dep as int] is Some);
            assert(now[file as int] is Some == start[file as int] is Some);
            pushed_ids(all, i as int);
        }
        let other = match &symbols[dep] {
            Some(symbol) => symbol.handle.share(),
            None => own.share(),
        };
        if let Some(symbol) = &mut symbols[file] {
            if let SymbolData::XmlFile(xml) = &mut symbol.data {
                xml.dependencies.insert(&other);
            }
        }
        let ghost middle = symbols@;
        if let Some(symbol) = &mut symbols[dep] {
            if let SymbolData::File(python) = &mut symbol.data {
                python.dependents.insert(&own);
            }
        }
        proof {
            let front = all.take(i as int);
            let next = all.take(i + 1);
            assert(symbols@.len() == symbols.len());
            assert forall|h: Handle| handle_among(start, next, h) <==> handle_among(start, front, h)
                || h == other by {
                if handle_among(start, next, h) {
                    let k = choose|k: int|
                        0 <= k < next.len() && start[#[trigger] next[k] as int]->0.handle == h;
                    if k < i {
                        assert(start[front[k] as int]->0.handle == h);
                    }
                }
                if handle_among(start, front, h) {
                    let k = choose|k: int|
                        0 <= k < front.len() && start[#[trigger] front[k] as int]->0.handle == h;
                    assert(start[next[k] as int]->0.handle == h);
                }
                assert(start[next[i as int] as int]->0.handle == other);
            }
            assert(symbols_depend(
                start,
                symbols@,
                file,
                next,
                Seq::empty(),
                Seq::empty(),
                Set::empty(),
            )) by {
                assert forall|j: int| 0 <= j < start.len() implies (#[trigger] symbols@[j]) is Some
                    == start[j] is Some by {
                    assert(now[j] is Some == start[j] is Some);
                }
                assert forall|j: int| 0 <= j < start.len() && start[j] is Some implies {
                    &&& same_but_data(start[j]->0, (#[trigger] symbols@[j])->0)
                    &&& match (start[j]->0.data, symbols@[j]->0.data) {
                        (SymbolData::XmlFile(x), SymbolData::XmlFile(y)) if j == file => file_depends(
                            x,
                            y,
                            start,
                            next,
                            Seq::empty(),
                            Seq::empty(),
                            Set::empty(),
                        ),
                        (SymbolData::File(x), SymbolData::File(y)) => {
                            &&& y.decl_ext_symbols == x.decl_ext_symbols
                            &&& held(y.dependents) == if next.contains(j as usize) {
                                held(x.dependents).insert(own)
                            } else {
                                held(x.dependents)
                            }
                        },
                        _ => start[j]->0.data == symbols@[j]->0.data,
                    }
                } by {
                    assert(now[j] is Some == start[j] is Some);
                    if start[j]->0.data is File {
                        assert(held(symbols@[j]->0.data->File_0.dependents) =~= if next.contains(
                            j as usize,
                        ) {
                            held(start[j]->0.data->File_0.dependents).insert(own)
                        } else {
                            held(start[j]->0.data->File_0.dependents)
                        });
                    }
                }
            }
        }
        i = i + 1;
    }
    assert(all.take(i as int) =~= all);
}

/// Makes the XML file at `file` depend on the models at `ids`.
pub fn add_model_dependencies(
    symbols: &mut Vec<Option<Symbol>>,
    models: &mut Vec<Model>,
    file: SymbolId,
    ids: &Vec<ModelId>,
)
    requires
        xml_file_at(old(symbols)@, file),
        forall|k: int| 0 <= k < ids.len() ==> #[trigger] ids@[k] < old(models).len(),
    ensures
        symbols_depend(
            old(symbols)@,
            final(symbols)@,
            file,
            Seq::empty(),
            old(models)@,
            ids@,
            Set::empty(),
        ),
        models_depend(old(models)@, final(models)@, ids@, old(symbols)@[file as int]->0.handle),
{
    let ghost start = symbols@;
    let ghost first = models@;
    let ghost all = ids@;
    let ghost own = start[file as int]->0.handle;
    let mut i: usize = 0;
    assert(all.take(0) =~= Seq::empty());
    while i < ids.len()
        invariant
            i <= ids.len(),
            all == ids@,
            xml_file_at(start, file),
            own == start[file as int]->0.handle,
            forall|k: int| 0 <= k < all.len() ==> #[trigger] all[k] < first.len(),
            symbols_depend(
                start,
                symbols@,
                file,
                Seq::empty(),
                first,
                all.take(i as int),
                Set::empty(),
            ),
            models_depend(first, models@, all.take(i as int), own),
        decreases ids.len() - i,
    {
        let id: ModelId = ids[i];
        let ghost now = symbols@;
        let ghost models_now = models@;
        proof {
            assert(all[i as int] < first.len());
            assert(now[file as int] is Some == start[file as int] is Some);
            assert(models_now[id as int].handle == first[id as int].handle);
            assert(symbols@.len() == symbols.len());
            assert(models@.len() == models.len());
            pushed_ids(all, i as int);
        }
        if let Some(symbol) = &symbols[file] {
            models[id].add_dependent(symbol);
        }
        let handle = models[id].handle.share();
        if let Some(symbol) = &mut symbols[file] {
            if let SymbolData::XmlFile(xml) = &mut symbol.data {
                xml.model_dependencies.insert(&handle);
            }
        }
        proof {
            let front = all.take(i as int);
            let next = all.take(i + 1);
            assert forall|h: Handle| model_handle_among(first, next, h) <==> model_handle_among(
                first,
                front,
                h,
            ) || h == handle by {
                if model_handle_among(first, next, h) {
                    let k = choose|k: int|
                        0 <= k < next.len() && first[#[trigger] next[k] as int].handle == h;
                    if k < i {
                        assert(first[front[k] as int].handle == h);
                    }
                }
                if model_handle_among(first, front, h) {
                    let k = choose|k: int|
                        0 <= k < front.len() && first[#[trigger] front[k] as int].handle == h;
                    assert(first[next[k] as int].handle == h);
                }
                assert(first[next[i as int] as int].handle == handle);
            }
            assert forall|j: int| 0 <= j < start.len() implies {
                &&& (#[trigger] symbols@[j]) is Some == start[j] is Some
                &&& j != file ==> symbols@[j] == now[j]
            } by {
                assert(now[j] is Some == start[j] is Some);
            }
            assert forall|j: int| 0 <= j < first.len() implies {
                &&& (#[trigger] models@[j]).name == first[j].name
                &&& models@[j].handle == first[j].handle
                &&& models@[j].symbols == first[j].symbols
                &&& held(models@[j].dependents) == if next.contains(j as usize) {
                    held(first[j].dependents).insert(own)
                } else {
                    held(first[j].dependents)
                }
            } by {
                assert(models_now[j].name == first[j].name);
                assert(held(models@[j].dependents) =~= if next.contains(j as usize) {
                    held(first[j].dependents).insert(own)
                } else {
                    held(first[j].dependents)
                });
            }
            assert(symbols_depend(start, symbols@, file, Seq::empty(), first, next, Set::empty()));
        }
        i = i + 1;
    }
    assert(all.take(i as int) =~= all);
}

/// Notes the models that the XML file at `file` missed when it was validated.
pub fn note_missing_models(symbols: &mut Vec<Option<Symbol>>, file: SymbolId, names: &Vec<String>)
    requires
        xml_file_at(old(symbols)@, file),
    ensures
        symbols_depend(
            old(symbols)@,
            final(symbols)@,
            file,
            Seq::empty(),
            Seq::empty(),
            Seq::empty(),
            name_set(names@),
        ),
{
    let ghost start = symbols@;
    let ghost all = texts(names@);
    let mut i: usize = 0;
    proof {
        assert(all.take(0) =~= Seq::empty());
        assert(all.take(0).to_set() =~= Set::empty());
    }
    while i < names.len()
        invariant
            i <= names.len(),
            all == texts(names@),
            xml_file_at(start, file),
            symbols_depend(
                start,
                symbols@,
                file,
                Seq::empty(),
                Seq::empty(),
                Seq::empty(),
                all.take(i as int).to_set(),
            ),
        decreases names.len() - i,
    {
        let name = names[i].as_str();
        let ghost now = symbols@;
        let ghost front = all.take(i as int);
        let ghost next = all.take(i + 1);
        proof {
            assert(now[file as int] is Some == start[file as int] is Some);
            assert forall|n: Seq<char>| next.contains(n) <==> front.contains(n) || n == name@ by {
                if next.contains(n) {
                    let j = choose|j: int| 0 <= j < next.len() && next[j] == n;
                    if j < i {
                        assert(front[j] == n);
                    }
                }
                if front.contains(n) {
                    let j = choose|j: int| 0 <= j < front.len() && front[j] == n;
                    assert(next[j] == n);
                }
                assert(next[i as int] == name@);
            }
        }
        if let Some(symbol) = &mut symbols[file] {
            if let SymbolData::XmlFile(xml) = &mut symbol.data {
                let step = xml.not_found_models.entry(name, BuildSteps::VALIDATION);
                *step = BuildSteps::VALIDATION;
            }
        }
        proof {
            assert forall|j: int| 0 <= j < start.len() implies {
                &&& (#[trigger] symbols@[j]) is Some == start[j] is Some
                &&& j != file ==> symbols@[j] == now[j]
            } by {
                assert(now[j] is Some == start[j] is Some);
            }
            assert(symbols_depend(
                start,
                symbols@,
                file,
                Seq::empty(),
                Seq::empty(),
                Seq::empty(),
                next.to_set(),
            ));
        }
        i = i + 1;
    }
    assert(all.take(i as int) =~= all);
}

/// Three steps that touch different parts make one.
pub proof fn steps_compose(
    a: Seq<Option<Symbol>>,
    b: Seq<Option<Symbol>>,
    c: Seq<Option<Symbol>>,
    d: Seq<Option<Symbol>>,
    file: SymbolId,
    files: Seq<SymbolId>,
    models: Seq<Model>,
    ids: Seq<ModelId>,
    missing: Set<Seq<char>>,
)
    requires
        xml_file_at(a, file),
        symbols_depend(a, b, file, files, Seq::empty(), Seq::empty(), Set::empty()),
        symbols_depend(b, c, file, Seq::empty(), models, ids, Set::empty()),
        symbols_depend(c, d, file, Seq::empty(), Seq::empty(), Seq::empty(), missing),
    ensures
        symbols_depend(a, d, file, files, models, ids, missing),
{
    assert forall|i: int| 0 <= i < a.len() implies {
        &&& (#[trigger] d[i]) is Some == a[i] is Some
        &&& a[i] is Some ==> same_but_data(a[i]->0, d[i]->0)
        &&& a[i] is Some ==> match (a[i]->0.data, d[i]->0.data) {
            (SymbolData::XmlFile(x), SymbolData::XmlFile(y)) if i == file => file_depends(
                x,
                y,
                a,
                files,
                models,
                ids,
                missing,
            ),
            (SymbolData::File(x), SymbolData::File(y)) => {
                &&& y.decl_ext_symbols == x.decl_ext_symbols
                &&& held(y.dependents) == if files.contains(i as usize) {
                    held(x.dependents).insert(a[file as int]->0.handle)
                } else {
                    held(x.dependents)
                }
            },
            _ => a[i]->0.data == d[i]->0.data,
        }
    } by {
        assert(b[i] is Some == a[i] is Some);
        assert(c[i] is Some == b[i] is Some);
        assert(b[file as int] is Some == a[file as int] is Some);
        if i == file {
            let x = a[i]->0.data->XmlFile_0;
            let y = b[i]->0.data->XmlFile_0;
            let z = c[i]->0.data->XmlFile_0;
            let w = d[i]->0.data->XmlFile_0;
            assert(file_depends(x, y, a, files, Seq::empty(), Seq::empty(), Set::empty()));
            assert(file_depends(y, z, b, Seq::empty(), models, ids, Set::empty()));
            assert(file_depends(z, w, c, Seq::empty(), Seq::empty(), Seq::empty(), missing));
            assert forall|name: Seq<char>| #[trigger]
                w.not_found_models.has(name) implies w.not_found_models.value(name)
                == if missing.contains(name) {
                BuildSteps::VALIDATION
            } else {
                x.not_found_models.value(name)
            } by {
                if !missing.contains(name) {
                    assert(z.not_found_models.has(name));
                    assert(y.not_found_models.has(name));
                }
            }
            assert forall|name: Seq<char>| #[trigger] w.not_found_models.has(name)
                <==> x.not_found_models.has(name) || missing.contains(name) by {
                assert(z.not_found_models.has(name) <==> y.not_found_models.has(name));
                assert(y.not_found_models.has(name) <==> x.not_found_models.has(name));
            }
            assert forall|h: Handle| #[trigger] held(w.dependencies).contains(h) <==> held(
                x.dependencies,
            ).contains(h) || handle_among(a, files, h) by {
                assert(held(z.dependencies).contains(h) <==> held(y.dependencies).contains(h));
                assert(held(y.dependencies).contains(h) <==> held(x.dependencies).contains(h)
                    || handle_among(a, files, h));
            }
            assert forall|h: Handle| #[trigger] held(w.model_dependencies).contains(h) <==> held(
                x.model_dependencies,
            ).contains(h) || model_handle_among(models, ids, h) by {
                assert(held(z.model_dependencies).contains(h) <==> held(
                    y.model_dependencies,
                ).contains(h) || model_handle_among(models, ids, h));
                assert(held(y.model_dependencies).contains(h) <==> held(
                    x.model_dependencies,
                ).contains(h));
            }
        }
    }
}

} // verus!
