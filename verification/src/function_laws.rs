//! Which parameters arguments fill, and where functions keep symbols.
use vstd::prelude::*;

use crate::constants::SymbolId;
use crate::evaluation::{evaluation_views, Evaluation, EvaluationView};
use crate::function_symbol::{declared_by, declared_on, declared_under, flat_views, section_symbols, ArgumentType, FunctionSymbol, SectionSymbols};
use crate::handles::{stored, ExtDeclaration, Handle, HandleMap};
use crate::odoo::SyncOdoo;
use crate::symbols::{Symbol, SymbolData};

verus! {

/// A function is overloaded if it says so itself, or if it stands in something that is there and
/// one of the definitions before it is a function that says so.
pub proof fn overloading_is_said(function: FunctionSymbol, odoo: SyncOdoo, previous: Seq<SymbolId>)
    ensures
        function.is_overloaded ==> function.overloaded(odoo, previous),
        !function.is_overloaded ==> (function.overloaded(odoo, previous) <==> {
            &&& function.parent matches Some(parent) && parent < odoo.symbols.len()
                && odoo.symbols@[parent as int] is Some
            &&& exists|i: int|
                0 <= i < previous.len() && (#[trigger] previous[i]) < odoo.symbols.len() && (
                odoo.symbols@[previous[i] as int] matches Some(symbol) && (
                symbol.data matches SymbolData::Function(f) && f.is_overloaded))
        }),
{
    if !function.is_overloaded && function.overloaded(odoo, previous) {
        let i = choose|i: int|
            0 <= i < previous.len() && FunctionSymbol::is_overload(odoo, #[trigger] previous[i]);
        assert(previous[i] < odoo.symbols.len());
    }
    if exists|i: int|
        0 <= i < previous.len() && (#[trigger] previous[i]) < odoo.symbols.len() && (
        odoo.symbols@[previous[i] as int] matches Some(symbol) && (
        symbol.data matches SymbolData::Function(f) && f.is_overloaded)) {
        let i = choose|i: int|
            0 <= i < previous.len() && (#[trigger] previous[i]) < odoo.symbols.len() && (
            odoo.symbols@[previous[i] as int] matches Some(symbol) && (
            symbol.data matches SymbolData::Function(f) && f.is_overloaded));
        assert(FunctionSymbol::is_overload(odoo, previous[i]));
    }
}

/// Whether the parameter at `j` takes any number of positional arguments.
pub open spec fn takes_any(function: FunctionSymbol, j: int) -> bool {
    0 <= j < function.args@.len() && function.args@[j].arg_type == ArgumentType::VARARG
}

/// A positional argument goes to the first parameter that takes any number of them, if that one
/// stands at the argument's place or before. Else it goes to the parameter at its place, and to
/// none if there is no such parameter or only a keyword can fill it. It never goes to two.
pub proof fn positional_fills_its_place(function: FunctionSymbol, place: int, i: int)
    requires
        0 <= place,
    ensures
        (exists|j: int| j <= place && #[trigger] takes_any(function, j)) ==> (function.is_filled(
            place,
            i,
        ) <==> takes_any(function, i) && i <= place && forall|j: int|
            j < i ==> !#[trigger] takes_any(function, j)),
        !(exists|j: int| j <= place && #[trigger] takes_any(function, j)) ==> (
        function.is_filled(place, i) <==> i == place && i < function.args@.len() && (
        function.args@[i].arg_type == ArgumentType::POS_ONLY || function.args@[i].arg_type
            == ArgumentType::ARG)),
{
    if exists|j: int| j <= place && #[trigger] takes_any(function, j) {
        let j = choose|j: int| j <= place && #[trigger] takes_any(function, j);
        let v = first_taking_any(function, j);
        assert(v <= place && function.first_vararg(v));
        if function.first_vararg(i) {
            assert(takes_any(function, i));
            assert(!(v < i) && !(i < v));
        }
        if takes_any(function, i) && forall|j: int| j < i ==> !#[trigger] takes_any(function, j) {
            assert forall|k: int| 0 <= k < i implies (#[trigger] function.args@[k]).arg_type
                != ArgumentType::VARARG by {
                assert(!takes_any(function, k));
            }
        }
    } else {
        assert forall|v: int| v <= place implies !#[trigger] function.first_vararg(v) by {
            assert(!takes_any(function, v));
        }
        assert(!takes_any(function, i) || i > place);
    }
}

proof fn first_taking_any(function: FunctionSymbol, j: int) -> (v: int)
    requires
        takes_any(function, j),
    ensures
        v <= j,
        function.first_vararg(v),
        takes_any(function, v),
    decreases j,
{
    if exists|k: int| 0 <= k < j && (#[trigger] function.args@[k]).arg_type == ArgumentType::VARARG {
        let k = choose|k: int|
            0 <= k < j && (#[trigger] function.args@[k]).arg_type == ArgumentType::VARARG;
        first_taking_any(function, k)
    } else {
        j
    }
}

/// A call on an instance shifts its positional arguments by one, whichever way the instance is
/// known; other calls do not.
pub proof fn instance_shifts_by_one(index: u32, on_instance: bool)
    ensures
        FunctionSymbol::place_of(index, None) == index,
        FunctionSymbol::place_of(index, Some(on_instance)) == index + 1,
{
}

/// The evaluations of several lists are those of each list.
pub proof fn flat_holds_all(lists: Seq<Vec<Evaluation>>, e: EvaluationView)
    ensures
        flat_views(lists).contains(e) <==> exists|i: int, j: int|
            0 <= i < lists.len() && 0 <= j < lists[i]@.len() && (#[trigger] lists[i]@[j])@ == e,
    decreases lists.len(),
{
    if lists.len() > 0 {
        let front = lists.drop_last();
        let n = lists.len() - 1;
        let a = flat_views(front);
        let b = evaluation_views(lists.last()@);
        flat_holds_all(front, e);
        assert(lists[n] == lists.last());
        assert forall|i: int| 0 <= i < front.len() implies front[i] == #[trigger] lists[i] by {}
        if a.contains(e) {
            let k = choose|k: int| 0 <= k < a.len() && a[k] == e;
            assert((a + b)[k] == e);
            let (i, j) = choose|i: int, j: int|
                0 <= i < front.len() && 0 <= j < front[i]@.len() && (#[trigger] front[i]@[j])@ == e;
            assert(lists[i]@[j]@ == e);
        }
        if b.contains(e) {
            let j = choose|j: int| 0 <= j < b.len() && b[j] == e;
            assert((a + b)[a.len() + j] == e);
            assert(lists[n]@[j]@ == e);
        }
        if exists|i: int, j: int|
            0 <= i < lists.len() && 0 <= j < lists[i]@.len() && (#[trigger] lists[i]@[j])@ == e {
            let (i, j) = choose|i: int, j: int|
                0 <= i < lists.len() && 0 <= j < lists[i]@.len() && (#[trigger] lists[i]@[j])@ == e;
            if i < n {
                assert(front[i]@[j]@ == e);
            } else {
                assert(b[j] == e);
            }
        }
        if (a + b).contains(e) {
            let k = choose|k: int| 0 <= k < (a + b).len() && (a + b)[k] == e;
            if k < a.len() {
                assert(a[k] == e);
            } else {
                assert(b[k - a.len()] == e);
            }
        }
    }
}

/// What declarations hold under a name are the symbols of those that have the name.
pub proof fn declared_under_is_by_name(list: Seq<ExtDeclaration>, name: Seq<char>, id: SymbolId)
    ensures
        declared_under(list, name).contains(id) <==> exists|k: int|
            0 <= k < list.len() && (#[trigger] list[k]).name@ == name && list[k].symbols@.contains(
                id,
            ),
    decreases list.len(),
{
    if list.len() > 0 {
        let front = list.drop_last();
        let last = list.last();
        let n = list.len() - 1;
        let a = declared_under(front, name);
        let b = last.symbols@;
        declared_under_is_by_name(front, name, id);
        assert(list[n] == last);
        assert forall|k: int| 0 <= k < front.len() implies front[k] == #[trigger] list[k] by {}
        if a.contains(id) {
            let i = choose|i: int| 0 <= i < a.len() && a[i] == id;
            assert((a + b)[i] == id);
            let k = choose|k: int|
                0 <= k < front.len() && (#[trigger] front[k]).name@ == name
                    && front[k].symbols@.contains(id);
            assert(list[k].name@ == name);
        }
        if b.contains(id) {
            let i = choose|i: int| 0 <= i < b.len() && b[i] == id;
            assert((a + b)[a.len() + i] == id);
        }
        if (a + b).contains(id) {
            let i = choose|i: int| 0 <= i < (a + b).len() && (a + b)[i] == id;
            if i < a.len() {
                assert(a[i] == id);
            } else {
                assert(b[i - a.len()] == id);
            }
        }
    }
}

/// Whether the map has a declaration of the symbol at `id` on the owner of the handle under the
/// name.
pub open spec fn map_declares(
    map: HandleMap,
    handle: Handle,
    name: Seq<char>,
    id: SymbolId,
) -> bool {
    &&& stored(map).contains_key(handle)
    &&& exists|k: int|
        0 <= k < stored(map)[handle].len() && (#[trigger] stored(map)[handle][k]).name@ == name
            && stored(map)[handle][k].symbols@.contains(id)
}

/// Whether the symbol declares the one at `id` on the owner of the handle under the name.
/// Functions, classes and files can.
pub open spec fn symbol_declares(
    symbol: Symbol,
    handle: Handle,
    name: Seq<char>,
    id: SymbolId,
) -> bool {
    match symbol.data {
        SymbolData::Function(f) => map_declares(f.decl_ext_symbols, handle, name, id),
        SymbolData::Class(c) => map_declares(c.decl_ext_symbols, handle, name, id),
        SymbolData::File(f) => map_declares(f.decl_ext_symbols, handle, name, id),
        _ => false,
    }
}

/// What a symbol declares on another is what its declarations hold for that one under the name.
pub proof fn declares_on_is_stored(symbol: Symbol, handle: Handle, name: Seq<char>, id: SymbolId)
    ensures
        symbol.declares_on(handle, name).contains(id) <==> symbol_declares(
            symbol,
            handle,
            name,
            id,
        ),
{
    match symbol.data {
        SymbolData::Function(f) => {
            declared_under_is_by_name(stored(f.decl_ext_symbols)[handle], name, id);
        },
        SymbolData::Class(c) => {
            declared_under_is_by_name(stored(c.decl_ext_symbols)[handle], name, id);
        },
        SymbolData::File(f) => {
            declared_under_is_by_name(stored(f.decl_ext_symbols)[handle], name, id);
        },
        _ => {},
    }
}

/// What several owners declare on a symbol is what each of them does.
pub proof fn declared_by_is_by_owner(
    odoo: SyncOdoo,
    owners: Seq<SymbolId>,
    handle: Handle,
    name: Seq<char>,
    id: SymbolId,
)
    ensures
        declared_by(odoo, owners, handle, name).contains(id) <==> exists|k: int|
            0 <= k < owners.len() && symbol_declares(
                odoo.symbols@[#[trigger] owners[k] as int]->0,
                handle,
                name,
                id,
            ),
    decreases owners.len(),
{
    if owners.len() > 0 {
        let front = owners.drop_last();
        let last = owners.last();
        let n = owners.len() - 1;
        let a = declared_by(odoo, front, handle, name);
        let b = odoo.sym(last).declares_on(handle, name);
        declared_by_is_by_owner(odoo, front, handle, name, id);
        declares_on_is_stored(odoo.sym(last), handle, name, id);
        assert(owners[n] == last);
        assert forall|k: int| 0 <= k < front.len() implies front[k] == #[trigger] owners[k] by {}
        if a.contains(id) {
            let i = choose|i: int| 0 <= i < a.len() && a[i] == id;
            assert((a + b)[i] == id);
            let k = choose|k: int|
                0 <= k < front.len() && symbol_declares(
                    odoo.symbols@[#[trigger] front[k] as int]->0,
                    handle,
                    name,
                    id,
                );
            assert(owners[k] == front[k]);
        }
        if b.contains(id) {
            let i = choose|i: int| 0 <= i < b.len() && b[i] == id;
            assert((a + b)[a.len() + i] == id);
        }
        if (a + b).contains(id) {
            let i = choose|i: int| 0 <= i < (a + b).len() && (a + b)[i] == id;
            if i < a.len() {
                assert(a[i] == id);
            } else {
                assert(b[i - a.len()] == id);
            }
        }
    }
}

/// The symbols of a section are those of its first entry; a section without entry has none.
pub proof fn section_is_first_entry(list: Seq<SectionSymbols>, section: u32, i: int)
    ensures
        0 <= i < list.len() && list[i].section == section && (forall|j: int|
            0 <= j < i ==> (#[trigger] list[j]).section != section) ==> section_symbols(
            list,
            section,
        ) == list[i].symbols@,
        (forall|j: int| 0 <= j < list.len() ==> (#[trigger] list[j]).section != section)
            ==> section_symbols(list, section).len() == 0,
    decreases list.len(),
{
    if list.len() > 0 && list[0].section != section {
        let rest = list.skip(1);
        section_is_first_entry(rest, section, i - 1);
        if 0 <= i < list.len() && list[i].section == section && (forall|j: int|
            0 <= j < i ==> (#[trigger] list[j]).section != section) {
            assert(i > 0);
            assert(rest[i - 1] == list[i]);
            assert forall|j: int| 0 <= j < i - 1 implies (#[trigger] rest[j]).section != section by {
                assert(list[j + 1].section != section);
            }
        }
        if forall|j: int| 0 <= j < list.len() ==> (#[trigger] list[j]).section != section {
            assert forall|j: int| 0 <= j < rest.len() implies (#[trigger] rest[j]).section
                != section by {
                assert(list[j + 1].section != section);
            }
        }
    }
}

/// A keyword goes to the first parameter whose symbol has its name.
pub proof fn keyword_names_its_parameter(
    function: FunctionSymbol,
    odoo: SyncOdoo,
    name: Seq<char>,
    i: int,
)
    ensures
        function.first_arg(odoo, name, i) <==> {
            &&& 0 <= i < function.args@.len()
            &&& odoo.symbols@[function.args@[i].symbol as int]->0.name@ == name
            &&& forall|j: int|
                0 <= j < i ==> odoo.symbols@[(#[trigger] function.args@[j]).symbol as int]->0.name@
                    != name
        },
{
    if function.first_arg(odoo, name, i) {
        assert forall|j: int| 0 <= j < i implies odoo.symbols@[(
        #[trigger] function.args@[j]).symbol as int]->0.name@ != name by {
            assert(FunctionSymbol::arg_name(odoo, function.args@[j]) != name);
        }
    }
}

} // verus!
