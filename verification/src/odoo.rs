//! The state of the server: symbols, models, modules and what is left to do.
use vstd::prelude::*;

use crate::constants::{BuildStatus, BuildSteps, EntryPointType, MessageType, SymType, SymbolId};
use crate::diagnostics::DiagnosticCode;
use crate::file_info::FileInfo;
use crate::handles::{held, Handle, HandleSet};
use crate::model::Model;
use crate::names::NameMap;
use crate::symbols::Symbol;

verus! {

/// A message for the client's log.
pub struct LogMessage {
    pub typ: MessageType,
    pub message: String,
}

/// Mathematical model of a `LogMessage`.
#[verifier::ext_equal]
pub struct LogView {
    pub typ: MessageType,
    pub message: Seq<char>,
}

impl View for LogMessage {
    type V = LogView;

    open spec fn view(&self) -> LogView {
        LogView { typ: self.typ, message: self.message@ }
    }
}

/// The models of a list of messages.
pub open spec fn log_views(v: Seq<LogMessage>) -> Seq<LogView> {
    v.map_values(|m: LogMessage| m@)
}

/// Work that the server has to do outside the symbol table.
pub enum Request {
    /// The functions inside a symbol have to be evaluated again.
    InvalidateSubFunctions(SymbolId),
    /// The diagnostics of the file at a path have to be sent to the client.
    PublishDiagnostics(String),
}

/// A root from which files are reached.
pub struct EntryPoint {
    pub typ: EntryPointType,
    /// Symbols that refer to models which do not exist yet.
    pub not_found_symbols_for_models: HandleSet,
}

/// A version number, such as 18.2.0.
#[derive(Clone, Copy, Debug, PartialEq, Eq, Structural)]
pub struct Version {
    pub major: u32,
    pub minor: u32,
    pub patch: u32,
}

impl Version {
    /// Whether this version is `other` or a later one.
    pub open spec fn at_least(self, other: Version) -> bool {
        ||| self.major > other.major
        ||| self.major == other.major && self.minor > other.minor
        ||| self.major == other.major && self.minor == other.minor && self.patch >= other.patch
    }

    /// Whether this version is `other` or a later one.
    pub fn is_at_least(&self, other: &Version) -> (r: bool)
        ensures
            r == self.at_least(*other),
    {
        self.major > other.major || (self.major == other.major && (self.minor > other.minor || (
        self.minor == other.minor && self.patch >= other.patch)))
    }
}

/// The symbols and models of all entry points.
pub struct SyncOdoo {
    /// Version of Odoo.
    pub full_version: Version,
    /// All symbols; a dropped symbol leaves its position empty.
    pub symbols: Vec<Option<Symbol>>,
    /// Modules by directory name.
    pub modules: NameMap<SymbolId>,
    pub models: Vec<Model>,
    pub main_entry: EntryPoint,
    /// Symbols that wait for validation.
    pub rebuild_validation: HandleSet,
    /// Files by path.
    pub files: NameMap<FileInfo>,
}

/// A server session.
pub struct SessionInfo {
    pub sync_odoo: SyncOdoo,
    /// Codes of diagnostics that the configuration switches off.
    pub disabled_codes: Vec<DiagnosticCode>,
    pub messages: Vec<LogMessage>,
    pub requests: Vec<Request>,
}

impl SessionInfo {
    /// Codes of diagnostics that the configuration switches off.
    pub open spec fn disabled(self) -> Set<DiagnosticCode> {
        self.disabled_codes@.to_set()
    }
}

/// The positions of the symbols whose handles are in `set`, in ascending order.
pub open spec fn members(symbols: Seq<Option<Symbol>>, set: Set<Handle>) -> Seq<SymbolId>
    decreases symbols.len(),
{
    if symbols.len() == 0 {
        Seq::empty()
    } else {
        let front = members(symbols.drop_last(), set);
        if symbols.last() is Some && set.contains(symbols.last()->0.handle) {
            front.push((symbols.len() - 1) as usize)
        } else {
            front
        }
    }
}

/// Whether every symbol's handle tells its own position.
pub open spec fn handles_match(symbols: Seq<Option<Symbol>>) -> bool {
    forall|i: int|
        0 <= i < symbols.len() && (#[trigger] symbols[i]) is Some ==> symbols[i]->0.handle.id()
            == i
}

/// Whether `v` is strictly ascending.
pub open spec fn ascending(v: Seq<SymbolId>) -> bool {
    forall|i: int, j: int| 0 <= i < j < v.len() ==> v[i] < v[j]
}

/// The positions of members ascend, and they are exactly those of the symbols whose
/// handles are in the set.
pub proof fn members_are_exact(symbols: Seq<Option<Symbol>>, set: Set<Handle>)
    requires
        symbols.len() <= usize::MAX,
    ensures
        ascending(members(symbols, set)),
        forall|id: SymbolId| #[trigger] members(symbols, set).contains(id) <==> id < symbols.len()
            && symbols[id as int] is Some && set.contains(symbols[id as int]->0.handle),
    decreases symbols.len(),
{
    if symbols.len() > 0 {
        let front = members(symbols.drop_last(), set);
        members_are_exact(symbols.drop_last(), set);
        let all = members(symbols, set);
        let last = (symbols.len() - 1) as usize;
        assert forall|i: int| 0 <= i < front.len() implies front[i] < last by {
            assert(front.contains(front[i]));
        }
        assert forall|id: SymbolId| #[trigger] all.contains(id) <==> id < symbols.len()
            && symbols[id as int] is Some && set.contains(symbols[id as int]->0.handle) by {
            if all.contains(id) {
                let i = choose|i: int| 0 <= i < all.len() && all[i] == id;
                if i < front.len() {
                    assert(front.contains(front[i]));
                }
            }
            if id < symbols.len() && symbols[id as int] is Some && set.contains(
                symbols[id as int]->0.handle,
            ) {
                if id == last {
                    assert(all[all.len() - 1] == id);
                } else {
                    assert(symbols.drop_last()[id as int] == symbols[id as int]);
                    assert(front.contains(id));
                    let i = choose|i: int| 0 <= i < front.len() && front[i] == id;
                    assert(all[i] == id);
                }
            }
        }
    }
}

/// Two ascending lists with the same elements are the same.
pub proof fn ascending_is_unique(a: Seq<SymbolId>, b: Seq<SymbolId>)
    requires
        ascending(a),
        ascending(b),
        forall|id: SymbolId| a.contains(id) <==> b.contains(id),
    ensures
        a == b,
    decreases a.len(),
{
    if a.len() == 0 {
        if b.len() > 0 {
            assert(b.contains(b[0]));
            assert(false);
        }
        assert(a =~= b);
    } else {
        assert(a.contains(a.last()));
        assert(b.contains(a.last()));
        assert(b.contains(b.last()));
        assert(a.contains(b.last()));
        assert(a.last() == b.last());
        let x = a.drop_last();
        let y = b.drop_last();
        assert forall|id: SymbolId| x.contains(id) <==> y.contains(id) by {
            if x.contains(id) {
                let i = choose|i: int| 0 <= i < x.len() && x[i] == id;
                assert(a[i] == id);
                assert(b.contains(id));
                let j = choose|j: int| 0 <= j < b.len() && b[j] == id;
                assert(y[j] == id);
            }
            if y.contains(id) {
                let i = choose|i: int| 0 <= i < y.len() && y[i] == id;
                assert(b[i] == id);
                assert(a.contains(id));
                let j = choose|j: int| 0 <= j < a.len() && a[j] == id;
                assert(x[j] == id);
            }
        }
        ascending_is_unique(x, y);
        assert(a =~= x.push(a.last()));
        assert(b =~= y.push(b.last()));
    }
}

/// Puts `id` into its place in an ascending list.
fn insert_ascending(list: &mut Vec<SymbolId>, id: SymbolId)
    requires
        ascending(old(list)@),
        !old(list)@.contains(id),
    ensures
        ascending(final(list)@),
        forall|other: SymbolId| #[trigger] final(list)@.contains(other) <==> other == id || old(
            list,
        )@.contains(other),
{
    let mut i: usize = 0;
    while i < list.len() && list[i] < id
        invariant
            list@ == old(list)@,
            i <= list.len(),
            forall|j: int| 0 <= j < i ==> list@[j] < id,
        decreases list.len() - i,
    {
        i = i + 1;
    }
    let ghost before = list@;
    assert(i < list.len() ==> list@[i as int] != id) by {
        if i < list.len() && list@[i as int] == id {
            assert(before.contains(id));
        }
    }
    list.insert(i, id);
    assert forall|other: SymbolId| #[trigger] list@.contains(other) <==> other == id
        || before.contains(other) by {
        if list@.contains(other) {
            let j = choose|j: int| 0 <= j < list@.len() && list@[j] == other;
            if j < i {
                assert(before[j] == other);
            } else if j > i {
                assert(before[j - 1] == other);
            }
        }
        if before.contains(other) {
            let j = choose|j: int| 0 <= j < before.len() && before[j] == other;
            if j < i {
                assert(list@[j] == other);
            } else {
                assert(list@[j + 1] == other);
            }
        }
        if other == id {
            assert(list@[i as int] == other);
        }
    }
}

impl SyncOdoo {
    /// Whether there is a symbol at `id`.
    pub open spec fn live(self, id: SymbolId) -> bool {
        id < self.symbols.len() && self.symbols@[id as int] is Some
    }

    /// The symbol at `id`.
    pub open spec fn sym(self, id: SymbolId) -> Symbol {
        self.symbols@[id as int]->0
    }

    /// The type of the symbol at `id`, if there is one.
    pub open spec fn typ(self, id: SymbolId) -> Option<SymType> {
        if self.live(id) {
            Some(self.sym(id).typ())
        } else {
            None
        }
    }

    /// The symbol at `id`, if there is one.
    pub fn get(&self, id: SymbolId) -> (r: Option<&Symbol>)
        ensures
            r is Some == self.live(id),
            r is Some ==> *r->0 == self.sym(id),
    {
        if id < self.symbols.len() {
            self.symbols[id].as_ref()
        } else {
            None
        }
    }

    /// The module of the symbol at `id`.
    pub fn module_of(&self, id: SymbolId) -> (r: Option<SymbolId>)
        requires
            self.live(id),
        ensures
            r == self.sym(id).module,
    {
        match self.get(id) {
            Some(symbol) => symbol.module,
            None => None,
        }
    }

    /// The positions of the symbols in `set`, in ascending order.
    pub fn members_of(&self, set: &HandleSet) -> (r: Vec<SymbolId>)
        requires
            handles_match(self.symbols@),
        ensures
            r@ == members(self.symbols@, held(*set)),
    {
        let live = set.live(&self.symbols);
        let mut out: Vec<SymbolId> = Vec::new();
        let mut i: usize = 0;
        while i < live.len()
            invariant
                i <= live.len(),
                handles_match(self.symbols@),
                ascending(out@),
                forall|a: int, b: int| 0 <= a < b < live.len() ==> live@[a] != live@[b],
                forall|id: SymbolId| #[trigger] out@.contains(id) <==> self.live(id) && live@.take(
                    i as int,
                ).contains(self.sym(id).handle),
            decreases live.len() - i,
        {
            let handle = &live[i];
            let id: SymbolId = handle.get_id();
            let ghost seen = live@.take(i as int);
            let ghost next = live@.take(i + 1);
            assert forall|h: Handle| next.contains(h) <==> seen.contains(h) || h == *handle by {
                if next.contains(h) {
                    let j = choose|j: int| 0 <= j < next.len() && next[j] == h;
                    if j < i {
                        assert(seen[j] == h);
                    }
                }
                if seen.contains(h) {
                    let j = choose|j: int| 0 <= j < seen.len() && seen[j] == h;
                    assert(next[j] == h);
                }
                assert(next[i as int] == *handle);
            }
            let known = match self.get(id) {
                Some(symbol) => symbol.handle.same(handle),
                None => false,
            };
            assert(!seen.contains(*handle)) by {
                if seen.contains(*handle) {
                    let j = choose|j: int| 0 <= j < seen.len() && seen[j] == *handle;
                    assert(live@[j] == live@[i as int]);
                }
            }
            if known {
                insert_ascending(&mut out, id);
            }
            i = i + 1;
        }
        proof {
            assert(live@.take(i as int) =~= live@);
            members_are_exact(self.symbols@, held(*set));
            let expected = members(self.symbols@, held(*set));
            assert forall|id: SymbolId| out@.contains(id) <==> expected.contains(id) by {
                if self.live(id) && live@.contains(self.sym(id).handle) {
                    let j = choose|j: int| 0 <= j < live@.len() && live@[j] == self.sym(id).handle;
                    assert(held(*set).contains(live@[j]));
                }
            }
            ascending_is_unique(out@, expected);
        }
        out
    }
}

impl SyncOdoo {
    /// Sets the status of a build step of the symbol at `id`.
    pub fn set_build_status(&mut self, id: SymbolId, step: BuildSteps, status: BuildStatus)
        requires
            old(self).live(id),
        ensures
            final(self).symbols@ == old(self).symbols@.update(
                id as int,
                Some(old(self).sym(id).with_status(step, status)),
            ),
            final(self).full_version == old(self).full_version,
            final(self).modules == old(self).modules,
            final(self).models == old(self).models,
            final(self).main_entry == old(self).main_entry,
            final(self).rebuild_validation == old(self).rebuild_validation,
            final(self).files == old(self).files,
    {
        if let Some(symbol) = &mut self.symbols[id] {
            symbol.set_build_status(step, status);
        }
    }

    /// Puts the symbol at `id` among those that wait for validation.
    pub fn add_to_validations(&mut self, id: SymbolId)
        requires
            old(self).live(id),
        ensures
            held(final(self).rebuild_validation) == held(old(self).rebuild_validation).insert(
                old(self).sym(id).handle,
            ),
            final(self).symbols == old(self).symbols,
            final(self).full_version == old(self).full_version,
            final(self).modules == old(self).modules,
            final(self).models == old(self).models,
            final(self).main_entry == old(self).main_entry,
            final(self).files == old(self).files,
    {
        if let Some(symbol) = &self.symbols[id] {
            self.rebuild_validation.insert(&symbol.handle);
        }
    }
}

} // verus!
