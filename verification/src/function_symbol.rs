//! Python functions and methods.
use vstd::prelude::*;

use crate::constants::{BuildStatus, BuildSteps, SymbolId};
use crate::diagnostics::{diagnostic_views, Diagnostic};
use crate::evaluation::{evaluation_views, Context, Evaluation, EvaluationView, TextRange};
use crate::file_info::StepDiagnostics;
use crate::handles::{held, stored, ExtDeclaration, Handle, HandleMap, HandleSet};
use crate::names::NameMap;
use crate::odoo::{members, SessionInfo, SyncOdoo};
use crate::symbols::{Symbol, SymbolData};
use crate::text::same_text;

verus! {

/// How an argument can be passed.
#[allow(non_camel_case_types)]
#[derive(Clone, Copy, Debug, PartialEq, Eq, Structural)]
pub enum ArgumentType {
    POS_ONLY,
    ARG,
    KWARG,
    VARARG,
    KWORD_ONLY,
}

/// A parameter of a function.
pub struct Argument {
    /// Symbol of the parameter, one of the function's own.
    pub symbol: SymbolId,
    pub default_value: Option<Evaluation>,
    pub arg_type: ArgumentType,
    /// Number of the annotation's node in the syntax tree.
    pub annotation: Option<u32>,
}

/// Lines of a file on which diagnostics are silenced.
pub enum NoqaInfo {
    Nowhere,
    Everywhere,
    Codes(Vec<String>),
}

/// A stretch of a body that one path through the code runs through.
#[derive(Clone, Copy, Debug, PartialEq, Eq, Structural)]
pub struct SectionRange {
    pub start: u32,
    pub index: u32,
    /// The section that leads here; none for the first.
    pub previous: Option<u32>,
}

/// Symbols of one name that a section of the body declares.
pub struct SectionSymbols {
    pub section: u32,
    pub symbols: Vec<SymbolId>,
}

/// A Python function or method. Functions have a build status of their own, apart
/// from their file's.
pub struct FunctionSymbol {
    pub name: String,
    pub is_external: bool,
    /// `@staticmethod`.
    pub is_static: bool,
    /// `@property`.
    pub is_property: bool,
    pub doc_string: Option<String>,
    /// Number of the function's node in the syntax tree; none before it is known.
    pub node_index: Option<u32>,
    /// Diagnostics of the function, apart from its file's.
    pub diagnostics: StepDiagnostics,
    /// Inferred return types.
    pub evaluations: Vec<Evaluation>,
    pub model_dependencies: HandleSet,
    pub weak_self: Option<SymbolId>,
    pub parent: Option<SymbolId>,
    pub arch_status: BuildStatus,
    pub arch_eval_status: BuildStatus,
    pub validation_status: BuildStatus,
    /// The whole function with its `def` line.
    pub range: TextRange,
    /// The body without the `def` line.
    pub body_range: TextRange,
    pub args: Vec<Argument>,
    /// `@overload`.
    pub is_overloaded: bool,
    /// `@classmethod`.
    pub is_class_method: bool,
    pub noqas: NoqaInfo,
    pub sections: Vec<SectionRange>,
    /// Symbols of the body by name, section by section.
    pub symbols: NameMap<Vec<SectionSymbols>>,
    /// Objects that declare symbols on this one, by the symbols' names.
    pub ext_symbols: NameMap<HandleSet>,
    /// Symbols that this one declares on other objects.
    pub decl_ext_symbols: HandleMap,
}

/// The symbols of a section.
pub open spec fn section_symbols(list: Seq<SectionSymbols>, section: u32) -> Seq<SymbolId>
    decreases list.len(),
{
    if list.len() == 0 {
        Seq::empty()
    } else if list[0].section == section {
        list[0].symbols@
    } else {
        section_symbols(list.skip(1), section)
    }
}

/// Adds a symbol to a section.
fn add_to_section(list: &mut Vec<SectionSymbols>, section: u32, symbol: SymbolId)
    ensures
        section_symbols(final(list)@, section) == section_symbols(old(list)@, section).push(symbol),
        forall|other: u32|
            other != section ==> section_symbols(final(list)@, other) == section_symbols(
                old(list)@,
                other,
            ),
{
    let ghost before = list@;
    let mut i: usize = 0;
    while i < list.len() && list[i].section != section
        invariant
            i <= list.len(),
            list@ == before,
            forall|j: int| 0 <= j < i ==> (#[trigger] before[j]).section != section,
        decreases list.len() - i,
    {
        i = i + 1;
    }
    if i < list.len() {
        list[i].symbols.push(symbol);
        proof {
            section_updated(before, list@, i as int, section, symbol);
        }
    } else {
        let mut symbols: Vec<SymbolId> = Vec::new();
        symbols.push(symbol);
        list.push(SectionSymbols { section, symbols });
        proof {
            section_appended(before, list@.last(), section, symbol);
        }
    }
}

proof fn section_updated(
    before: Seq<SectionSymbols>,
    after: Seq<SectionSymbols>,
    i: int,
    section: u32,
    symbol: SymbolId,
)
    requires
        0 <= i < before.len(),
        before[i].section == section,
        after.len() == before.len(),
        after[i].section == section,
        after[i].symbols@ == before[i].symbols@.push(symbol),
        forall|j: int| 0 <= j < before.len() && j != i ==> #[trigger] after[j] == before[j],
        forall|j: int| 0 <= j < i ==> (#[trigger] before[j]).section != section,
    ensures
        section_symbols(after, section) == section_symbols(before, section).push(symbol),
        forall|other: u32|
            other != section ==> section_symbols(after, other) == section_symbols(before, other),
    decreases before.len(),
{
    if i == 0 {
        assert(after.skip(1) =~= before.skip(1));
        assert forall|other: u32| other != section implies section_symbols(after, other)
            == section_symbols(before, other) by {
            assert(section_symbols(after, other) == section_symbols(after.skip(1), other));
            assert(section_symbols(before, other) == section_symbols(before.skip(1), other));
        }
    } else {
        assert(after[0] == before[0]);
        assert forall|j: int| 0 <= j < before.skip(1).len() && j != i - 1 implies
            #[trigger] after.skip(1)[j] == before.skip(1)[j] by {
            assert(after[j + 1] == before[j + 1]);
        }
        assert forall|j: int| 0 <= j < i - 1 implies (#[trigger] before.skip(1)[j]).section
            != section by {
            assert(before[j + 1].section != section);
        }
        section_updated(before.skip(1), after.skip(1), i - 1, section, symbol);
        assert forall|other: u32| other != section implies section_symbols(after, other)
            == section_symbols(before, other) by {
            if before[0].section != other {
                assert(section_symbols(after, other) == section_symbols(after.skip(1), other));
                assert(section_symbols(before, other) == section_symbols(before.skip(1), other));
            }
        }
    }
}

proof fn section_appended(
    before: Seq<SectionSymbols>,
    added: SectionSymbols,
    section: u32,
    symbol: SymbolId,
)
    requires
        added.section == section,
        added.symbols@ == Seq::<SymbolId>::empty().push(symbol),
        forall|j: int| 0 <= j < before.len() ==> (#[trigger] before[j]).section != section,
    ensures
        section_symbols(before.push(added), section) == section_symbols(before, section).push(
            symbol,
        ),
        forall|other: u32|
            other != section ==> section_symbols(before.push(added), other) == section_symbols(
                before,
                other,
            ),
    decreases before.len(),
{
    let after = before.push(added);
    if before.len() == 0 {
        assert(after.skip(1) =~= Seq::empty());
        assert forall|other: u32| other != section implies section_symbols(after, other)
            == section_symbols(before, other) by {
            assert(section_symbols(after, other) == section_symbols(after.skip(1), other));
        }
    } else {
        assert(after.skip(1) =~= before.skip(1).push(added));
        assert forall|j: int| 0 <= j < before.skip(1).len() implies (
        #[trigger] before.skip(1)[j]).section != section by {
            assert(before[j + 1].section != section);
        }
        section_appended(before.skip(1), added, section, symbol);
        assert(after[0] == before[0]);
        assert forall|other: u32| other != section implies section_symbols(after, other)
            == section_symbols(before, other) by {
            if before[0].section != other {
                assert(section_symbols(after, other) == section_symbols(after.skip(1), other));
                assert(section_symbols(before, other) == section_symbols(before.skip(1), other));
            }
        }
    }
}

/// `list` with the evaluations of `more` that it does not hold yet, in order.
pub open spec fn with_evaluations(
    list: Seq<EvaluationView>,
    more: Seq<EvaluationView>,
) -> Seq<EvaluationView>
    decreases more.len(),
{
    if more.len() == 0 {
        list
    } else {
        let front = with_evaluations(list, more.drop_last());
        if front.contains(more.last()) {
            front
        } else {
            front.push(more.last())
        }
    }
}

/// The arguments that a call passes.
pub struct CallArguments {
    /// How many are passed by position.
    pub positional: u32,
    /// Names of those passed by keyword; none for `**mapping`.
    pub keywords: Vec<Option<String>>,
}

impl FunctionSymbol {
    /// A function that was not built yet. `__new__` is static.
    pub fn new(name: String, range: TextRange, body_start: u32, is_external: bool) -> (r:
        FunctionSymbol)
        requires
            body_start <= range.end,
        ensures
            r.name == name,
            r.is_external == is_external,
            r.range == range,
            r.body_range == (TextRange { start: body_start, end: range.end }),
            r.is_static == (name@ == "__new__"@),
            !r.is_property && !r.is_overloaded && !r.is_class_method,
            r.doc_string is None && r.node_index is None && r.weak_self is None && r.parent is None,
            forall|step: BuildSteps| r.diagnostics.at(step) is None,
            r.evaluations@.len() == 0 && r.args@.len() == 0,
            r.arch_status == BuildStatus::PENDING,
            r.arch_eval_status == BuildStatus::PENDING,
            r.validation_status == BuildStatus::PENDING,
            held(r.model_dependencies) == Set::<Handle>::empty(),
            r.noqas is Nowhere,
            r.sections@ == seq![SectionRange { start: 0, index: 0, previous: None }],
            r.symbols.entries@.len() == 0 && r.ext_symbols.entries@.len() == 0,
            stored(r.decl_ext_symbols).dom() == Set::<Handle>::empty(),
    {
        let is_static = same_text(name.as_str(), "__new__");
        let mut sections: Vec<SectionRange> = Vec::new();
        sections.push(SectionRange { start: 0, index: 0, previous: None });
        FunctionSymbol {
            name,
            is_external,
            is_static,
            is_property: false,
            doc_string: None,
            node_index: None,
            diagnostics: StepDiagnostics::new(),
            evaluations: Vec::new(),
            model_dependencies: HandleSet::new(),
            weak_self: None,
            parent: None,
            arch_status: BuildStatus::PENDING,
            arch_eval_status: BuildStatus::PENDING,
            validation_status: BuildStatus::PENDING,
            range,
            body_range: TextRange { start: body_start, end: range.end },
            args: Vec::new(),
            is_overloaded: false,
            is_class_method: false,
            noqas: NoqaInfo::Nowhere,
            sections,
            symbols: NameMap::new(),
            ext_symbols: NameMap::new(),
            decl_ext_symbols: HandleMap::new(),
        }
    }

    /// Stores the diagnostics of a step in place of its earlier ones.
    pub fn replace_diagnostics(&mut self, step: BuildSteps, diagnostics: Vec<Diagnostic>)
        ensures
            *final(self) == (FunctionSymbol {
                diagnostics: final(self).diagnostics,
                ..*old(self)
            }),
            final(self).diagnostics.at(step) == Some(diagnostic_views(diagnostics@)),
            forall|other: BuildSteps|
                other != step ==> final(self).diagnostics.at(other) == old(self).diagnostics.at(
                    other,
                ),
    {
        self.diagnostics.replace(step, diagnostics);
    }

    /// The symbols called `name` that a section of the body declares.
    pub open spec fn declared(self, name: Seq<char>, section: u32) -> Seq<SymbolId> {
        if self.symbols.has(name) {
            section_symbols(self.symbols.value(name)@, section)
        } else {
            Seq::empty()
        }
    }

    /// Notes that a section of the body declares the symbol `content`, called `name`.
    pub fn add_symbol(&mut self, content: SymbolId, name: &str, section: u32)
        ensures
            *final(self) == (FunctionSymbol { symbols: final(self).symbols, ..*old(self) }),
            final(self).declared(name@, section) == old(self).declared(name@, section).push(
                content,
            ),
            forall|other: Seq<char>, place: u32|
                other != name@ || place != section ==> #[trigger] final(self).declared(other, place)
                    == old(self).declared(other, place),
    {
        let sections = self.symbols.entry(name, Vec::new());
        add_to_section(sections, section, content);
    }

    /// Adds evaluations to the return types of the function at `function`, those left
    /// out that it has. `out_of_scope` holds, for each new evaluation, what it means
    /// outside the function.
    pub fn add_return_evaluations(
        function: SymbolId,
        session: &mut SessionInfo,
        out_of_scope: Vec<Vec<Evaluation>>,
    )
        requires
            old(session).sync_odoo.live(function),
            old(session).sync_odoo.sym(function).data is Function,
        ensures
            ({
                let x = old(session).sync_odoo.sym(function);
                let y = final(session).sync_odoo.sym(function);
                let f = x.data->Function_0;
                let g = y.data->Function_0;
                &&& final(session).sync_odoo.symbols@ == old(session).sync_odoo.symbols@.update(
                    function as int,
                    Some(y),
                )
                &&& y == (Symbol { data: SymbolData::Function(g), ..x })
                &&& g == (FunctionSymbol { evaluations: g.evaluations, ..f })
                &&& evaluation_views(g.evaluations@) == with_evaluations(
                    evaluation_views(f.evaluations@),
                    flat_views(out_of_scope@),
                )
            }),
            *final(session) == (SessionInfo {
                sync_odoo: SyncOdoo {
                    symbols: final(session).sync_odoo.symbols,
                    ..old(session).sync_odoo
                },
                ..*old(session)
            }),
    {
        if let Some(symbol) = &mut session.sync_odoo.symbols[function] {
            if let SymbolData::Function(func) = &mut symbol.data {
                add_evaluations(&mut func.evaluations, out_of_scope);
            }
        }
    }

    /// Whether an argument can be passed by position, as a call on an instance does.
    pub fn can_be_in_class(&self) -> (r: bool)
        ensures
            r == exists|i: int|
                0 <= i < self.args@.len() && (#[trigger] self.args@[i]).arg_type
                    != ArgumentType::KWARG && self.args@[i].arg_type != ArgumentType::KWORD_ONLY,
    {
        let mut i: usize = 0;
        while i < self.args.len()
            invariant
                i <= self.args.len(),
                forall|j: int|
                    0 <= j < i ==> (#[trigger] self.args@[j]).arg_type == ArgumentType::KWARG
                        || self.args@[j].arg_type == ArgumentType::KWORD_ONLY,
            decreases self.args.len() - i,
        {
            if self.args[i].arg_type != ArgumentType::KWARG && self.args[i].arg_type
                != ArgumentType::KWORD_ONLY {
                return true;
            }
            i = i + 1;
        }
        false
    }

    /// Whether the symbol at `id` is a function that carries the decorator.
    pub open spec fn is_overload(odoo: SyncOdoo, id: SymbolId) -> bool {
        &&& odoo.live(id)
        &&& odoo.sym(id).data is Function
        &&& odoo.sym(id).data->Function_0.is_overloaded
    }

    /// Whether the function is overloaded, or a definition of its name before it is.
    pub open spec fn overloaded(self, odoo: SyncOdoo, previous: Seq<SymbolId>) -> bool {
        ||| self.is_overloaded
        ||| {
            &&& self.parent is Some
            &&& odoo.live(self.parent->0)
            &&& exists|i: int|
                0 <= i < previous.len() && Self::is_overload(odoo, #[trigger] previous[i])
        }
    }

    /// Whether the function, or a previous implementation, is overloaded.
    /// `previous_defs` are the definitions of the name that its parent holds before the
    /// function starts.
    pub fn is_overloaded(&self, odoo: &SyncOdoo, previous_defs: &Vec<SymbolId>) -> (r: bool)
        ensures
            r == self.overloaded(*odoo, previous_defs@),
    {
        if self.is_overloaded {
            return true;
        }
        let has_parent = match self.parent {
            Some(parent) => odoo.get(parent).is_some(),
            None => false,
        };
        if !has_parent {
            return false;
        }
        let mut i: usize = 0;
        while i < previous_defs.len()
            invariant
                i <= previous_defs.len(),
                self.parent is Some,
                odoo.live(self.parent->0),
                forall|j: int|
                    0 <= j < i ==> !Self::is_overload(*odoo, #[trigger] previous_defs@[j]),
            decreases previous_defs.len() - i,
        {
            if let Some(symbol) = odoo.get(previous_defs[i]) {
                if let SymbolData::Function(function) = &symbol.data {
                    if function.is_overloaded {
                        assert(Self::is_overload(*odoo, previous_defs@[i as int]));
                        return true;
                    }
                }
            }
            i = i + 1;
        }
        false
    }

    /// The return types for a given context: nothing more precise is inferred yet.
    pub fn get_return_type(&self, func_context: Option<Context>) -> (r: Vec<Evaluation>)
        ensures
            r@.len() == 0,
    {
        Vec::new()
    }

    /// Name of the symbol of a parameter.
    pub open spec fn arg_name(odoo: SyncOdoo, arg: Argument) -> Seq<char> {
        odoo.sym(arg.symbol).name@
    }

    /// Position of the first parameter called `name`.
    pub open spec fn first_arg(self, odoo: SyncOdoo, name: Seq<char>, i: int) -> bool {
        &&& 0 <= i < self.args@.len()
        &&& Self::arg_name(odoo, self.args@[i]) == name
        &&& forall|j: int| 0 <= j < i ==> Self::arg_name(odoo, #[trigger] self.args@[j]) != name
    }

    /// Whether a keyword can be held against the parameters: it is a name, and the symbols of
    /// the parameters up to the one that it names are there.
    pub open spec fn can_match(self, odoo: SyncOdoo, keyword: Option<String>) -> bool {
        &&& self.args@.len() > 0 ==> keyword is Some
        &&& forall|i: int|
            0 <= i < self.args@.len() && (forall|j: int|
                0 <= j < i ==> Self::arg_name(odoo, #[trigger] self.args@[j]) != keyword->0@)
                ==> odoo.live((#[trigger] self.args@[i]).symbol)
    }

    /// Whether the first parameter that takes any number of positional arguments is at `i`.
    pub open spec fn first_vararg(self, i: int) -> bool {
        &&& 0 <= i < self.args@.len()
        &&& self.args@[i].arg_type == ArgumentType::VARARG
        &&& forall|j: int|
            0 <= j < i ==> (#[trigger] self.args@[j]).arg_type != ArgumentType::VARARG
    }

    /// Whether the parameter at `i` is filled by the positional argument at `place`: it is the
    /// one that takes any number of them, if that stands there or before; else the one that
    /// stands there, unless only a keyword can fill it.
    pub open spec fn is_filled(self, place: int, i: int) -> bool {
        if exists|v: int| v <= place && self.first_vararg(v) {
            self.first_vararg(i)
        } else {
            &&& i == place
            &&& 0 <= i < self.args@.len()
            &&& self.args@[i].arg_type != ArgumentType::KWORD_ONLY
            &&& self.args@[i].arg_type != ArgumentType::KWARG
        }
    }

    /// The place of the positional argument at `index`, which the instance shifts by one if the
    /// call is on one.
    pub open spec fn place_of(index: u32, is_on_instance: Option<bool>) -> int {
        if is_on_instance is Some {
            index + 1
        } else {
            index as int
        }
    }

    /// The parameter that the positional argument at `place` fills.
    fn filled_by(&self, place: u64) -> (r: Option<&Argument>)
        ensures
            match r {
                Some(arg) => exists|i: int| #[trigger]
                    self.is_filled(place as int, i) && *arg == self.args@[i],
                None => forall|i: int| !#[trigger] self.is_filled(place as int, i),
            },
    {
        let mut v: usize = 0;
        while v < self.args.len() && v as u64 <= place
            invariant
                v <= self.args.len(),
                v <= place + 1,
                forall|j: int|
                    0 <= j < v ==> (#[trigger] self.args@[j]).arg_type != ArgumentType::VARARG,
            decreases self.args.len() - v,
        {
            if self.args[v].arg_type == ArgumentType::VARARG {
                proof {
                    assert(self.first_vararg(v as int));
                    assert(self.is_filled(place as int, v as int));
                }
                return Some(&self.args[v]);
            }
            v = v + 1;
        }
        proof {
            assert forall|w: int| w <= place implies !self.first_vararg(w) by {
                if self.first_vararg(w) {
                    assert(self.args@[w].arg_type == ArgumentType::VARARG);
                }
            }
        }
        if place < self.args.len() as u64 {
            let arg = &self.args[place as usize];
            if arg.arg_type != ArgumentType::KWORD_ONLY && arg.arg_type != ArgumentType::KWARG {
                assert(self.is_filled(place as int, place as int));
                return Some(arg);
            }
        }
        None
    }

    /// The parameter that the argument at `index` of a call fills: the one it names if it is
    /// passed by keyword, else the one that takes it by position, which the instance shifts by
    /// one if the call is on one. An overloaded function has none.
    pub fn get_indexed_arg_in_call(
        &self,
        odoo: &SyncOdoo,
        previous_defs: &Vec<SymbolId>,
        call: &CallArguments,
        index: u32,
        is_on_instance: Option<bool>,
    ) -> (r: Option<&Argument>)
        requires
            !self.overloaded(*odoo, previous_defs@) && call.positional <= index < call.positional
                + call.keywords@.len() ==> self.can_match(
                *odoo,
                call.keywords@[index - call.positional],
            ),
        ensures
            ({
                let keyword = call.positional <= index < call.positional + call.keywords@.len();
                let name = call.keywords@[index - call.positional]->0@;
                let place = Self::place_of(index, is_on_instance);
                if self.overloaded(*odoo, previous_defs@) {
                    r is None
                } else if keyword {
                    match r {
                        Some(arg) => exists|i: int| #[trigger]
                            self.first_arg(*odoo, name, i) && *arg == self.args@[i],
                        None => forall|i: int|
                            0 <= i < self.args@.len() ==> Self::arg_name(
                                *odoo,
                                #[trigger] self.args@[i],
                            ) != name,
                    }
                } else {
                    match r {
                        Some(arg) => exists|i: int| #[trigger]
                            self.is_filled(place, i) && *arg == self.args@[i],
                        None => forall|i: int| !#[trigger] self.is_filled(place, i),
                    }
                }
            }),
    {
        if self.is_overloaded(odoo, previous_defs) {
            return None;
        }
        if index >= call.positional && ((index - call.positional) as usize) < call.keywords.len() {
            let place: usize = (index - call.positional) as usize;
            if let Some(keyword) = &call.keywords[place] {
                let mut i: usize = 0;
                while i < self.args.len()
                    invariant
                        i <= self.args.len(),
                        !self.overloaded(*odoo, previous_defs@),
                        call.positional <= index < call.positional + call.keywords@.len(),
                        call.keywords@[index - call.positional] == Some(*keyword),
                        self.can_match(*odoo, Some(*keyword)),
                        forall|j: int|
                            0 <= j < i ==> Self::arg_name(*odoo, #[trigger] self.args@[j])
                                != keyword@,
                    decreases self.args.len() - i,
                {
                    let arg = &self.args[i];
                    assert(odoo.live(self.args@[i as int].symbol));
                    if let Some(symbol) = odoo.get(arg.symbol) {
                        if same_text(symbol.name.as_str(), keyword.as_str()) {
                            proof {
                                let name = call.keywords@[index - call.positional]->0@;
                                assert(name == keyword@);
                                assert(self.first_arg(*odoo, name, i as int));
                                assert(*arg == self.args@[i as int]);
                            }
                            return Some(arg);
                        }
                    }
                    i = i + 1;
                }
            }
            return None;
        }
        let place: u64 = if is_on_instance.is_some() {
            index as u64 + 1
        } else {
            index as u64
        };
        assert(place == Self::place_of(index, is_on_instance));
        self.filled_by(place)
    }
}

/// What the lists hold, one after the other.
pub open spec fn flat_views(lists: Seq<Vec<Evaluation>>) -> Seq<EvaluationView>
    decreases lists.len(),
{
    if lists.len() == 0 {
        Seq::empty()
    } else {
        flat_views(lists.drop_last()) + evaluation_views(lists.last()@)
    }
}

/// Whether the list holds an evaluation that says the same.
fn contains_evaluation(list: &Vec<Evaluation>, eval: &Evaluation) -> (r: bool)
    ensures
        r == evaluation_views(list@).contains(eval@),
{
    let mut i: usize = 0;
    while i < list.len()
        invariant
            i <= list.len(),
            forall|j: int| 0 <= j < i ==> evaluation_views(list@)[j] != eval@,
        decreases list.len() - i,
    {
        if list[i].same(eval) {
            assert(evaluation_views(list@)[i as int] == eval@);
            return true;
        }
        i = i + 1;
    }
    false
}

proof fn flat_front(lists: Seq<Vec<Evaluation>>)
    requires
        lists.len() > 0,
    ensures
        flat_views(lists) == evaluation_views(lists[0]@) + flat_views(lists.skip(1)),
    decreases lists.len(),
{
    if lists.len() == 1 {
        assert(lists.drop_last() =~= Seq::empty());
        assert(lists.skip(1) =~= Seq::empty());
        assert(flat_views(lists) =~= evaluation_views(lists[0]@) + flat_views(lists.skip(1)));
    } else {
        flat_front(lists.drop_last());
        assert(lists.drop_last().skip(1) =~= lists.skip(1).drop_last());
        assert(flat_views(lists) =~= evaluation_views(lists[0]@) + flat_views(lists.skip(1)));
    }
}

/// Adds the evaluations that the list does not hold yet.
fn add_evaluations(list: &mut Vec<Evaluation>, lists: Vec<Vec<Evaluation>>)
    ensures
        evaluation_views(final(list)@) == with_evaluations(
            evaluation_views(old(list)@),
            flat_views(lists@),
        ),
{
    let ghost start = evaluation_views(list@);
    let ghost all = flat_views(lists@);
    let ghost mut done = Seq::<EvaluationView>::empty();
    let mut lists = lists;
    assert(done + flat_views(lists@) =~= all);
    while lists.len() > 0
        invariant
            done + flat_views(lists@) == all,
            evaluation_views(list@) == with_evaluations(start, done),
        decreases lists.len(),
    {
        proof {
            flat_front(lists@);
        }
        let ghost rest = flat_views(lists@.skip(1));
        let ghost before = lists@;
        let mut inner = lists.remove(0);
        proof {
            assert(lists@ =~= before.skip(1));
            assert(done + evaluation_views(inner@) + rest =~= all);
        }
        while inner.len() > 0
            invariant
                done + evaluation_views(inner@) + rest == all,
                evaluation_views(list@) == with_evaluations(start, done),
            decreases inner.len(),
        {
            let ghost sofar = done;
            let ghost views = evaluation_views(inner@);
            let ghost listed = evaluation_views(list@);
            let eval = inner.remove(0);
            proof {
                assert(evaluation_views(inner@) =~= views.skip(1));
                done = sofar.push(eval@);
                assert(done.drop_last() =~= sofar);
                assert(done + evaluation_views(inner@) + rest =~= sofar + views + rest);
            }
            if !contains_evaluation(list, &eval) {
                list.push(eval);
                assert(evaluation_views(list@) =~= listed.push(eval@));
            }
        }
        assert(done + evaluation_views(inner@) + rest =~= done + rest);
    }
    assert(flat_views(lists@) =~= Seq::empty());
    assert(done + flat_views(lists@) =~= done);
}

/// The symbols that the declarations hold under `name`, in order.
pub open spec fn declared_under(list: Seq<ExtDeclaration>, name: Seq<char>) -> Seq<SymbolId>
    decreases list.len(),
{
    if list.len() == 0 {
        Seq::empty()
    } else {
        let front = declared_under(list.drop_last(), name);
        if list.last().name@ == name {
            front + list.last().symbols@
        } else {
            front
        }
    }
}

/// The symbols that a map declares on the owner of a handle under `name`.
pub open spec fn declared_on(map: HandleMap, handle: Handle, name: Seq<char>) -> Seq<SymbolId> {
    if stored(map).contains_key(handle) {
        declared_under(stored(map)[handle], name)
    } else {
        Seq::empty()
    }
}

/// The symbols that a map declares on the owner of a handle under `name`.
fn find_declared(map: &HandleMap, handle: &Handle, name: &str) -> (r: Vec<SymbolId>)
    ensures
        r@ == declared_on(*map, *handle, name@),
{
    let mut result: Vec<SymbolId> = Vec::new();
    if let Some(list) = map.get(handle) {
        let ghost all = list@;
        let mut i: usize = 0;
        assert(all.take(0) =~= Seq::empty());
        while i < list.len()
            invariant
                i <= list.len(),
                all == list@,
                result@ == declared_under(all.take(i as int), name@),
            decreases list.len() - i,
        {
            assert(all.take(i + 1).drop_last() =~= all.take(i as int));
            if same_text(list[i].name.as_str(), name) {
                let symbols = &list[i].symbols;
                let ghost before = result@;
                let mut j: usize = 0;
                assert(before + symbols@.take(0) =~= before);
                while j < symbols.len()
                    invariant
                        j <= symbols.len(),
                        result@ == before + symbols@.take(j as int),
                    decreases symbols.len() - j,
                {
                    result.push(symbols[j]);
                    assert(result@ =~= before + symbols@.take(j + 1));
                    j = j + 1;
                }
                assert(symbols@.take(j as int) =~= symbols@);
            }
            i = i + 1;
        }
        assert(all.take(i as int) =~= all);
    }
    result
}

impl Symbol {
    /// The symbols that this one declares on the owner of a handle under `name`.
    pub open spec fn declares_on(self, handle: Handle, name: Seq<char>) -> Seq<SymbolId> {
        match self.data {
            SymbolData::Function(f) => declared_on(f.decl_ext_symbols, handle, name),
            SymbolData::Class(c) => declared_on(c.decl_ext_symbols, handle, name),
            SymbolData::File(f) => declared_on(f.decl_ext_symbols, handle, name),
            _ => Seq::empty(),
        }
    }

    /// The symbols that this one declares on `symbol` under `name`.
    pub fn get_decl_ext_symbol(&self, symbol: &Symbol, name: &str) -> (r: Vec<SymbolId>)
        ensures
            r@ == self.declares_on(symbol.handle, name@),
    {
        match &self.data {
            SymbolData::Function(f) => f.get_decl_ext_symbol(symbol, name),
            SymbolData::Class(c) => find_declared(&c.decl_ext_symbols, &symbol.handle, name),
            SymbolData::File(f) => find_declared(&f.decl_ext_symbols, &symbol.handle, name),
            _ => Vec::new(),
        }
    }
}

/// The symbols that the owners declare on the owner of a handle under `name`.
pub open spec fn declared_by(
    odoo: SyncOdoo,
    owners: Seq<SymbolId>,
    handle: Handle,
    name: Seq<char>,
) -> Seq<SymbolId>
    decreases owners.len(),
{
    if owners.len() == 0 {
        Seq::empty()
    } else {
        declared_by(odoo, owners.drop_last(), handle, name) + odoo.sym(owners.last()).declares_on(
            handle,
            name,
        )
    }
}

impl FunctionSymbol {
    /// The symbols called `name` that other objects declare on this function, owner after
    /// owner.
    pub fn get_ext_symbol(&self, odoo: &SyncOdoo, name: &str) -> (r: Vec<SymbolId>)
        requires
            crate::odoo::handles_match(odoo.symbols@),
            self.ext_symbols.has(name@) && members(
                odoo.symbols@,
                held(self.ext_symbols.value(name@)),
            ).len() > 0 ==> self.weak_self is Some && odoo.live(self.weak_self->0),
        ensures
            r@ == if self.ext_symbols.has(name@) {
                declared_by(
                    *odoo,
                    members(odoo.symbols@, held(self.ext_symbols.value(name@))),
                    odoo.sym(self.weak_self->0).handle,
                    name@,
                )
            } else {
                Seq::empty()
            },
    {
        let mut result: Vec<SymbolId> = Vec::new();
        if let (Some(id), Some(set)) = (self.weak_self, self.ext_symbols.get(name)) {
            if let Some(own) = odoo.get(id) {
                let owners = odoo.members_of(set);
                let ghost all = owners@;
                proof {
                    assert(odoo.symbols@.len() == odoo.symbols.len());
                    crate::odoo::members_are_exact(odoo.symbols@, held(*set));
                    assert(all.take(0) =~= Seq::empty());
                }
                let mut i: usize = 0;
                while i < owners.len()
                    invariant
                        i <= owners.len(),
                        all == owners@,
                        forall|owner: SymbolId| #[trigger] all.contains(owner) ==> odoo.live(owner),
                        result@ == declared_by(*odoo, all.take(i as int), own.handle, name@),
                    decreases owners.len() - i,
                {
                    proof {
                        assert(all.take(i + 1).drop_last() =~= all.take(i as int));
                        assert(all.contains(all[i as int]));
                    }
                    if let Some(owner) = odoo.get(owners[i]) {
                        let mut more = owner.get_decl_ext_symbol(own, name);
                        result.append(&mut more);
                    }
                    i = i + 1;
                }
                assert(all.take(i as int) =~= all);
            }
        }
        result
    }

    /// The symbols called `name` that this function declares on `symbol`, section after
    /// section.
    pub fn get_decl_ext_symbol(&self, symbol: &Symbol, name: &str) -> (r: Vec<SymbolId>)
        ensures
            r@ == declared_on(self.decl_ext_symbols, symbol.handle, name@),
    {
        find_declared(&self.decl_ext_symbols, &symbol.handle, name)
    }

    /// Stores what this function declares on `symbol`.
    pub fn set_decl_ext_symbols(&mut self, symbol: &Symbol, declarations: Vec<ExtDeclaration>)
        ensures
            *final(self) == (FunctionSymbol {
                decl_ext_symbols: final(self).decl_ext_symbols,
                ..*old(self)
            }),
            stored(final(self).decl_ext_symbols) == stored(old(self).decl_ext_symbols).insert(
                symbol.handle,
                declarations@,
            ),
    {
        self.decl_ext_symbols.insert(&symbol.handle, declarations);
    }

    /// Notes that `owner` declares symbols called `name` on this function.
    pub fn add_ext_owner(&mut self, name: &str, owner: &Symbol)
        ensures
            *final(self) == (FunctionSymbol { ext_symbols: final(self).ext_symbols, ..*old(self) }),
            NameMap::replaced(
                old(self).ext_symbols,
                final(self).ext_symbols,
                name@,
                final(self).ext_symbols.value(name@),
            ),
            held(final(self).ext_symbols.value(name@)) == (if old(self).ext_symbols.has(name@) {
                held(old(self).ext_symbols.value(name@))
            } else {
                Set::empty()
            }).insert(owner.handle),
    {
        let set = self.ext_symbols.entry(name, HandleSet::new());
        set.insert(&owner.handle);
    }
}

/// What was stored for a symbol is what its declarations are read from.
pub proof fn stored_is_read(
    a: FunctionSymbol,
    b: FunctionSymbol,
    handle: Handle,
    list: Seq<ExtDeclaration>,
    name: Seq<char>,
)
    requires
        stored(b.decl_ext_symbols) == stored(a.decl_ext_symbols).insert(handle, list),
    ensures
        declared_on(b.decl_ext_symbols, handle, name) == declared_under(list, name),
{
}

/// A list of distinct evaluations stays one.
pub proof fn evaluations_are_distinct(list: Seq<EvaluationView>, more: Seq<EvaluationView>)
    requires
        list.no_duplicates(),
    ensures
        with_evaluations(list, more).no_duplicates(),
    decreases more.len(),
{
    if more.len() > 0 {
        evaluations_are_distinct(list, more.drop_last());
    }
}

/// Adding evaluations lists them beside those that were there, and adding them again
/// changes nothing.
pub proof fn evaluations_are_added_once(list: Seq<EvaluationView>, more: Seq<EvaluationView>)
    ensures
        forall|e: EvaluationView| #[trigger]
            with_evaluations(list, more).contains(e) <==> list.contains(e) || more.contains(e),
        with_evaluations(with_evaluations(list, more), more) == with_evaluations(list, more),
{
    evaluations_listed(list, more);
    nothing_new(with_evaluations(list, more), more);
}

proof fn evaluations_listed(list: Seq<EvaluationView>, more: Seq<EvaluationView>)
    ensures
        forall|e: EvaluationView| #[trigger]
            with_evaluations(list, more).contains(e) <==> list.contains(e) || more.contains(e),
    decreases more.len(),
{
    if more.len() > 0 {
        let front = with_evaluations(list, more.drop_last());
        let last = more.last();
        evaluations_listed(list, more.drop_last());
        let all = with_evaluations(list, more);
        assert forall|e: EvaluationView| #[trigger] all.contains(e) <==> list.contains(e)
            || more.contains(e) by {
            if all.contains(e) {
                let i = choose|i: int| 0 <= i < all.len() && all[i] == e;
                if i < front.len() {
                    assert(front[i] == e);
                    assert(front.contains(e));
                    if more.drop_last().contains(e) {
                        let j = choose|j: int|
                            0 <= j < more.drop_last().len() && more.drop_last()[j] == e;
                        assert(more[j] == e);
                    }
                } else {
                    assert(more[more.len() - 1] == e);
                }
            }
            if front.contains(e) {
                let i = choose|i: int| 0 <= i < front.len() && front[i] == e;
                assert(all[i] == e);
            }
            if list.contains(e) {
                assert(front.contains(e));
            }
            if more.contains(e) {
                let j = choose|j: int| 0 <= j < more.len() && more[j] == e;
                if j < more.len() - 1 {
                    assert(more.drop_last()[j] == e);
                    assert(more.drop_last().contains(e));
                    assert(front.contains(e));
                } else if !front.contains(last) {
                    assert(all[front.len() as int] == e);
                }
            }
        }
    }
}

proof fn nothing_new(list: Seq<EvaluationView>, more: Seq<EvaluationView>)
    requires
        forall|e: EvaluationView| more.contains(e) ==> list.contains(e),
    ensures
        with_evaluations(list, more) == list,
    decreases more.len(),
{
    if more.len() > 0 {
        assert forall|e: EvaluationView| more.drop_last().contains(e) implies list.contains(e) by {
            let j = choose|j: int| 0 <= j < more.drop_last().len() && more.drop_last()[j] == e;
            assert(more[j] == e);
            assert(more.contains(e));
        }
        nothing_new(list, more.drop_last());
        assert(more.contains(more.last())) by {
            assert(more[more.len() - 1] == more.last());
        }
    }
}

} // verus!
