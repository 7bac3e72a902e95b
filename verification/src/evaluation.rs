//! Inferred types of variables and functions.
use vstd::prelude::*;

use crate::constants::SymbolId;
use crate::names::NameMap;
use crate::text::same_text;
use crate::xml_data::optional_text;

verus! {

/// The byte offsets from `start` up to, but not including, `end`.
#[derive(Clone, Copy, Debug, PartialEq, Eq, Structural)]
pub struct TextRange {
    pub start: u32,
    pub end: u32,
}

impl TextRange {
    /// Whether `offset` lies in the range.
    pub open spec fn holds(self, offset: u32) -> bool {
        self.start <= offset < self.end
    }

    /// Whether `offset` lies in the range.
    pub fn contains(&self, offset: u32) -> (r: bool)
        ensures
            r == self.holds(offset),
    {
        self.start <= offset && offset < self.end
    }
}

/// A value that an evaluation carries under a name.
pub enum ContextValue {
    BOOLEAN(bool),
    STRING(String),
    MODULE(SymbolId),
    SYMBOL(SymbolId),
    RANGE(TextRange),
}

/// Values that evaluations carry, by name.
pub type Context = NameMap<ContextValue>;

/// The symbol that an evaluation points to.
pub struct EvaluationSymbol {
    /// The symbol, which may be gone; none where nothing was inferred.
    pub target: Option<SymbolId>,
    /// Whether the value is an instance of the symbol; none where that is open.
    pub instance: Option<bool>,
    pub context: Context,
}

/// One inferred type.
pub struct Evaluation {
    pub symbol: EvaluationSymbol,
    /// The literal value, where there is one.
    pub value: Option<String>,
}

/// Mathematical model of a `ContextValue`.
#[verifier::ext_equal]
pub enum ContextValueView {
    Boolean(bool),
    Text(Seq<char>),
    Module(SymbolId),
    Symbol(SymbolId),
    Range(TextRange),
}

impl View for ContextValue {
    type V = ContextValueView;

    open spec fn view(&self) -> ContextValueView {
        match *self {
            ContextValue::BOOLEAN(b) => ContextValueView::Boolean(b),
            ContextValue::STRING(s) => ContextValueView::Text(s@),
            ContextValue::MODULE(id) => ContextValueView::Module(id),
            ContextValue::SYMBOL(id) => ContextValueView::Symbol(id),
            ContextValue::RANGE(range) => ContextValueView::Range(range),
        }
    }
}

/// The values of a context, by name.
pub open spec fn context_view(context: Context) -> Map<Seq<char>, ContextValueView> {
    Map::new(|name: Seq<char>| context.has(name), |name: Seq<char>| context.value(name)@)
}

/// Mathematical model of an `Evaluation`.
#[verifier::ext_equal]
pub struct EvaluationView {
    pub target: Option<SymbolId>,
    pub instance: Option<bool>,
    pub context: Map<Seq<char>, ContextValueView>,
    pub value: Option<Seq<char>>,
}

impl View for Evaluation {
    type V = EvaluationView;

    open spec fn view(&self) -> EvaluationView {
        EvaluationView {
            target: self.symbol.target,
            instance: self.symbol.instance,
            context: context_view(self.symbol.context),
            value: optional_text(self.value),
        }
    }
}

/// The models of a list of evaluations.
pub open spec fn evaluation_views(v: Seq<Evaluation>) -> Seq<EvaluationView> {
    v.map_values(|e: Evaluation| e@)
}

impl ContextValue {
    /// Whether both are the same value.
    pub fn same(&self, other: &ContextValue) -> (r: bool)
        ensures
            r == (self@ == other@),
    {
        match (self, other) {
            (ContextValue::BOOLEAN(a), ContextValue::BOOLEAN(b)) => *a == *b,
            (ContextValue::STRING(a), ContextValue::STRING(b)) => same_text(
                a.as_str(),
                b.as_str(),
            ),
            (ContextValue::MODULE(a), ContextValue::MODULE(b)) => *a == *b,
            (ContextValue::SYMBOL(a), ContextValue::SYMBOL(b)) => *a == *b,
            (ContextValue::RANGE(a), ContextValue::RANGE(b)) => a.start == b.start && a.end
                == b.end,
            _ => false,
        }
    }
}

/// Whether every name of `a` has the same value in `b`.
fn within(a: &Context, b: &Context) -> (r: bool)
    ensures
        r == forall|name: Seq<char>| #[trigger]
            a.has(name) ==> b.has(name) && a.value(name)@ == b.value(name)@,
{
    let mut i: usize = 0;
    while i < a.entries.len()
        invariant
            i <= a.entries.len(),
            forall|j: int|
                0 <= j < i ==> b.has((#[trigger] a.entries@[j]).name@) && a.value(
                    a.entries@[j].name@,
                )@ == b.value(a.entries@[j].name@)@,
        decreases a.entries.len() - i,
    {
        let name = a.entries[i].name.as_str();
        proof {
            a.occurring_has(i as int);
        }
        let same = match (a.get(name), b.get(name)) {
            (Some(x), Some(y)) => x.same(y),
            _ => false,
        };
        if !same {
            assert(a.has(name@));
            return false;
        }
        i = i + 1;
    }
    assert forall|name: Seq<char>| #[trigger] a.has(name) implies b.has(name) && a.value(name)@
        == b.value(name)@ by {
        let j = choose|j: int| a.first(name, j);
        assert(a.first(name, j));
        assert(a.entries@[j].name@ == name);
    }
    true
}

impl Evaluation {
    /// Whether both say the same.
    pub fn same(&self, other: &Evaluation) -> (r: bool)
        ensures
            r == (self@ == other@),
    {
        let ghost x = context_view(self.symbol.context);
        let ghost y = context_view(other.symbol.context);
        let targets = match (self.symbol.target, other.symbol.target) {
            (Some(a), Some(b)) => a == b,
            (None, None) => true,
            _ => false,
        };
        let instances = match (self.symbol.instance, other.symbol.instance) {
            (Some(a), Some(b)) => a == b,
            (None, None) => true,
            _ => false,
        };
        let values = match (&self.value, &other.value) {
            (Some(a), Some(b)) => same_text(a.as_str(), b.as_str()),
            (None, None) => true,
            _ => false,
        };
        let contexts = within(&self.symbol.context, &other.symbol.context) && within(
            &other.symbol.context,
            &self.symbol.context,
        );
        proof {
            if contexts {
                assert(x =~= y);
            }
            if x == y {
                assert forall|name: Seq<char>| #[trigger]
                    self.symbol.context.has(name) implies other.symbol.context.has(name)
                    && self.symbol.context.value(name)@ == other.symbol.context.value(name)@ by {
                    assert(x.contains_key(name));
                    assert(x[name] == y[name]);
                }
                assert forall|name: Seq<char>| #[trigger]
                    other.symbol.context.has(name) implies self.symbol.context.has(name)
                    && other.symbol.context.value(name)@ == self.symbol.context.value(name)@ by {
                    assert(y.contains_key(name));
                    assert(x[name] == y[name]);
                }
            }
        }
        targets && instances && values && contexts
    }

    /// An evaluation that points to a symbol and carries nothing else.
    pub fn eval_from_symbol(target: SymbolId, instance: Option<bool>) -> (r: Evaluation)
        ensures
            r@ == (EvaluationView {
                target: Some(target),
                instance,
                context: Map::empty(),
                value: None,
            }),
    {
        let r = Evaluation {
            symbol: EvaluationSymbol { target: Some(target), instance, context: NameMap::new() },
            value: None,
        };
        assert(context_view(r.symbol.context) =~= Map::empty());
        r
    }
}

} // verus!
