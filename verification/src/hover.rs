//! What is shown when the cursor rests on something.
use std::ops::Range;
use vstd::prelude::*;

use crate::ast_nodes::AstNode;
use crate::ast_utils::FoundSymbols;
use crate::constants::SymbolId;
use crate::evaluation::{evaluation_views, Evaluation, EvaluationView, TextRange};
use crate::xml_node::XmlNode;
use crate::xml_parse::{document_nodes, kept_all, listing, parse_xml};

verus! {

/// What a hover over Python code describes.
pub struct PythonHover<'a> {
    /// The symbols to describe.
    pub evaluations: Vec<Evaluation>,
    /// The call in whose arguments the cursor stands, by which strings in it are understood.
    pub call: Option<&'a AstNode>,
    /// The part of the file to highlight.
    pub range: TextRange,
}

/// What the lookup at a cursor in an XML file came to.
pub enum XmlAstResult {
    SYMBOL(SymbolId),
    /// Anything else, which has no description.
    OTHER,
}

/// What a hover over XML describes.
pub struct XmlHover {
    /// The symbols to describe.
    pub evaluations: Vec<Evaluation>,
    /// The part of the file to highlight.
    pub range: Option<Range<usize>>,
}

/// An evaluation that points to `symbol` itself rather than to an instance of it.
pub open spec fn type_of(symbol: SymbolId) -> EvaluationView {
    EvaluationView {
        target: Some(symbol),
        instance: Some(false),
        context: Map::empty(),
        value: None,
    }
}

/// The evaluations that point to the symbols among the results.
pub open spec fn symbol_evaluations(results: Seq<XmlAstResult>) -> Seq<EvaluationView>
    decreases results.len(),
{
    if results.len() == 0 {
        Seq::empty()
    } else {
        let front = symbol_evaluations(results.drop_last());
        match results.last() {
            XmlAstResult::SYMBOL(id) => front.push(type_of(id)),
            XmlAstResult::OTHER => front,
        }
    }
}

/// Hovers over Python, XML and CSV files.
pub struct HoverFeature {}

impl HoverFeature {
    /// What a hover describes where `found` stands under the cursor; nothing where no symbol
    /// was found.
    pub fn hover_python<'a>(found: FoundSymbols<'a>) -> (r: Option<PythonHover<'a>>)
        requires
            found.is_ranged(),
        ensures
            r is Some == (found.result.evaluations@.len() > 0),
            r is Some ==> {
                &&& r->0.evaluations == found.result.evaluations
                &&& r->0.call == found.call
                &&& Some(r->0.range) == found.range
            },
    {
        if found.result.evaluations.len() == 0 {
            return None;
        }
        match found.range {
            Some(range) => Some(
                PythonHover { evaluations: found.result.evaluations, call: found.call, range },
            ),
            None => None,
        }
    }

    /// The root element of an XML file, in which the cursor is looked up; nothing is shown
    /// where the file cannot be parsed.
    pub fn hover_xml(text: &str) -> (r: Option<XmlNode>)
        ensures
            match document_nodes(text@) {
                Some(nodes) => r is Some && listing(r->0, nodes[0].depth) == kept_all(nodes),
                None => r is None,
            },
    {
        parse_xml(text)
    }

    /// What a hover describes where the cursor in an XML file led to `results`: the symbols
    /// among them.
    pub fn hover_xml_symbols(results: &Vec<XmlAstResult>, range: Option<Range<usize>>) -> (r:
        XmlHover)
        ensures
            evaluation_views(r.evaluations@) == symbol_evaluations(results@),
            r.range == range,
    {
        let mut evaluations: Vec<Evaluation> = Vec::new();
        let mut i: usize = 0;
        assert(results@.take(0) =~= Seq::empty());
        assert(evaluation_views(evaluations@) =~= Seq::empty());
        while i < results.len()
            invariant
                i <= results.len(),
                evaluation_views(evaluations@) == symbol_evaluations(results@.take(i as int)),
            decreases results.len() - i,
        {
            assert(results@.take(i + 1).drop_last() =~= results@.take(i as int));
            if let XmlAstResult::SYMBOL(id) = &results[i] {
                let ghost before = evaluation_views(evaluations@);
                let evaluation = Evaluation::eval_from_symbol(*id, Some(false));
                evaluations.push(evaluation);
                assert(evaluation_views(evaluations@) =~= before.push(evaluation@));
            }
            i = i + 1;
        }
        assert(results@.take(i as int) =~= results@);
        XmlHover { evaluations, range }
    }

    /// Nothing is shown in CSV files.
    pub fn hover_csv<'a>() -> (r: Option<PythonHover<'a>>)
        ensures
            r is None,
    {
        None
    }
}

} // verus!
