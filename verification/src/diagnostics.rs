//! Diagnostics: what is wrong, where, and about which names.
use vstd::prelude::*;

use crate::odoo::SessionInfo;
use crate::text::texts;

verus! {

/// Identifies a rule that a source file breaks.
#[derive(Clone, Copy, Debug, PartialEq, Eq, Structural)]
pub enum DiagnosticCode {
    OLS05003,
    OLS05004,
    OLS05005,
    OLS05006,
    OLS05007,
    OLS05008,
    OLS05009,
    OLS05010,
    OLS05011,
    OLS05012,
    OLS05013,
    OLS05014,
    OLS05015,
    OLS05016,
    OLS05017,
    OLS05018,
    OLS05019,
    OLS05020,
    OLS05021,
    OLS05022,
    OLS05023,
    OLS05024,
    OLS05025,
    OLS05026,
    OLS05027,
    OLS05028,
    OLS05029,
    OLS05030,
    OLS05031,
    OLS05032,
    OLS05033,
    OLS05034,
    OLS05035,
    OLS05036,
    OLS05037,
    OLS05038,
    OLS05039,
    OLS05044,
    OLS05045,
    OLS05046,
    OLS05047,
    OLS05048,
    OLS05051,
    OLS05052,
    OLS05053,
    OLS05054,
    OLS05055,
    OLS05056,
    OLS05057,
}

/// A place in a document. In XML files `line` carries a byte offset and
/// `character` is zero until the diagnostics are published.
#[derive(Clone, Copy, Debug, PartialEq, Eq, Structural)]
pub struct Position {
    pub line: u32,
    pub character: u32,
}

/// The part of a document from `start` to `end`.
#[derive(Clone, Copy, Debug, PartialEq, Eq, Structural)]
pub struct Range {
    pub start: Position,
    pub end: Position,
}

/// A broken rule, the names that its message speaks of, and where it is broken.
#[derive(Debug)]
pub struct Diagnostic {
    pub code: DiagnosticCode,
    pub args: Vec<String>,
    pub range: Range,
}

/// Mathematical model of a `Diagnostic`.
#[verifier::ext_equal]
pub struct DiagnosticView {
    pub code: DiagnosticCode,
    pub args: Seq<Seq<char>>,
    pub range: Range,
}

impl View for Diagnostic {
    type V = DiagnosticView;

    open spec fn view(&self) -> DiagnosticView {
        DiagnosticView { code: self.code, args: texts(self.args@), range: self.range }
    }
}

/// The models of a list of diagnostics.
pub open spec fn diagnostic_views(v: Seq<Diagnostic>) -> Seq<DiagnosticView> {
    v.map_values(|d: Diagnostic| d@)
}

/// The range of the byte offsets `start` to `end`, kept in the low 32 bits.
pub open spec fn offsets(start: usize, end: usize) -> Range {
    Range {
        start: Position { line: #[verifier::truncate] (start as u32), character: 0 },
        end: Position { line: #[verifier::truncate] (end as u32), character: 0 },
    }
}

/// The range of the byte offsets `start` to `end`, kept in the low 32 bits.
pub fn offset_range(range: &std::ops::Range<usize>) -> (r: Range)
    ensures
        r == offsets(range.start, range.end),
{
    Range {
        start: Position { line: #[verifier::truncate] (range.start as u32), character: 0 },
        end: Position { line: #[verifier::truncate] (range.end as u32), character: 0 },
    }
}

/// `before` with a diagnostic appended, unless its code is switched off.
pub open spec fn reported(
    disabled: Set<DiagnosticCode>,
    before: Seq<DiagnosticView>,
    code: DiagnosticCode,
    args: Seq<Seq<char>>,
    range: Range,
) -> Seq<DiagnosticView> {
    if disabled.contains(code) {
        before
    } else {
        before.push(DiagnosticView { code, args, range })
    }
}

/// Whether the configuration switches the code off.
pub fn is_disabled(session: &SessionInfo, code: DiagnosticCode) -> (r: bool)
    ensures
        r == session.disabled().contains(code),
{
    let mut i: usize = 0;
    while i < session.disabled_codes.len()
        invariant
            i <= session.disabled_codes.len(),
            forall|j: int| 0 <= j < i ==> session.disabled_codes@[j] != code,
        decreases session.disabled_codes.len() - i,
    {
        if session.disabled_codes[i] == code {
            return true;
        }
        i = i + 1;
    }
    false
}

/// A diagnostic for `code` that is still to be given its place, unless the
/// configuration switches the code off.
pub fn create_diagnostic(session: &SessionInfo, code: DiagnosticCode, args: Vec<String>) -> (r:
    Option<Diagnostic>)
    ensures
        r is Some == !session.disabled().contains(code),
        r is Some ==> r->0.code == code && r->0.args == args,
{
    if is_disabled(session, code) {
        return None;
    }
    let zero = Position { line: 0, character: 0 };
    Some(Diagnostic { code, args, range: Range { start: zero, end: zero } })
}

/// Appends a diagnostic at the byte offsets `range`, unless its code is switched off.
pub fn report(
    session: &SessionInfo,
    diagnostics: &mut Vec<Diagnostic>,
    code: DiagnosticCode,
    args: Vec<String>,
    range: &std::ops::Range<usize>,
)
    ensures
        diagnostic_views(final(diagnostics)@) == reported(
            session.disabled(),
            diagnostic_views(old(diagnostics)@),
            code,
            texts(args@),
            offsets(range.start, range.end),
        ),
{
    if let Some(mut diagnostic) = create_diagnostic(session, code, args) {
        diagnostic.range = offset_range(range);
        diagnostics.push(diagnostic);
        assert(diagnostic_views(diagnostics@) =~= diagnostic_views(old(diagnostics)@).push(
            diagnostic@,
        ));
    }
}

/// No names for a message to speak of.
pub fn no_args() -> (r: Vec<String>)
    ensures
        texts(r@) == Seq::<Seq<char>>::empty(),
{
    let r: Vec<String> = Vec::new();
    assert(texts(r@) =~= Seq::empty());
    r
}

/// One name for a message to speak of.
pub fn one_arg(a: &str) -> (r: Vec<String>)
    ensures
        texts(r@) == seq![a@],
{
    let r: Vec<String> = vec![a.to_owned()];
    assert(texts(r@) =~= seq![a@]);
    r
}

/// Two names for a message to speak of.
pub fn two_args(a: &str, b: &str) -> (r: Vec<String>)
    ensures
        texts(r@) == seq![a@, b@],
{
    let r: Vec<String> = vec![a.to_owned(), b.to_owned()];
    assert(texts(r@) =~= seq![a@, b@]);
    r
}

} // verus!
