use crate::syntax::{Point, Span, SyntaxNode};
use crate::text::{byte_slice, slice_bytes};
use vstd::string::StringExecFns;
use vstd::prelude::*;

verus! {

broadcast use vstd::std_specs::vec::axiom_vec_index_decreases;

/// A place in a document as an editor counts it: line and character.
#[derive(Clone, Copy, Debug, PartialEq, Eq, Structural)]
pub struct Position {
    pub line: u32,
    pub character: u32,
}

/// A stretch of a document between two positions.
#[derive(Clone, Copy, Debug, PartialEq, Eq, Structural)]
pub struct Range {
    pub start: Position,
    pub end: Position,
}

/// How grave a diagnostic is.
#[derive(Clone, Copy, Debug, PartialEq, Eq, Structural)]
pub enum Severity {
    Error,
    Warning,
    Information,
    Hint,
}

/// One finding about a document.
#[derive(Debug)]
pub struct Diagnostic {
    pub range: Range,
    pub severity: Severity,
    /// The pass that made the finding.
    pub source: String,
    pub message: String,
}

/// A diagnostic with its texts as sequences of characters.
pub struct DiagnosticView {
    pub range: Range,
    pub severity: Severity,
    pub source: Seq<char>,
    pub message: Seq<char>,
}

impl View for Diagnostic {
    type V = DiagnosticView;

    open spec fn view(&self) -> DiagnosticView {
        DiagnosticView {
            range: self.range,
            severity: self.severity,
            source: self.source@,
            message: self.message@,
        }
    }
}

/// The views of a list of diagnostics.
pub open spec fn diag_views(v: Seq<Diagnostic>) -> Seq<DiagnosticView> {
    v.map_values(|d: Diagnostic| d@)
}

/// Which passes report.
#[derive(Clone, Copy, Debug, PartialEq, Eq, Structural)]
pub struct DiagnosticsOptions {
    pub syntax: bool,
    pub undefined: bool,
}

impl Default for DiagnosticsOptions {
    fn default() -> (r: Self)
        ensures
            r.syntax,
            r.undefined,
    {
        DiagnosticsOptions { syntax: true, undefined: true }
    }
}

/// The position that stands for `point`, each part cut to 32 bits.
pub open spec fn position_of(point: Point) -> Position {
    Position { line: point.row as u32, character: point.column as u32 }
}

/// The range between the two ends of `span`.
pub open spec fn range_of(span: Span) -> Range {
    Range { start: position_of(span.start_point), end: position_of(span.end_point) }
}

/// The editor's position for a point of the tree.
pub fn to_position(point: &Point) -> (r: Position)
    ensures
        r == position_of(*point),
{
    Position {
        line: #[verifier::truncate]
        (point.row as u32),
        character: #[verifier::truncate]
        (point.column as u32),
    }
}

/// The tree's point for a position of the editor.
pub fn to_point(position: &Position) -> (r: Point)
    ensures
        r.row == position.line,
        r.column == position.character,
{
    Point { row: position.line as usize, column: position.character as usize }
}

/// The editor's range for a span of the tree.
pub fn to_range(span: &Span) -> (r: Range)
    ensures
        r == range_of(*span),
{
    Range { start: to_position(&span.start_point), end: to_position(&span.end_point) }
}


/// The diagnostic for the node `node` where the parser put it in for
/// something that the text lacks: it says what the parser prints for the
/// node, without the brackets around it.
pub open spec fn missing_diag(node: SyntaxNode) -> Option<DiagnosticView> {
    match node.missing {
        Some(sexp) => match byte_slice(sexp@, 1, vstd::utf8::encode_utf8(sexp@).len() - 1) {
            Some(message) => Some(
                DiagnosticView {
                    range: range_of(node.span),
                    severity: Severity::Error,
                    source: "ts"@,
                    message,
                },
            ),
            None => None,
        },
        None => None,
    }
}

/// The diagnostic for the node `node` where it holds text that the parser
/// could not place: it shows that text.
pub open spec fn error_diag(node: SyntaxNode, content: Seq<char>) -> Option<DiagnosticView> {
    if node.kind@ == "ERROR"@ {
        match node.text_in(content) {
            Some(text) => Some(
                DiagnosticView {
                    range: range_of(node.span),
                    severity: Severity::Error,
                    source: "ts"@,
                    message: "UNEXPECTED: "@ + text,
                },
            ),
            None => None,
        }
    } else {
        None
    }
}

/// A sequence of the diagnostic where there is one, else of none.
pub open spec fn maybe(d: Option<DiagnosticView>) -> Seq<DiagnosticView> {
    match d {
        Some(d) => seq![d],
        None => Seq::empty(),
    }
}

/// The diagnostics of the first `n` children of `node` and below them, for
/// what is missing (`missing`) or for what could not be placed.
pub open spec fn tree_diags_upto(node: SyntaxNode, content: Seq<char>, missing: bool, n: nat) -> Seq<
    DiagnosticView,
>
    decreases node, 0nat, n,
{
    if n == 0 || n > node.children@.len() {
        Seq::empty()
    } else {
        tree_diags_upto(node, content, missing, (n - 1) as nat) + tree_diags(
            node.children@[n - 1],
            content,
            missing,
        )
    }
}

/// The diagnostics at and below `node`, in the order of the text, for what
/// is missing (`missing`) or for what could not be placed.
pub open spec fn tree_diags(node: SyntaxNode, content: Seq<char>, missing: bool) -> Seq<
    DiagnosticView,
>
    decreases node, 1nat, 0nat,
{
    maybe(
        if missing {
            missing_diag(node)
        } else {
            error_diag(node, content)
        },
    ) + tree_diags_upto(node, content, missing, node.children@.len())
}

/// The diagnostic for one node.
fn diagnose(node: &SyntaxNode, content: &str, missing: bool) -> (r: Option<Diagnostic>)
    ensures
        match (r, if missing {
            missing_diag(*node)
        } else {
            error_diag(*node, content@)
        }) {
            (Some(d), Some(v)) => d@ == v,
            (None, None) => true,
            _ => false,
        },
{
    let message = if missing {
        match &node.missing {
            Some(sexp) => {
                let total = sexp.as_str().as_bytes().len();
                if total == 0 {
                    return None;
                }
                match slice_bytes(sexp.as_str(), 1, total - 1) {
                    Some(m) => m.to_owned(),
                    None => {
                        return None;
                    },
                }
            },
            None => {
                return None;
            },
        }
    } else {
        if !node.is("ERROR") {
            return None;
        }
        match node.text(content) {
            Some(text) => {
                let mut m = String::from_str("UNEXPECTED: ");
                m.append(text);
                m
            },
            None => {
                return None;
            },
        }
    };
    Some(
        Diagnostic {
            range: to_range(&node.span),
            severity: Severity::Error,
            source: String::from_str("ts"),
            message,
        },
    )
}

/// Adds the diagnostics at and below `node`.
fn collect(node: &SyntaxNode, content: &str, missing: bool, diagnostics: &mut Vec<Diagnostic>)
    ensures
        diag_views(final(diagnostics)@) == diag_views(old(diagnostics)@) + tree_diags(
            *node,
            content@,
            missing,
        ),
    decreases node,
{
    let ghost start = diag_views(diagnostics@);
    if let Some(d) = diagnose(node, content, missing) {
        let ghost v = d@;
        diagnostics.push(d);
        assert(diag_views(diagnostics@) =~= start.push(v));
    }
    let ghost head = diag_views(diagnostics@);
    let mut i: usize = 0;
    assert(head =~= head + tree_diags_upto(*node, content@, missing, 0));
    while i < node.children.len()
        invariant
            i <= node.children.len(),
            diag_views(diagnostics@) == head + tree_diags_upto(*node, content@, missing, i as nat),
        decreases node.children.len() - i,
    {
        collect(&node.children[i], content, missing, diagnostics);
        assert(diag_views(diagnostics@) =~= head + tree_diags_upto(
            *node,
            content@,
            missing,
            (i + 1) as nat,
        ));
        i += 1;
    }
    assert(diag_views(diagnostics@) =~= start + tree_diags(*node, content@, missing));
}

/// The diagnostics of the syntax of a document: first one for each place
/// where the text lacks something, then one for each stretch of text that
/// could not be placed; each group in the order of the text.
pub fn syntax(node: &SyntaxNode, content: &str) -> (diagnostics: Vec<Diagnostic>)
    ensures
        diag_views(diagnostics@) == tree_diags(*node, content@, true) + tree_diags(
            *node,
            content@,
            false,
        ),
{
    let mut diagnostics: Vec<Diagnostic> = Vec::new();
    assert(diag_views(diagnostics@) =~= Seq::<DiagnosticView>::empty());
    collect(node, content, true, &mut diagnostics);
    collect(node, content, false, &mut diagnostics);
    assert(diag_views(diagnostics@) =~= tree_diags(*node, content@, true) + tree_diags(
        *node,
        content@,
        false,
    ));
    diagnostics
}

} // verus!
