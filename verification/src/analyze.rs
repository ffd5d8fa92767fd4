use crate::diagnostics::{diag_views, range_of, to_range, Diagnostic, DiagnosticView, Severity};
use crate::names::NameSet;
use crate::php_namespace::{lemma_to_set_push, segments_of, views, SegmentPool};
use crate::scope::{is_superglobal, superglobals, Scope};
use crate::syntax::SyntaxNode;
use crate::text::ends_with;
use vstd::prelude::*;
use vstd::string::StringExecFns;

verus! {

broadcast use vstd::std_specs::vec::axiom_vec_index_decreases;

/// What a walk over a piece of code leaves behind: the names bound after it
/// and the diagnostics it gave, in order.
pub struct Flow {
    pub symbols: Set<Seq<char>>,
    pub diags: Seq<DiagnosticView>,
}

/// A walk that binds nothing and reports nothing.
pub open spec fn idle(symbols: Set<Seq<char>>) -> Flow {
    Flow { symbols, diags: Seq::empty() }
}

/// Two walks one after the other, the second told as it runs on what the
/// first has bound.
pub open spec fn chain(first: Flow, second: Flow) -> Flow {
    Flow { symbols: second.symbols, diags: first.diags + second.diags }
}

/// Two walks side by side, each on its own copy of the scope, merged.
pub open spec fn join(one: Flow, other: Flow) -> Flow {
    Flow { symbols: one.symbols.union(other.symbols), diags: one.diags + other.diags }
}

/// `symbols` with each of `names` bound.
pub open spec fn with_names(symbols: Set<Seq<char>>, names: Seq<Seq<char>>) -> Set<Seq<char>> {
    symbols.union(names.to_set())
}

/// `symbols` with `name` bound, where there is one.
pub open spec fn with_name(symbols: Set<Seq<char>>, name: Option<Seq<char>>) -> Set<Seq<char>> {
    match name {
        Some(n) => symbols.insert(n),
        None => symbols,
    }
}

/// Binding the names of a sequence of at most one name binds that name.
pub proof fn lemma_with_seq_of(symbols: Set<Seq<char>>, name: Option<Seq<char>>)
    ensures
        with_names(symbols, seq_of(name)) == with_name(symbols, name),
{
    match name {
        Some(n) => {
            assert(seq![n][0] == n);
            assert(seq![n].to_set() =~= Set::<Seq<char>>::empty().insert(n));
        },
        None => {
            assert(Seq::<Seq<char>>::empty().to_set() =~= Set::<Seq<char>>::empty());
        },
    }
    assert(with_names(symbols, seq_of(name)) =~= with_name(symbols, name));
}

/// A sequence of one element where there is one, else of none.
pub open spec fn seq_of<A>(item: Option<A>) -> Seq<A> {
    match item {
        Some(a) => seq![a],
        None => Seq::empty(),
    }
}

/// The diagnostic for a read of the unbound variable `name` at `node`.
pub open spec fn undefined_variable(node: SyntaxNode, name: Seq<char>) -> DiagnosticView {
    DiagnosticView {
        range: range_of(node.span),
        severity: Severity::Error,
        source: "undef"@,
        message: "undefined variable "@ + name,
    }
}

/// The diagnostic for a parameter at `node` that is named like the
/// superglobal `name`.
pub open spec fn shadowed_superglobal(node: SyntaxNode, name: Seq<char>) -> DiagnosticView {
    DiagnosticView {
        range: range_of(node.span),
        severity: Severity::Error,
        source: "superglobal"@,
        message: "superglobal "@ + name + " cannot be shadowed"@,
    }
}

/// The diagnostic for the `use` clause at `node` that gives the alias
/// `alias` a second time.
pub open spec fn duplicate_alias(node: SyntaxNode, alias: Seq<char>) -> DiagnosticView {
    DiagnosticView {
        range: range_of(node.span),
        severity: Severity::Error,
        source: "dupe"@,
        message: "namespace alias "@ + alias + " already declared"@,
    }
}

fn report_undefined(node: &SyntaxNode, name: &str) -> (d: Diagnostic)
    ensures
        d@ == undefined_variable(*node, name@),
{
    let mut message = String::from_str("undefined variable ");
    message.append(name);
    Diagnostic {
        range: to_range(&node.span),
        severity: Severity::Error,
        source: String::from_str("undef"),
        message,
    }
}

fn report_superglobal(node: &SyntaxNode, name: &str) -> (d: Diagnostic)
    ensures
        d@ == shadowed_superglobal(*node, name@),
{
    let mut message = String::from_str("superglobal ");
    message.append(name);
    message.append(" cannot be shadowed");
    Diagnostic {
        range: to_range(&node.span),
        severity: Severity::Error,
        source: String::from_str("superglobal"),
        message,
    }
}

fn report_duplicate(node: &SyntaxNode, alias: &str) -> (d: Diagnostic)
    ensures
        d@ == duplicate_alias(*node, alias@),
{
    let mut message = String::from_str("namespace alias ");
    message.append(alias);
    message.append(" already declared");
    Diagnostic {
        range: to_range(&node.span),
        severity: Severity::Error,
        source: String::from_str("dupe"),
        message,
    }
}

/// Appends one diagnostic.
fn emit(diagnostics: &mut Vec<Diagnostic>, d: Diagnostic)
    ensures
        diag_views(final(diagnostics)@) == diag_views(old(diagnostics)@).push(d@),
{
    diagnostics.push(d);
    assert(diag_views(diagnostics@) =~= diag_views(old(diagnostics)@).push(d@));
}

/// Binds each of `names` in `symbols`.
fn bind_all(symbols: &mut NameSet, names: Vec<String>)
    ensures
        final(symbols)@ == with_names(old(symbols)@, views(names@)),
{
    let mut i: usize = 0;
    while i < names.len()
        invariant
            i <= names.len(),
            symbols@ == with_names(old(symbols)@, views(names@).take(i as int)),
        decreases names.len() - i,
    {
        symbols.insert(names[i].clone());
        proof {
            let t0 = views(names@).take(i as int);
            assert(views(names@).take(i as int + 1) =~= t0.push(names@[i as int]@));
            lemma_to_set_push(t0, names@[i as int]@);
            assert(symbols@ =~= with_names(old(symbols)@, views(names@).take(i as int + 1)));
        }
        i += 1;
    }
    assert(views(names@).take(names.len() as int) =~= views(names@));
}

/// The node that names the parameter `param`.
pub open spec fn param_name_node(param: SyntaxNode) -> Option<SyntaxNode> {
    param.field_child("name"@)
}

/// The name of the parameter `param`.
pub open spec fn param_name(param: SyntaxNode, content: Seq<char>) -> Option<Seq<char>> {
    match param_name_node(param) {
        Some(n) => n.text_in(content),
        None => None,
    }
}

/// The diagnostic that the parameter `param` gives: one where it is named
/// like a superglobal.
pub open spec fn param_diag(param: SyntaxNode, content: Seq<char>) -> Option<DiagnosticView> {
    match param_name(param, content) {
        Some(name) => if superglobals().contains(name) {
            Some(shadowed_superglobal(param_name_node(param).unwrap(), name))
        } else {
            None
        },
        None => None,
    }
}

/// The names of the first `n` parameters in the list `params`.
pub open spec fn param_names(params: SyntaxNode, content: Seq<char>, n: nat) -> Seq<Seq<char>>
    decreases n,
{
    if n == 0 || n > params.children@.len() {
        Seq::empty()
    } else {
        param_names(params, content, (n - 1) as nat) + seq_of(
            param_name(params.children@[n - 1], content),
        )
    }
}

/// The diagnostics that the first `n` parameters in the list `params` give.
pub open spec fn param_diags(params: SyntaxNode, content: Seq<char>, n: nat) -> Seq<
    DiagnosticView,
>
    decreases n,
{
    if n == 0 || n > params.children@.len() {
        Seq::empty()
    } else {
        param_diags(params, content, (n - 1) as nat) + seq_of(
            param_diag(params.children@[n - 1], content),
        )
    }
}

/// All the names that the parameter list `params` declares.
pub open spec fn all_param_names(params: Option<SyntaxNode>, content: Seq<char>) -> Seq<
    Seq<char>,
> {
    match params {
        Some(p) => param_names(p, content, p.children@.len()),
        None => Seq::empty(),
    }
}

/// All the diagnostics that the parameter list `params` gives.
pub open spec fn all_param_diags(params: Option<SyntaxNode>, content: Seq<char>) -> Seq<
    DiagnosticView,
> {
    match params {
        Some(p) => param_diags(p, content, p.children@.len()),
        None => Seq::empty(),
    }
}

/// The names that a parameter list declares; a parameter named like a
/// superglobal is reported, and declared all the same.
pub fn function_parameters(
    params: &SyntaxNode,
    content: &str,
    diagnostics: &mut Vec<Diagnostic>,
) -> (symbols: Vec<String>)
    ensures
        views(symbols@) == all_param_names(Some(*params), content@),
        diag_views(final(diagnostics)@) == diag_views(old(diagnostics)@) + all_param_diags(
            Some(*params),
            content@,
        ),
{
    let mut symbols: Vec<String> = Vec::new();
    let mut i: usize = 0;
    assert(diag_views(diagnostics@) =~= diag_views(old(diagnostics)@) + param_diags(
        *params,
        content@,
        0,
    ));
    assert(views(symbols@) =~= param_names(*params, content@, 0));
    while i < params.children.len()
        invariant
            i <= params.children.len(),
            views(symbols@) == param_names(*params, content@, i as nat),
            diag_views(diagnostics@) == diag_views(old(diagnostics)@) + param_diags(
                *params,
                content@,
                i as nat,
            ),
        decreases params.children.len() - i,
    {
        let child = &params.children[i];
        let ghost names0 = views(symbols@);
        let ghost diags0 = diag_views(diagnostics@);
        if let Some(name_node) = child.child_by_field_name("name") {
            if let Some(name) = name_node.text(content) {
                symbols.push(name.to_owned());
                assert(views(symbols@) =~= names0.push(name@));
                if is_superglobal(name) {
                    emit(diagnostics, report_superglobal(name_node, name));
                }
            }
        }
        proof {
            assert(views(symbols@) =~= names0 + seq_of(param_name(*child, content@)));
            assert(diag_views(diagnostics@) =~= diags0 + seq_of(param_diag(*child, content@)));
            assert(diag_views(diagnostics@) =~= diag_views(old(diagnostics)@) + param_diags(
                *params,
                content@,
                (i + 1) as nat,
            ));
        }
        i += 1;
    }
    symbols
}

/// The name that the node `item` of a list pattern binds.
pub open spec fn listed_name(item: SyntaxNode, content: Seq<char>) -> Option<Seq<char>> {
    if item.kind@ == "variable_name"@ {
        item.text_in(content)
    } else {
        None
    }
}

/// The names that the first `n` items of the list pattern `list` bind.
pub open spec fn listed_names(list: SyntaxNode, content: Seq<char>, n: nat) -> Seq<Seq<char>>
    decreases n,
{
    if n == 0 || n > list.children@.len() {
        Seq::empty()
    } else {
        listed_names(list, content, (n - 1) as nat) + seq_of(
            listed_name(list.children@[n - 1], content),
        )
    }
}

/// The names that an assignment to `left` binds: the variable itself, or
/// each variable of a list pattern.
pub open spec fn target_names(left: SyntaxNode, content: Seq<char>) -> Seq<Seq<char>> {
    if left.kind@ == "variable_name"@ {
        seq_of(left.text_in(content))
    } else if left.kind@ == "list_literal"@ {
        listed_names(left, content, left.children@.len())
    } else {
        Seq::empty()
    }
}

/// The names that an assignment to `left` binds.
pub fn expression_left(left: &SyntaxNode, content: &str) -> (names: Vec<String>)
    ensures
        views(names@) == target_names(*left, content@),
{
    let mut names: Vec<String> = Vec::new();
    assert(views(names@) =~= Seq::<Seq<char>>::empty());
    if left.is("variable_name") {
        if let Some(name) = left.text(content) {
            names.push(name.to_owned());
            assert(views(names@) =~= seq![name@]);
        }
    } else if left.is("list_literal") {
        let mut i: usize = 0;
        while i < left.children.len()
            invariant
                i <= left.children.len(),
                views(names@) == listed_names(*left, content@, i as nat),
            decreases left.children.len() - i,
        {
            let item = &left.children[i];
            let ghost names0 = views(names@);
            if item.is("variable_name") {
                if let Some(name) = item.text(content) {
                    names.push(name.to_owned());
                    assert(views(names@) =~= names0.push(name@));
                }
            }
            assert(views(names@) =~= names0 + seq_of(listed_name(*item, content@)));
            i += 1;
        }
    }
    names
}


/// The name that the node `target` of a loop header binds: the variable
/// itself, or the variable that is taken by reference.
pub open spec fn bound_name(target: SyntaxNode, content: Seq<char>) -> Option<Seq<char>> {
    if target.kind@ == "variable_name"@ {
        target.text_in(content)
    } else if target.kind@ == "by_ref"@ {
        match target.child_at(1) {
            Some(v) => v.text_in(content),
            None => None,
        }
    } else {
        None
    }
}

/// The names that the first `n` children of `holder` bind.
pub open spec fn bound_names(holder: SyntaxNode, content: Seq<char>, n: nat) -> Seq<Seq<char>>
    decreases n,
{
    if n == 0 || n > holder.children@.len() {
        Seq::empty()
    } else {
        bound_names(holder, content, (n - 1) as nat) + seq_of(
            bound_name(holder.children@[n - 1], content),
        )
    }
}

/// The names that a `foreach` header binds through `target`: a variable, a
/// variable taken by reference, or the key and the value of a pair.
pub open spec fn loop_names(target: Option<SyntaxNode>, content: Seq<char>) -> Seq<Seq<char>> {
    match target {
        Some(t) => if t.kind@ == "pair"@ {
            bound_names(t, content, t.children@.len())
        } else {
            seq_of(bound_name(t, content))
        },
        None => Seq::empty(),
    }
}

/// Whether `i` is the first child of `node` of the kind `kind`.
pub open spec fn first_of_kind(node: SyntaxNode, kind: Seq<char>, i: int) -> bool {
    &&& 0 <= i < node.children@.len()
    &&& node.children@[i].kind@ == kind
    &&& forall|j: int| 0 <= j < i ==> (#[trigger] node.children@[j]).kind@ != kind
}

/// The first child of `node` of the kind `kind`.
pub open spec fn child_of_kind(node: SyntaxNode, kind: Seq<char>) -> Option<SyntaxNode> {
    if exists|i: int| first_of_kind(node, kind, i) {
        Some(node.children@[choose|i: int| first_of_kind(node, kind, i)])
    } else {
        None
    }
}

/// The names bound inside an anonymous function: the superglobals, its
/// parameters, and what its `use` clause captures. Nothing else of the
/// enclosing scope is seen.
pub open spec fn closure_symbols(node: SyntaxNode, content: Seq<char>) -> Set<Seq<char>> {
    with_names(
        with_names(superglobals(), all_param_names(node.field_child("parameters"@), content)),
        match child_of_kind(node, "anonymous_function_use_clause"@) {
            Some(u) => bound_names(u, content, u.children@.len()),
            None => Seq::empty(),
        },
    )
}

/// The diagnostics of the reads in the expression `node`: one for each
/// variable that `symbols` does not bind. The operands of an expression are
/// taken from the last to the first. An arrow function sees `symbols` and its
/// parameters; an anonymous function sees what `closure_symbols` gives, and
/// its `use` clause reads from `symbols` after its body was walked.
pub open spec fn expr_reads(node: SyntaxNode, content: Seq<char>, symbols: Set<Seq<char>>) -> Seq<
    DiagnosticView,
>
    decreases node, 3nat, 0nat,
{
    if node.kind@ == "variable_name"@ {
        match node.text_in(content) {
            Some(name) => if symbols.contains(name) {
                Seq::empty()
            } else {
                seq![undefined_variable(node, name)]
            },
            None => Seq::empty(),
        }
    } else if node.kind@ == "arrow_function"@ {
        let params = node.field_child("parameters"@);
        let inner = with_names(symbols, all_param_names(params, content));
        all_param_diags(params, content) + match node.field_child("body"@) {
            Some(b) => expr_flow(b, content, inner).diags,
            None => Seq::empty(),
        }
    } else if node.kind@ == "anonymous_function"@ {
        let params = node.field_child("parameters"@);
        let inner = closure_symbols(node, content);
        all_param_diags(params, content) + match node.field_child("body"@) {
            Some(b) => stmt_flow(b, content, inner).diags,
            None => Seq::empty(),
        } + match child_of_kind(node, "anonymous_function_use_clause"@) {
            Some(u) => expr_reads(u, content, symbols),
            None => Seq::empty(),
        }
    } else {
        reads_from(node, content, symbols, 0)
    }
}

/// The diagnostics of the reads in the children of `node` from place `i` on,
/// the last child first.
pub open spec fn reads_from(
    node: SyntaxNode,
    content: Seq<char>,
    symbols: Set<Seq<char>>,
    i: nat,
) -> Seq<DiagnosticView>
    decreases node, 2nat, node.children@.len() - i,
{
    if i >= node.children@.len() {
        Seq::empty()
    } else {
        reads_from(node, content, symbols, i + 1) + expr_reads(
            node.children@[i as int],
            content,
            symbols,
        )
    }
}

/// The walk over the expression `node`. An assignment binds its targets
/// after its right side was read; parentheses are looked through; every
/// other expression only reads.
pub open spec fn expr_flow(node: SyntaxNode, content: Seq<char>, symbols: Set<Seq<char>>) -> Flow
    decreases node, 5nat, 0nat,
{
    if "assignment_expression"@.is_suffix_of(node.kind@) {
        assign_flow(node, content, symbols)
    } else if node.kind@ == "parenthesized_expression"@ {
        match node.child_at(1) {
            Some(e) => expr_flow(e, content, symbols),
            None => Flow { symbols, diags: expr_reads(node, content, symbols) },
        }
    } else {
        Flow { symbols, diags: expr_reads(node, content, symbols) }
    }
}

/// The walk over the assignment `node`: the right side is walked on the old
/// bindings, then the targets on the left are bound.
pub open spec fn assign_flow(node: SyntaxNode, content: Seq<char>, symbols: Set<Seq<char>>) -> Flow
    decreases node, 4nat, 0nat,
{
    match (node.field_child("left"@), node.field_child("right"@)) {
        (Some(left), Some(right)) => {
            let f = expr_flow(right, content, symbols);
            Flow { symbols: with_names(f.symbols, target_names(left, content)), diags: f.diags }
        },
        _ => idle(symbols),
    }
}

/// The walk over the statement `node`.
pub open spec fn stmt_flow(node: SyntaxNode, content: Seq<char>, symbols: Set<Seq<char>>) -> Flow
    decreases node, 5nat, 0nat,
{
    if node.kind@ == "compound_statement"@ {
        stmts_upto(node, content, symbols, node.children@.len())
    } else if node.kind@ == "expression_statement"@ {
        match node.child_at(0) {
            Some(e) => expr_flow(e, content, symbols),
            None => idle(symbols),
        }
    } else if node.kind@ == "if_statement"@ {
        if_flow(node, content, symbols)
    } else if node.kind@ == "for_statement"@ {
        for_flow(node, content, symbols)
    } else if node.kind@ == "foreach_statement"@ {
        foreach_flow(node, content, symbols)
    } else if node.kind@ == "while_statement"@ {
        while_flow(node, content, symbols)
    } else if node.kind@ == "do_statement"@ {
        do_flow(node, content, symbols)
    } else if node.kind@ == "switch_statement"@ {
        switch_flow(node, content, symbols)
    } else if node.kind@ == "echo_statement"@ {
        exprs_upto(node, content, symbols, node.children@.len())
    } else {
        idle(symbols)
    }
}

/// The walk over the first `n` children of `node` as statements, in order.
pub open spec fn stmts_upto(
    node: SyntaxNode,
    content: Seq<char>,
    symbols: Set<Seq<char>>,
    n: nat,
) -> Flow
    decreases node, 2nat, n,
{
    if n == 0 || n > node.children@.len() {
        idle(symbols)
    } else {
        let f = stmts_upto(node, content, symbols, (n - 1) as nat);
        chain(f, stmt_flow(node.children@[n - 1], content, f.symbols))
    }
}

/// The walk over the first `n` children of `node` as expressions, in order.
pub open spec fn exprs_upto(
    node: SyntaxNode,
    content: Seq<char>,
    symbols: Set<Seq<char>>,
    n: nat,
) -> Flow
    decreases node, 2nat, n,
{
    if n == 0 || n > node.children@.len() {
        idle(symbols)
    } else {
        let f = exprs_upto(node, content, symbols, (n - 1) as nat);
        chain(f, expr_flow(node.children@[n - 1], content, f.symbols))
    }
}

/// The walk over one arm of an `if`: the condition of an `else if`, and the
/// body, each on its own copy of the bindings before the `if`.
pub open spec fn arm_flow(arm: SyntaxNode, content: Seq<char>, symbols: Set<Seq<char>>) -> Flow
    decreases arm, 4nat, 0nat,
{
    let c = if arm.kind@ == "else_if_clause"@ {
        match arm.field_child("condition"@) {
            Some(e) => expr_flow(e, content, symbols),
            None => idle(symbols),
        }
    } else {
        idle(symbols)
    };
    let b = match arm.field_child("body"@) {
        Some(s) => stmt_flow(s, content, symbols),
        None => idle(symbols),
    };
    join(c, b)
}

/// The walk over those of the first `n` children of the `if` statement
/// `node` that are alternatives.
pub open spec fn arms_upto(
    node: SyntaxNode,
    content: Seq<char>,
    symbols: Set<Seq<char>>,
    n: nat,
) -> Flow
    decreases node, 2nat, n,
{
    if n == 0 || n > node.children@.len() {
        idle(symbols)
    } else {
        let f = arms_upto(node, content, symbols, (n - 1) as nat);
        if node.children@[n - 1].in_field("alternative"@) {
            join(f, arm_flow(node.children@[n - 1], content, symbols))
        } else {
            f
        }
    }
}

/// The walk over the `if` statement `node`: the condition, the body and each
/// alternative are walked on copies of the bindings before the statement,
/// and a name is bound afterwards where any of them binds it.
pub open spec fn if_flow(node: SyntaxNode, content: Seq<char>, symbols: Set<Seq<char>>) -> Flow
    decreases node, 4nat, 0nat,
{
    let c = match node.field_child("condition"@) {
        Some(e) => expr_flow(e, content, symbols),
        None => idle(symbols),
    };
    let b = match node.field_child("body"@) {
        Some(s) => stmt_flow(s, content, symbols),
        None => idle(symbols),
    };
    join(join(join(idle(symbols), c), b), arms_upto(node, content, symbols, node.children@.len()))
}

/// The walk over the `for` statement `node`: start, condition, step and
/// body, one after the other on the same bindings.
pub open spec fn for_flow(node: SyntaxNode, content: Seq<char>, symbols: Set<Seq<char>>) -> Flow
    decreases node, 4nat, 0nat,
{
    let a = match node.field_child("initialize"@) {
        Some(e) => expr_flow(e, content, symbols),
        None => idle(symbols),
    };
    let b = match node.field_child("condition"@) {
        Some(e) => expr_flow(e, content, a.symbols),
        None => idle(a.symbols),
    };
    let c = match node.field_child("update"@) {
        Some(e) => expr_flow(e, content, b.symbols),
        None => idle(b.symbols),
    };
    let d = match node.field_child("body"@) {
        Some(s) => stmt_flow(s, content, c.symbols),
        None => idle(c.symbols),
    };
    chain(chain(chain(a, b), c), d)
}

/// The walk over the `foreach` statement `node`: what is iterated is read,
/// the loop's variables are bound, and the body is walked.
pub open spec fn foreach_flow(
    node: SyntaxNode,
    content: Seq<char>,
    symbols: Set<Seq<char>>,
) -> Flow
    decreases node, 4nat, 0nat,
{
    let a = match node.child_at(2) {
        Some(e) => expr_flow(e, content, symbols),
        None => idle(symbols),
    };
    let bound = with_names(a.symbols, loop_names(node.child_at(4), content));
    let b = match node.field_child("body"@) {
        Some(s) => stmt_flow(s, content, bound),
        None => idle(bound),
    };
    chain(a, b)
}

/// The walk over the `while` statement `node`: condition, then body.
pub open spec fn while_flow(node: SyntaxNode, content: Seq<char>, symbols: Set<Seq<char>>) -> Flow
    decreases node, 4nat, 0nat,
{
    let a = match node.field_child("condition"@) {
        Some(e) => expr_flow(e, content, symbols),
        None => idle(symbols),
    };
    let b = match node.field_child("body"@) {
        Some(s) => stmt_flow(s, content, a.symbols),
        None => idle(a.symbols),
    };
    chain(a, b)
}

/// The walk over the `do` statement `node`: body, then condition.
pub open spec fn do_flow(node: SyntaxNode, content: Seq<char>, symbols: Set<Seq<char>>) -> Flow
    decreases node, 4nat, 0nat,
{
    let a = match node.field_child("body"@) {
        Some(s) => stmt_flow(s, content, symbols),
        None => idle(symbols),
    };
    let b = match node.field_child("condition"@) {
        Some(e) => expr_flow(e, content, a.symbols),
        None => idle(a.symbols),
    };
    chain(a, b)
}

/// The walk over one `case` or `default` of a `switch`: its value, then each
/// of its children as a statement.
pub open spec fn case_flow(case: SyntaxNode, content: Seq<char>, symbols: Set<Seq<char>>) -> Flow
    decreases case, 4nat, 0nat,
{
    let a = match case.field_child("value"@) {
        Some(e) => expr_flow(e, content, symbols),
        None => idle(symbols),
    };
    chain(a, stmts_upto(case, content, a.symbols, case.children@.len()))
}

/// The walk over the first `n` children of the `switch` body `block`.
pub open spec fn cases_upto(
    block: SyntaxNode,
    content: Seq<char>,
    symbols: Set<Seq<char>>,
    n: nat,
) -> Flow
    decreases block, 5nat, n,
{
    if n == 0 || n > block.children@.len() {
        idle(symbols)
    } else {
        let f = cases_upto(block, content, symbols, (n - 1) as nat);
        let c = block.children@[n - 1];
        if c.kind@ == "case_statement"@ || c.kind@ == "default_statement"@ {
            chain(f, case_flow(c, content, f.symbols))
        } else {
            f
        }
    }
}

/// The walk over the `switch` statement `node`: its subject, then its cases
/// in order, all on the same bindings.
pub open spec fn switch_flow(
    node: SyntaxNode,
    content: Seq<char>,
    symbols: Set<Seq<char>>,
) -> Flow
    decreases node, 4nat, 0nat,
{
    let a = match node.field_child("condition"@) {
        Some(e) => expr_flow(e, content, symbols),
        None => idle(symbols),
    };
    let b = match node.field_child("body"@) {
        Some(block) => cases_upto(block, content, a.symbols, block.children@.len()),
        None => idle(a.symbols),
    };
    chain(a, b)
}

/// The walk over the declaration `node`.
pub open spec fn decl_flow(node: SyntaxNode, content: Seq<char>, symbols: Set<Seq<char>>) -> Flow
    decreases node, 5nat, 0nat,
{
    if node.kind@ == "class_declaration"@ {
        class_flow(node, content, symbols)
    } else if node.kind@ == "function_definition"@ || node.kind@
        == "function_static_declaration"@ {
        function_flow(node, content, symbols)
    } else if node.kind@ == "method_declaration"@ {
        function_flow(node, content, symbols.insert("$this"@))
    } else {
        idle(symbols)
    }
}

/// The name that the declaration `node` gives.
pub open spec fn declared_name(node: SyntaxNode, content: Seq<char>) -> Option<Seq<char>> {
    match node.field_child("name"@) {
        Some(n) => n.text_in(content),
        None => None,
    }
}

/// The walk over the function or method `node`: its name is bound outside;
/// its body is walked on a copy of the bindings with its parameters added.
pub open spec fn function_flow(
    node: SyntaxNode,
    content: Seq<char>,
    symbols: Set<Seq<char>>,
) -> Flow
    decreases node, 3nat, 0nat,
{
    let outer = with_name(symbols, declared_name(node, content));
    let params = node.field_child("parameters"@);
    let inner = with_names(outer, all_param_names(params, content));
    Flow {
        symbols: outer,
        diags: all_param_diags(params, content) + match node.field_child("body"@) {
            Some(b) => stmt_flow(b, content, inner).diags,
            None => Seq::empty(),
        },
    }
}

/// The diagnostics of the first `n` members of the class body `body`, each
/// walked on its own copy of `symbols`.
pub open spec fn members_upto(
    body: SyntaxNode,
    content: Seq<char>,
    symbols: Set<Seq<char>>,
    n: nat,
) -> Seq<DiagnosticView>
    decreases body, 6nat, n,
{
    if n == 0 || n > body.children@.len() {
        Seq::empty()
    } else {
        members_upto(body, content, symbols, (n - 1) as nat) + decl_flow(
            body.children@[n - 1],
            content,
            symbols,
        ).diags
    }
}

/// The walk over the class `node`: its name is bound; each member is walked
/// on its own copy of the bindings, with `self` added.
pub open spec fn class_flow(node: SyntaxNode, content: Seq<char>, symbols: Set<Seq<char>>) -> Flow
    decreases node, 4nat, 0nat,
{
    let outer = with_name(symbols, declared_name(node, content));
    Flow {
        symbols: outer,
        diags: match node.field_child("body"@) {
            Some(body) => if body.kind@ == "declaration_list"@ {
                members_upto(body, content, outer.insert("self"@), body.children@.len())
            } else {
                Seq::empty()
            },
            None => Seq::empty(),
        },
    }
}


/// Whether a walk that began with `before` and `diags0` and ended with
/// `after` and `diags1` did what `flow` says, and left the namespace and the
/// aliases alone.
pub open spec fn walked(
    before: Scope,
    after: Scope,
    diags0: Seq<Diagnostic>,
    diags1: Seq<Diagnostic>,
    flow: Flow,
) -> bool {
    &&& after.namespace() == before.namespace()
    &&& after.aliases() == before.aliases()
    &&& after.symbols@ == flow.symbols
    &&& diag_views(diags1) == diag_views(diags0) + flow.diags
}

/// The first child of `node` of the kind `kind`.
pub fn first_child_of_kind<'a>(node: &'a SyntaxNode, kind: &str) -> (r: Option<&'a SyntaxNode>)
    ensures
        match r {
            Some(c) => child_of_kind(*node, kind@) == Some(*c),
            None => child_of_kind(*node, kind@) is None,
        },
{
    let mut i: usize = 0;
    while i < node.children.len()
        invariant
            i <= node.children.len(),
            forall|j: int| 0 <= j < i ==> (#[trigger] node.children@[j]).kind@ != kind@,
        decreases node.children.len() - i,
    {
        if node.children[i].is(kind) {
            proof {
                assert(first_of_kind(*node, kind@, i as int));
                let k = choose|k: int| first_of_kind(*node, kind@, k);
                assert(k == i) by {
                    if k < i {
                        assert(node.children@[k].kind@ != kind@);
                    } else if i < k {
                        assert(node.children@[i as int].kind@ != kind@);
                    }
                }
            }
            return Some(&node.children[i]);
        }
        i += 1;
    }
    proof {
        assert forall|k: int| !first_of_kind(*node, kind@, k) by {
            if first_of_kind(*node, kind@, k) {
                assert(node.children@[k].kind@ != kind@);
            }
        }
    }
    None
}

/// The name that a node of a loop header binds.
fn bound_in(target: &SyntaxNode, content: &str) -> (name: Option<String>)
    ensures
        match name {
            Some(n) => bound_name(*target, content@) == Some(n@),
            None => bound_name(*target, content@) is None,
        },
{
    if target.is("variable_name") {
        match target.text(content) {
            Some(t) => Some(t.to_owned()),
            None => None,
        }
    } else if target.is("by_ref") {
        match target.child(1) {
            Some(v) => match v.text(content) {
                Some(t) => Some(t.to_owned()),
                None => None,
            },
            None => None,
        }
    } else {
        None
    }
}

/// The names that the children of `holder` bind.
fn bound_among(holder: &SyntaxNode, content: &str) -> (names: Vec<String>)
    ensures
        views(names@) == bound_names(*holder, content@, holder.children@.len()),
{
    let mut names: Vec<String> = Vec::new();
    assert(views(names@) =~= Seq::<Seq<char>>::empty());
    let mut i: usize = 0;
    while i < holder.children.len()
        invariant
            i <= holder.children.len(),
            views(names@) == bound_names(*holder, content@, i as nat),
        decreases holder.children.len() - i,
    {
        let ghost names0 = views(names@);
        if let Some(name) = bound_in(&holder.children[i], content) {
            let ghost n = name@;
            names.push(name);
            assert(views(names@) =~= names0.push(n));
        }
        assert(views(names@) =~= names0 + seq_of(bound_name(holder.children@[i as int], content@)));
        i += 1;
    }
    names
}

/// Reports each read in the expression `right` of a variable that `scope`
/// does not bind.
pub fn expression_right(
    right: &SyntaxNode,
    content: &str,
    ns_store: &mut SegmentPool,
    scope: &Scope,
    diagnostics: &mut Vec<Diagnostic>,
)
    ensures
        diag_views(final(diagnostics)@) == diag_views(old(diagnostics)@) + expr_reads(
            *right,
            content@,
            scope.symbols@,
        ),
        *final(ns_store) == *old(ns_store),
    decreases right, 3nat, 0nat,
{
    let ghost d0 = diag_views(diagnostics@);
    let ghost syms = scope.symbols@;
    if right.is("variable_name") {
        if let Some(name) = right.text(content) {
            if !scope.symbols.contains(name) {
                emit(diagnostics, report_undefined(right, name));
            }
        }
        assert(diag_views(diagnostics@) =~= d0 + expr_reads(*right, content@, syms));
    } else if right.is("arrow_function") {
        let mut inner = scope.clone();
        let params = right.child_by_field_name("parameters");
        if let Some(p) = params {
            let names = function_parameters(p, content, diagnostics);
            bind_all(&mut inner.symbols, names);
        }
        assert(inner.symbols@ =~= with_names(
            syms,
            all_param_names(right.field_child("parameters"@), content@),
        ));
        let ghost d1 = diag_views(diagnostics@);
        assert(d1 =~= d0 + all_param_diags(right.field_child("parameters"@), content@));
        if let Some(body) = right.child_by_field_name("body") {
            walk_expression(body, content, ns_store, &mut inner, diagnostics);
        }
        assert(diag_views(diagnostics@) =~= d0 + expr_reads(*right, content@, syms));
    } else if right.is("anonymous_function") {
        let mut inner = scope.clone();
        inner.symbols = Scope::empty().symbols;
        let params = right.child_by_field_name("parameters");
        if let Some(p) = params {
            let names = function_parameters(p, content, diagnostics);
            bind_all(&mut inner.symbols, names);
        }
        let clause = first_child_of_kind(right, "anonymous_function_use_clause");
        if let Some(u) = clause {
            bind_all(&mut inner.symbols, bound_among(u, content));
        }
        assert(inner.symbols@ =~= closure_symbols(*right, content@));
        let ghost d1 = diag_views(diagnostics@);
        assert(d1 =~= d0 + all_param_diags(right.field_child("parameters"@), content@));
        if let Some(body) = right.child_by_field_name("body") {
            walk_statement(body, content, ns_store, &mut inner, diagnostics);
        }
        if let Some(u) = clause {
            expression_right(u, content, ns_store, scope, diagnostics);
        }
        assert(diag_views(diagnostics@) =~= d0 + expr_reads(*right, content@, syms));
    } else {
        let mut i: usize = right.children.len();
        assert(diag_views(diagnostics@) =~= d0 + reads_from(*right, content@, syms, i as nat));
        while i > 0
            invariant
                i <= right.children.len(),
                syms == scope.symbols@,
                diag_views(diagnostics@) == d0 + reads_from(*right, content@, syms, i as nat),
                *ns_store == *old(ns_store),
            decreases i,
        {
            i -= 1;
            expression_right(&right.children[i], content, ns_store, scope, diagnostics);
            assert(diag_views(diagnostics@) =~= d0 + reads_from(*right, content@, syms, i as nat));
        }
    }
}

/// Walks the assignment `assign`: reads its right side, then binds its
/// targets.
pub fn walk_assignment_expression(
    assign: &SyntaxNode,
    content: &str,
    ns_store: &mut SegmentPool,
    scope: &mut Scope,
    diagnostics: &mut Vec<Diagnostic>,
)
    ensures
        walked(
            *old(scope),
            *final(scope),
            old(diagnostics)@,
            final(diagnostics)@,
            assign_flow(*assign, content@, old(scope).symbols@),
        ),
        *final(ns_store) == *old(ns_store),
    decreases assign, 4nat, 0nat,
{
    let left = assign.child_by_field_name("left");
    let right = assign.child_by_field_name("right");
    match (left, right) {
        (Some(left), Some(right)) => {
            let symbols = expression_left(left, content);
            walk_expression(right, content, ns_store, scope, diagnostics);
            bind_all(&mut scope.symbols, symbols);
        },
        _ => {
            assert(diag_views(diagnostics@) =~= diag_views(old(diagnostics)@) + Seq::empty());
        },
    }
}

/// Walks the expression `expression`.
pub fn walk_expression(
    expression: &SyntaxNode,
    content: &str,
    ns_store: &mut SegmentPool,
    scope: &mut Scope,
    diagnostics: &mut Vec<Diagnostic>,
)
    ensures
        walked(
            *old(scope),
            *final(scope),
            old(diagnostics)@,
            final(diagnostics)@,
            expr_flow(*expression, content@, old(scope).symbols@),
        ),
        *final(ns_store) == *old(ns_store),
    decreases expression, 5nat, 0nat,
{
    if ends_with(expression.kind.as_str(), "assignment_expression") {
        walk_assignment_expression(expression, content, ns_store, scope, diagnostics)
    } else if expression.is("parenthesized_expression") {
        match expression.child(1) {
            Some(expr) => walk_expression(expr, content, ns_store, scope, diagnostics),
            None => expression_right(expression, content, ns_store, scope, diagnostics),
        }
    } else {
        expression_right(expression, content, ns_store, scope, diagnostics)
    }
}

/// Walks the `if` statement `stmt`.
pub fn walk_if_statement(
    stmt: &SyntaxNode,
    content: &str,
    ns_store: &mut SegmentPool,
    scope: &mut Scope,
    diagnostics: &mut Vec<Diagnostic>,
)
    ensures
        walked(
            *old(scope),
            *final(scope),
            old(diagnostics)@,
            final(diagnostics)@,
            if_flow(*stmt, content@, old(scope).symbols@),
        ),
        *final(ns_store) == *old(ns_store),
    decreases stmt, 4nat, 0nat,
{
    let ghost s0 = scope.symbols@;
    let ghost d0 = diag_views(diagnostics@);
    let ghost run = idle(s0);
    let base = scope.clone();
    assert(d0 =~= d0 + run.diags);

    if let Some(condition) = stmt.child_by_field_name("condition") {
        let mut s = base.clone();
        walk_expression(condition, content, ns_store, &mut s, diagnostics);
        scope.absorb(s);
    }
    proof {
        let c = match stmt.field_child("condition"@) {
            Some(e) => expr_flow(e, content@, s0),
            None => idle(s0),
        };
        let next = join(run, c);
        assert(scope.symbols@ =~= next.symbols);
        assert(diag_views(diagnostics@) =~= d0 + next.diags);
        assert(scope.aliases() =~= old(scope).aliases());
        run = next;
    }
    if let Some(body) = stmt.child_by_field_name("body") {
        let mut s = base.clone();
        walk_statement(body, content, ns_store, &mut s, diagnostics);
        scope.absorb(s);
    }
    proof {
        let b = match stmt.field_child("body"@) {
            Some(e) => stmt_flow(e, content@, s0),
            None => idle(s0),
        };
        let next = join(run, b);
        assert(scope.symbols@ =~= next.symbols);
        assert(diag_views(diagnostics@) =~= d0 + next.diags);
        assert(scope.aliases() =~= old(scope).aliases());
        run = next;
    }
    let ghost head = run;
    let mut i: usize = 0;
    assert(scope.symbols@ =~= join(head, arms_upto(*stmt, content@, s0, 0)).symbols);
    assert(diag_views(diagnostics@) =~= d0 + join(head, arms_upto(*stmt, content@, s0, 0)).diags);
    while i < stmt.children.len()
        invariant
            i <= stmt.children.len(),
            s0 == old(scope).symbols@,
            d0 == diag_views(old(diagnostics)@),
            s0.subset_of(head.symbols),
            base.symbols@ == s0,
            base.aliases() == old(scope).aliases(),
            base.namespace() == old(scope).namespace(),
            walked(
                *old(scope),
                *scope,
                old(diagnostics)@,
                diagnostics@,
                join(head, arms_upto(*stmt, content@, s0, i as nat)),
            ),
            *ns_store == *old(ns_store),
        decreases stmt.children.len() - i,
    {
        let alt = &stmt.children[i];
        let ghost f = arms_upto(*stmt, content@, s0, i as nat);
        let ghost pre_syms = scope.symbols@;
        let ghost pre_diags = diag_views(diagnostics@);
        let is_alt = match &alt.field {
            Some(name) => crate::text::str_eq(name.as_str(), "alternative"),
            None => false,
        };
        assert(is_alt == alt.in_field("alternative"@));
        if is_alt {
            if alt.is("else_if_clause") {
                if let Some(condition) = alt.child_by_field_name("condition") {
                    let mut s = base.clone();
                    walk_expression(condition, content, ns_store, &mut s, diagnostics);
                    scope.absorb(s);
                }
            }
            let ghost c = if alt.kind@ == "else_if_clause"@ {
                match alt.field_child("condition"@) {
                    Some(e) => expr_flow(e, content@, s0),
                    None => idle(s0),
                }
            } else {
                idle(s0)
            };
            assert(scope.symbols@ =~= pre_syms.union(c.symbols));
            assert(diag_views(diagnostics@) =~= pre_diags + c.diags);
            assert(scope.aliases() =~= old(scope).aliases());
            if let Some(body) = alt.child_by_field_name("body") {
                let mut s = base.clone();
                walk_statement(body, content, ns_store, &mut s, diagnostics);
                scope.absorb(s);
            }
            let ghost b = match alt.field_child("body"@) {
                Some(e) => stmt_flow(e, content@, s0),
                None => idle(s0),
            };
            assert(scope.symbols@ =~= pre_syms.union(c.symbols).union(b.symbols));
            assert(diag_views(diagnostics@) =~= pre_diags + c.diags + b.diags);
            assert(scope.aliases() =~= old(scope).aliases());
            assert(arm_flow(*alt, content@, s0) == join(c, b));
        }
        proof {
            let g = arms_upto(*stmt, content@, s0, (i + 1) as nat);
            assert(g == if alt.in_field("alternative"@) {
                join(f, arm_flow(*alt, content@, s0))
            } else {
                f
            });
            let next = join(head, g);
            assert(scope.symbols@ =~= next.symbols);
            assert(diag_views(diagnostics@) =~= d0 + next.diags);
        }
        i += 1;
    }
}

/// Walks the class `decl`.
pub fn walk_class_declaration(
    decl: &SyntaxNode,
    content: &str,
    ns_store: &mut SegmentPool,
    scope: &mut Scope,
    diagnostics: &mut Vec<Diagnostic>,
)
    ensures
        walked(
            *old(scope),
            *final(scope),
            old(diagnostics)@,
            final(diagnostics)@,
            class_flow(*decl, content@, old(scope).symbols@),
        ),
        *final(ns_store) == *old(ns_store),
    decreases decl, 4nat, 0nat,
{
    let ghost d0 = diag_views(diagnostics@);
    if let Some(name) = decl.child_by_field_name("name") {
        if let Some(text) = name.text(content) {
            scope.symbols.insert(text.to_owned());
        }
    }
    let ghost outer = scope.symbols@;
    assert(d0 =~= d0 + Seq::<DiagnosticView>::empty());
    if let Some(body) = decl.child_by_field_name("body") {
        if body.is("declaration_list") {
            let mut i: usize = 0;
            assert(d0 =~= d0 + members_upto(*body, content@, outer.insert("self"@), 0));
            while i < body.children.len()
                invariant
                    i <= body.children.len(),
                    decl.field_child("body"@) == Some(*body),
                    scope.symbols@ == outer,
                    scope.namespace() == old(scope).namespace(),
                    scope.aliases() == old(scope).aliases(),
                    diag_views(diagnostics@) == d0 + members_upto(
                        *body,
                        content@,
                        outer.insert("self"@),
                        i as nat,
                    ),
                    *ns_store == *old(ns_store),
                decreases body.children.len() - i,
            {
                let mut member = scope.clone();
                member.symbols.insert(String::from_str("self"));
                walk_declaration(&body.children[i], content, ns_store, &mut member, diagnostics);
                assert(diag_views(diagnostics@) =~= d0 + members_upto(
                    *body,
                    content@,
                    outer.insert("self"@),
                    (i + 1) as nat,
                ));
                i += 1;
            }
        }
    }
}

/// Walks the function `decl`.
pub fn walk_function_declaration(
    decl: &SyntaxNode,
    content: &str,
    ns_store: &mut SegmentPool,
    scope: &mut Scope,
    diagnostics: &mut Vec<Diagnostic>,
)
    ensures
        walked(
            *old(scope),
            *final(scope),
            old(diagnostics)@,
            final(diagnostics)@,
            function_flow(*decl, content@, old(scope).symbols@),
        ),
        *final(ns_store) == *old(ns_store),
    decreases decl, 3nat, 0nat,
{
    let ghost d0 = diag_views(diagnostics@);
    if let Some(name) = decl.child_by_field_name("name") {
        if let Some(text) = name.text(content) {
            scope.symbols.insert(text.to_owned());
        }
    }
    let mut function_scope = scope.clone();
    if let Some(params_node) = decl.child_by_field_name("parameters") {
        let params = function_parameters(params_node, content, diagnostics);
        bind_all(&mut function_scope.symbols, params);
    }
    assert(function_scope.symbols@ =~= with_names(
        scope.symbols@,
        all_param_names(decl.field_child("parameters"@), content@),
    ));
    assert(diag_views(diagnostics@) =~= d0 + all_param_diags(
        decl.field_child("parameters"@),
        content@,
    ));
    if let Some(body) = decl.child_by_field_name("body") {
        walk_statement(body, content, ns_store, &mut function_scope, diagnostics);
    }
    assert(diag_views(diagnostics@) =~= d0 + function_flow(
        *decl,
        content@,
        old(scope).symbols@,
    ).diags);
}

/// Walks the method `decl`, inside which `$this` is bound.
pub fn walk_method_declaration(
    decl: &SyntaxNode,
    content: &str,
    ns_store: &mut SegmentPool,
    scope: &mut Scope,
    diagnostics: &mut Vec<Diagnostic>,
)
    ensures
        walked(
            *old(scope),
            *final(scope),
            old(diagnostics)@,
            final(diagnostics)@,
            function_flow(*decl, content@, old(scope).symbols@.insert("$this"@)),
        ),
        *final(ns_store) == *old(ns_store),
    decreases decl, 4nat, 0nat,
{
    scope.symbols.insert(String::from_str("$this"));
    walk_function_declaration(decl, content, ns_store, scope, diagnostics)
}

/// Walks the declaration `decl`.
pub fn walk_declaration(
    decl: &SyntaxNode,
    content: &str,
    ns_store: &mut SegmentPool,
    scope: &mut Scope,
    diagnostics: &mut Vec<Diagnostic>,
)
    ensures
        walked(
            *old(scope),
            *final(scope),
            old(diagnostics)@,
            final(diagnostics)@,
            decl_flow(*decl, content@, old(scope).symbols@),
        ),
        *final(ns_store) == *old(ns_store),
    decreases decl, 5nat, 0nat,
{
    if decl.is("class_declaration") {
        walk_class_declaration(decl, content, ns_store, scope, diagnostics)
    } else if decl.is("function_definition") || decl.is("function_static_declaration") {
        walk_function_declaration(decl, content, ns_store, scope, diagnostics)
    } else if decl.is("method_declaration") {
        walk_method_declaration(decl, content, ns_store, scope, diagnostics)
    } else {
        assert(diag_views(diagnostics@) =~= diag_views(old(diagnostics)@) + Seq::empty());
    }
}

/// Walks the `for` statement `statement`.
pub fn walk_for_statement(
    statement: &SyntaxNode,
    content: &str,
    ns_store: &mut SegmentPool,
    scope: &mut Scope,
    diagnostics: &mut Vec<Diagnostic>,
)
    ensures
        walked(
            *old(scope),
            *final(scope),
            old(diagnostics)@,
            final(diagnostics)@,
            for_flow(*statement, content@, old(scope).symbols@),
        ),
        *final(ns_store) == *old(ns_store),
    decreases statement, 4nat, 0nat,
{
    let ghost d0 = diag_views(diagnostics@);
    let ghost s0 = scope.symbols@;
    if let Some(init) = statement.child_by_field_name("initialize") {
        walk_expression(init, content, ns_store, scope, diagnostics);
    }
    if let Some(cond) = statement.child_by_field_name("condition") {
        walk_expression(cond, content, ns_store, scope, diagnostics);
    }
    if let Some(update) = statement.child_by_field_name("update") {
        walk_expression(update, content, ns_store, scope, diagnostics);
    }
    if let Some(body) = statement.child_by_field_name("body") {
        walk_statement(body, content, ns_store, scope, diagnostics);
    }
    assert(diag_views(diagnostics@) =~= d0 + for_flow(*statement, content@, s0).diags);
}

/// Walks the `foreach` statement `statement`.
pub fn walk_foreach_statement(
    statement: &SyntaxNode,
    content: &str,
    ns_store: &mut SegmentPool,
    scope: &mut Scope,
    diagnostics: &mut Vec<Diagnostic>,
)
    ensures
        walked(
            *old(scope),
            *final(scope),
            old(diagnostics)@,
            final(diagnostics)@,
            foreach_flow(*statement, content@, old(scope).symbols@),
        ),
        *final(ns_store) == *old(ns_store),
    decreases statement, 4nat, 0nat,
{
    let ghost d0 = diag_views(diagnostics@);
    let ghost s0 = scope.symbols@;
    if let Some(iter) = statement.child(2) {
        walk_expression(iter, content, ns_store, scope, diagnostics);
    }
    let ghost s1 = scope.symbols@;
    if let Some(child) = statement.child(4) {
        if child.is("pair") {
            bind_all(&mut scope.symbols, bound_among(child, content));
        } else {
            proof {
                lemma_with_seq_of(s1, bound_name(*child, content@));
            }
            if let Some(name) = bound_in(child, content) {
                scope.symbols.insert(name);
            }
        }
    } else {
        proof {
            lemma_with_seq_of(s1, None);
        }
    }
    assert(scope.symbols@ =~= with_names(s1, loop_names(statement.child_at(4), content@)));
    if let Some(body) = statement.child_by_field_name("body") {
        walk_statement(body, content, ns_store, scope, diagnostics);
    }
    assert(diag_views(diagnostics@) =~= d0 + foreach_flow(*statement, content@, s0).diags);
}

/// Walks the `while` statement `statement`.
pub fn walk_while_statement(
    statement: &SyntaxNode,
    content: &str,
    ns_store: &mut SegmentPool,
    scope: &mut Scope,
    diagnostics: &mut Vec<Diagnostic>,
)
    ensures
        walked(
            *old(scope),
            *final(scope),
            old(diagnostics)@,
            final(diagnostics)@,
            while_flow(*statement, content@, old(scope).symbols@),
        ),
        *final(ns_store) == *old(ns_store),
    decreases statement, 4nat, 0nat,
{
    let ghost d0 = diag_views(diagnostics@);
    let ghost s0 = scope.symbols@;
    if let Some(condition) = statement.child_by_field_name("condition") {
        walk_expression(condition, content, ns_store, scope, diagnostics);
    }
    if let Some(body) = statement.child_by_field_name("body") {
        walk_statement(body, content, ns_store, scope, diagnostics);
    }
    assert(diag_views(diagnostics@) =~= d0 + while_flow(*statement, content@, s0).diags);
}

/// Walks the `do` statement `statement`.
pub fn walk_do_statement(
    statement: &SyntaxNode,
    content: &str,
    ns_store: &mut SegmentPool,
    scope: &mut Scope,
    diagnostics: &mut Vec<Diagnostic>,
)
    ensures
        walked(
            *old(scope),
            *final(scope),
            old(diagnostics)@,
            final(diagnostics)@,
            do_flow(*statement, content@, old(scope).symbols@),
        ),
        *final(ns_store) == *old(ns_store),
    decreases statement, 4nat, 0nat,
{
    let ghost d0 = diag_views(diagnostics@);
    let ghost s0 = scope.symbols@;
    if let Some(body) = statement.child_by_field_name("body") {
        walk_statement(body, content, ns_store, scope, diagnostics);
    }
    if let Some(condition) = statement.child_by_field_name("condition") {
        walk_expression(condition, content, ns_store, scope, diagnostics);
    }
    assert(diag_views(diagnostics@) =~= d0 + do_flow(*statement, content@, s0).diags);
}

/// Walks one `case` or `default` of a `switch`.
fn walk_case(
    case: &SyntaxNode,
    content: &str,
    ns_store: &mut SegmentPool,
    scope: &mut Scope,
    diagnostics: &mut Vec<Diagnostic>,
)
    ensures
        walked(
            *old(scope),
            *final(scope),
            old(diagnostics)@,
            final(diagnostics)@,
            case_flow(*case, content@, old(scope).symbols@),
        ),
        *final(ns_store) == *old(ns_store),
    decreases case, 4nat, 0nat,
{
    let ghost d0 = diag_views(diagnostics@);
    let ghost s0 = scope.symbols@;
    if let Some(value) = case.child_by_field_name("value") {
        walk_expression(value, content, ns_store, scope, diagnostics);
    }
    let ghost a = match case.field_child("value"@) {
        Some(e) => expr_flow(e, content@, s0),
        None => idle(s0),
    };
    assert(diag_views(diagnostics@) =~= d0 + a.diags);
    walk_statements(case, content, ns_store, scope, diagnostics);
    assert(diag_views(diagnostics@) =~= d0 + case_flow(*case, content@, s0).diags);
}

/// Walks each child of `holder` as a statement, in order.
fn walk_statements(
    holder: &SyntaxNode,
    content: &str,
    ns_store: &mut SegmentPool,
    scope: &mut Scope,
    diagnostics: &mut Vec<Diagnostic>,
)
    ensures
        walked(
            *old(scope),
            *final(scope),
            old(diagnostics)@,
            final(diagnostics)@,
            stmts_upto(*holder, content@, old(scope).symbols@, holder.children@.len()),
        ),
        *final(ns_store) == *old(ns_store),
    decreases holder, 3nat, 0nat,
{
    let ghost d0 = diag_views(diagnostics@);
    let ghost s0 = scope.symbols@;
    let mut i: usize = 0;
    assert(d0 =~= d0 + stmts_upto(*holder, content@, s0, 0).diags);
    while i < holder.children.len()
        invariant
            i <= holder.children.len(),
            walked(
                *old(scope),
                *scope,
                old(diagnostics)@,
                diagnostics@,
                stmts_upto(*holder, content@, s0, i as nat),
            ),
            s0 == old(scope).symbols@,
            d0 == diag_views(old(diagnostics)@),
            *ns_store == *old(ns_store),
        decreases holder.children.len() - i,
    {
        walk_statement(&holder.children[i], content, ns_store, scope, diagnostics);
        assert(diag_views(diagnostics@) =~= d0 + stmts_upto(
            *holder,
            content@,
            s0,
            (i + 1) as nat,
        ).diags);
        i += 1;
    }
}

/// Walks the `switch` statement `statement`.
pub fn walk_switch_statement(
    statement: &SyntaxNode,
    content: &str,
    ns_store: &mut SegmentPool,
    scope: &mut Scope,
    diagnostics: &mut Vec<Diagnostic>,
)
    ensures
        walked(
            *old(scope),
            *final(scope),
            old(diagnostics)@,
            final(diagnostics)@,
            switch_flow(*statement, content@, old(scope).symbols@),
        ),
        *final(ns_store) == *old(ns_store),
    decreases statement, 4nat, 0nat,
{
    let ghost d0 = diag_views(diagnostics@);
    let ghost s0 = scope.symbols@;
    if let Some(expr) = statement.child_by_field_name("condition") {
        walk_expression(expr, content, ns_store, scope, diagnostics);
    }
    let ghost a = match statement.field_child("condition"@) {
        Some(e) => expr_flow(e, content@, s0),
        None => idle(s0),
    };
    assert(diag_views(diagnostics@) =~= d0 + a.diags);
    let ghost d1 = diag_views(diagnostics@);
    if let Some(body) = statement.child_by_field_name("body") {
        let mut i: usize = 0;
        assert(d1 =~= d1 + cases_upto(*body, content@, a.symbols, 0).diags);
        while i < body.children.len()
            invariant
                i <= body.children.len(),
                statement.field_child("body"@) == Some(*body),
                scope.namespace() == old(scope).namespace(),
                scope.aliases() == old(scope).aliases(),
                scope.symbols@ == cases_upto(*body, content@, a.symbols, i as nat).symbols,
                diag_views(diagnostics@) == d1 + cases_upto(
                    *body,
                    content@,
                    a.symbols,
                    i as nat,
                ).diags,
                *ns_store == *old(ns_store),
            decreases body.children.len() - i,
        {
            let case = &body.children[i];
            if case.is("case_statement") || case.is("default_statement") {
                walk_case(case, content, ns_store, scope, diagnostics);
            }
            assert(diag_views(diagnostics@) =~= d1 + cases_upto(
                *body,
                content@,
                a.symbols,
                (i + 1) as nat,
            ).diags);
            i += 1;
        }
    }
    assert(diag_views(diagnostics@) =~= d0 + switch_flow(*statement, content@, s0).diags);
}

/// Walks the statement `statement`.
pub fn walk_statement(
    statement: &SyntaxNode,
    content: &str,
    ns_store: &mut SegmentPool,
    scope: &mut Scope,
    diagnostics: &mut Vec<Diagnostic>,
)
    ensures
        walked(
            *old(scope),
            *final(scope),
            old(diagnostics)@,
            final(diagnostics)@,
            stmt_flow(*statement, content@, old(scope).symbols@),
        ),
        *final(ns_store) == *old(ns_store),
    decreases statement, 5nat, 0nat,
{
    let ghost d0 = diag_views(diagnostics@);
    let ghost s0 = scope.symbols@;
    if statement.is("compound_statement") {
        walk_statements(statement, content, ns_store, scope, diagnostics);
    } else if statement.is("expression_statement") {
        match statement.child(0) {
            Some(expression) => {
                walk_expression(expression, content, ns_store, scope, diagnostics);
            },
            None => {
                assert(d0 =~= d0 + Seq::<DiagnosticView>::empty());
            },
        }
    } else if statement.is("if_statement") {
        walk_if_statement(statement, content, ns_store, scope, diagnostics);
    } else if statement.is("for_statement") {
        walk_for_statement(statement, content, ns_store, scope, diagnostics);
    } else if statement.is("foreach_statement") {
        walk_foreach_statement(statement, content, ns_store, scope, diagnostics);
    } else if statement.is("while_statement") {
        walk_while_statement(statement, content, ns_store, scope, diagnostics);
    } else if statement.is("do_statement") {
        walk_do_statement(statement, content, ns_store, scope, diagnostics);
    } else if statement.is("switch_statement") {
        walk_switch_statement(statement, content, ns_store, scope, diagnostics);
    } else if statement.is("echo_statement") {
        let mut i: usize = 0;
        assert(d0 =~= d0 + exprs_upto(*statement, content@, s0, 0).diags);
        while i < statement.children.len()
            invariant
                i <= statement.children.len(),
                walked(
                    *old(scope),
                    *scope,
                    old(diagnostics)@,
                    diagnostics@,
                    exprs_upto(*statement, content@, s0, i as nat),
                ),
                s0 == old(scope).symbols@,
                d0 == diag_views(old(diagnostics)@),
                *ns_store == *old(ns_store),
            decreases statement.children.len() - i,
        {
            walk_expression(&statement.children[i], content, ns_store, scope, diagnostics);
            assert(diag_views(diagnostics@) =~= d0 + exprs_upto(
                *statement,
                content@,
                s0,
                (i + 1) as nat,
            ).diags);
            i += 1;
        }
    } else {
        assert(d0 =~= d0 + Seq::<DiagnosticView>::empty());
    }
}


/// What the `use` declarations of a file have given so far: the aliases, the
/// segments that were interned, and the diagnostics.
pub struct Imports {
    pub aliases: Map<Seq<char>, Seq<Seq<char>>>,
    pub pool: Set<Seq<char>>,
    pub diags: Seq<DiagnosticView>,
}

/// Whether `node` is a name, qualified or not.
pub open spec fn names_something(node: SyntaxNode) -> bool {
    node.kind@ == "qualified_name"@ || node.kind@ == "name"@
}

/// Whether `i` is the first child of `node` that is a name.
pub open spec fn first_name_at(node: SyntaxNode, i: int) -> bool {
    &&& 0 <= i < node.children@.len()
    &&& names_something(node.children@[i])
    &&& forall|j: int| 0 <= j < i ==> !names_something(#[trigger] node.children@[j])
}

/// The text of the name that the `use` clause `node` imports.
pub open spec fn imported_name(node: SyntaxNode, content: Seq<char>) -> Option<Seq<char>> {
    if exists|i: int| first_name_at(node, i) {
        node.children@[choose|i: int| first_name_at(node, i)].text_in(content)
    } else {
        None
    }
}

/// The alias under which the `use` clause `node` makes `ns` known: the one
/// it spells out, else the last segment of `ns`.
pub open spec fn clause_alias(node: SyntaxNode, content: Seq<char>, ns: Seq<Seq<char>>) -> Option<
    Seq<char>,
> {
    match node.field_child("alias"@) {
        Some(a) => a.text_in(content),
        None => if ns.len() > 0 {
            Some(ns.last())
        } else {
            None
        },
    }
}

/// What the `use` clause `node` adds to `before`. The imported name is
/// interned. An alias that is new is recorded; one that is taken is reported
/// and the earlier meaning stays.
pub open spec fn use_clause(node: SyntaxNode, content: Seq<char>, before: Imports) -> Imports {
    match imported_name(node, content) {
        Some(text) => {
            let ns = segments_of(text);
            let pool = before.pool.union(ns.to_set());
            match clause_alias(node, content, ns) {
                Some(alias) => if before.aliases.contains_key(alias) {
                    Imports {
                        aliases: before.aliases,
                        pool,
                        diags: before.diags.push(duplicate_alias(node, alias)),
                    }
                } else {
                    Imports { aliases: before.aliases.insert(alias, ns), pool, diags: before.diags }
                },
                None => Imports { aliases: before.aliases, pool, diags: before.diags },
            }
        },
        None => before,
    }
}

/// What the first `n` children of the `use` declaration `node` add to
/// `before`.
pub open spec fn use_clauses(node: SyntaxNode, content: Seq<char>, before: Imports, n: nat) -> Imports
    decreases n,
{
    if n == 0 || n > node.children@.len() {
        before
    } else {
        let f = use_clauses(node, content, before, (n - 1) as nat);
        if node.children@[n - 1].kind@ == "namespace_use_clause"@ {
            use_clause(node.children@[n - 1], content, f)
        } else {
            f
        }
    }
}

/// The imports that a scope, a pool and a list of diagnostics stand for.
pub open spec fn imports_of(scope: Scope, pool: SegmentPool, diagnostics: Seq<Diagnostic>) -> Imports {
    Imports { aliases: scope.aliases(), pool: pool@, diags: diag_views(diagnostics) }
}

/// The first child of `node` that is a name, qualified or not.
fn first_name_child<'a>(node: &SyntaxNode, content: &'a str) -> (r: Option<&'a str>)
    ensures
        match r {
            Some(t) => imported_name(*node, content@) == Some(t@),
            None => imported_name(*node, content@) is None,
        },
{
    let mut i: usize = 0;
    while i < node.children.len()
        invariant
            i <= node.children.len(),
            forall|j: int| 0 <= j < i ==> !names_something(#[trigger] node.children@[j]),
        decreases node.children.len() - i,
    {
        let child = &node.children[i];
        if child.is("qualified_name") || child.is("name") {
            proof {
                assert(first_name_at(*node, i as int));
                let k = choose|k: int| first_name_at(*node, k);
                assert(k == i) by {
                    if k < i {
                        assert(!names_something(node.children@[k]));
                    } else if i < k {
                        assert(!names_something(node.children@[i as int]));
                    }
                }
            }
            return child.text(content);
        }
        i += 1;
    }
    proof {
        assert forall|k: int| !first_name_at(*node, k) by {
            if first_name_at(*node, k) {
                assert(!names_something(node.children@[k]));
            }
        }
    }
    None
}

/// Takes in one clause of a `use` declaration.
pub fn walk_ns_use_clause(
    node: &SyntaxNode,
    content: &str,
    ns_store: &mut SegmentPool,
    scope: &mut Scope,
    diagnostics: &mut Vec<Diagnostic>,
)
    ensures
        imports_of(*final(scope), *final(ns_store), final(diagnostics)@) == use_clause(
            *node,
            content@,
            imports_of(*old(scope), *old(ns_store), old(diagnostics)@),
        ),
        final(scope).namespace() == old(scope).namespace(),
        final(scope).symbols@ == old(scope).symbols@,
{
    let ghost before = imports_of(*scope, *ns_store, diagnostics@);
    if let Some(text) = first_name_child(node, content) {
        let ns = ns_store.intern_str(text);
        let alias: Option<String> = match node.child_by_field_name("alias") {
            Some(a) => match a.text(content) {
                Some(t) => Some(t.to_owned()),
                None => None,
            },
            None => if ns.len() > 0 {
                Some(ns.0[ns.len() - 1].as_str().to_owned())
            } else {
                None
            },
        };
        if let Some(alias) = alias {
            assert(clause_alias(*node, content@, ns@) == Some(alias@));
            if scope.ns_aliases.contains_key(alias.as_str()) {
                assert(before.aliases.contains_key(alias@));
                emit(diagnostics, report_duplicate(node, alias.as_str()));
            } else {
                assert(!before.aliases.contains_key(alias@));
                let ghost a = alias@;
                let ghost held = ns;
                scope.ns_aliases.insert(alias, ns);
                assert(scope.aliases() =~= before.aliases.insert(a, held@));
            }
        }
    }
}

/// Takes in each clause of a `use` declaration.
pub fn walk_ns_use_declaration(
    node: &SyntaxNode,
    content: &str,
    ns_store: &mut SegmentPool,
    scope: &mut Scope,
    diagnostics: &mut Vec<Diagnostic>,
)
    ensures
        imports_of(*final(scope), *final(ns_store), final(diagnostics)@) == use_clauses(
            *node,
            content@,
            imports_of(*old(scope), *old(ns_store), old(diagnostics)@),
            node.children@.len(),
        ),
        final(scope).namespace() == old(scope).namespace(),
        final(scope).symbols@ == old(scope).symbols@,
{
    let ghost before = imports_of(*scope, *ns_store, diagnostics@);
    let mut i: usize = 0;
    while i < node.children.len()
        invariant
            i <= node.children.len(),
            imports_of(*scope, *ns_store, diagnostics@) == use_clauses(
                *node,
                content@,
                before,
                i as nat,
            ),
            scope.namespace() == old(scope).namespace(),
            scope.symbols@ == old(scope).symbols@,
        decreases node.children.len() - i,
    {
        let child = &node.children[i];
        if child.is("namespace_use_clause") {
            walk_ns_use_clause(child, content, ns_store, scope, diagnostics);
        }
        i += 1;
    }
}

/// Everything that the walk over a file keeps: the namespace, the aliases,
/// the bound names, the interned segments and the diagnostics.
pub struct Unit {
    pub ns: Option<Seq<Seq<char>>>,
    pub aliases: Map<Seq<char>, Seq<Seq<char>>>,
    pub symbols: Set<Seq<char>>,
    pub pool: Set<Seq<char>>,
    pub diags: Seq<DiagnosticView>,
}

/// The state at the start of a file, with the segments in `pool` interned
/// already.
pub open spec fn fresh_unit(pool: Set<Seq<char>>) -> Unit {
    Unit {
        ns: None,
        aliases: Map::empty(),
        symbols: superglobals(),
        pool,
        diags: Seq::empty(),
    }
}

/// The state after the child `child` of a program, which was `u` before it:
/// a namespace definition sets the namespace, a `use` declaration adds
/// aliases, a declaration or a statement is walked, and the rest is passed
/// over.
pub open spec fn unit_step(child: SyntaxNode, content: Seq<char>, u: Unit) -> Unit {
    if child.kind@ == "php_tag"@ {
        u
    } else if child.kind@ == "namespace_definition"@ {
        match declared_name(child, content) {
            Some(text) => Unit {
                ns: Some(segments_of(text)),
                pool: u.pool.union(segments_of(text).to_set()),
                ..u
            },
            None => u,
        }
    } else if child.kind@ == "namespace_use_declaration"@ {
        let i = use_clauses(
            child,
            content,
            Imports { aliases: u.aliases, pool: u.pool, diags: u.diags },
            child.children@.len(),
        );
        Unit { aliases: i.aliases, pool: i.pool, diags: i.diags, ..u }
    } else if "_declaration"@.is_suffix_of(child.kind@) || child.kind@ == "function_definition"@ {
        let f = decl_flow(child, content, u.symbols);
        Unit { symbols: f.symbols, diags: u.diags + f.diags, ..u }
    } else if "_statement"@.is_suffix_of(child.kind@) {
        let f = stmt_flow(child, content, u.symbols);
        Unit { symbols: f.symbols, diags: u.diags + f.diags, ..u }
    } else {
        u
    }
}

/// The state after the first `n` children of the program `node`.
pub open spec fn unit_upto(node: SyntaxNode, content: Seq<char>, pool: Set<Seq<char>>, n: nat) -> Unit
    decreases n,
{
    if n == 0 || n > node.children@.len() {
        fresh_unit(pool)
    } else {
        unit_step(node.children@[n - 1], content, unit_upto(node, content, pool, (n - 1) as nat))
    }
}

/// The state after the whole tree `node`; only a program is walked.
pub open spec fn analysis(node: SyntaxNode, content: Seq<char>, pool: Set<Seq<char>>) -> Unit {
    if node.kind@ == "program"@ {
        unit_upto(node, content, pool, node.children@.len())
    } else {
        fresh_unit(pool)
    }
}

/// Whether a scope, a pool and a list of diagnostics stand for `u`.
pub open spec fn stands_for(
    scope: Scope,
    pool: SegmentPool,
    diagnostics: Seq<Diagnostic>,
    u: Unit,
) -> bool {
    &&& scope.namespace() == u.ns
    &&& scope.aliases() == u.aliases
    &&& scope.symbols@ == u.symbols
    &&& pool@ == u.pool
    &&& diag_views(diagnostics) == u.diags
}

/// Walks a whole file and returns its diagnostics: each read of a variable
/// that nothing bound before, each parameter named like a superglobal, and
/// each alias given twice.
pub fn walk(node: &SyntaxNode, content: &str, ns_store: &mut SegmentPool) -> (diagnostics: Vec<
    Diagnostic,
>)
    ensures
        diag_views(diagnostics@) == analysis(*node, content@, old(ns_store)@).diags,
        final(ns_store)@ == analysis(*node, content@, old(ns_store)@).pool,
{
    let mut diagnostics: Vec<Diagnostic> = Vec::new();
    assert(diag_views(diagnostics@) =~= Seq::<DiagnosticView>::empty());
    if node.is("program") {
        let mut scope = Scope::empty();
        let ghost pool0 = ns_store@;
        let mut i: usize = 0;
        while i < node.children.len()
            invariant
                i <= node.children.len(),
                stands_for(
                    scope,
                    *ns_store,
                    diagnostics@,
                    unit_upto(*node, content@, pool0, i as nat),
                ),
            decreases node.children.len() - i,
        {
            let child = &node.children[i];
            let ghost u = unit_upto(*node, content@, pool0, i as nat);
            let ghost d0 = diag_views(diagnostics@);
            if child.is("php_tag") {
            } else if child.is("namespace_definition") {
                if let Some(name) = child.child_by_field_name("name") {
                    if let Some(text) = name.text(content) {
                        let ns = ns_store.intern_str(text);
                        scope.ns = Some(ns);
                    }
                }
            } else if child.is("namespace_use_declaration") {
                walk_ns_use_declaration(child, content, ns_store, &mut scope, &mut diagnostics);
            } else if ends_with(child.kind.as_str(), "_declaration") || child.is(
                "function_definition",
            ) {
                walk_declaration(child, content, ns_store, &mut scope, &mut diagnostics);
            } else if ends_with(child.kind.as_str(), "_statement") {
                walk_statement(child, content, ns_store, &mut scope, &mut diagnostics);
            }
            assert(stands_for(scope, *ns_store, diagnostics@, unit_step(*child, content@, u)));
            i += 1;
        }
    }
    diagnostics
}


/// The aliases and the interned segments that `use` clauses give do not
/// depend on the diagnostics given before them.
pub proof fn lemma_use_clauses_whatever_reported(
    node: SyntaxNode,
    content: Seq<char>,
    one: Imports,
    other: Imports,
    n: nat,
)
    requires
        one.aliases == other.aliases,
        one.pool == other.pool,
    ensures
        use_clauses(node, content, one, n).aliases == use_clauses(node, content, other, n).aliases,
        use_clauses(node, content, one, n).pool == use_clauses(node, content, other, n).pool,
    decreases n,
{
    if n > 0 && n <= node.children@.len() {
        lemma_use_clauses_whatever_reported(node, content, one, other, (n - 1) as nat);
    }
}

} // verus!
