use crate::analyze::{
    all_param_diags, all_param_names, analysis, arm_flow, arms_upto, assign_flow, case_flow,
    cases_upto, class_flow, closure_symbols, decl_flow, do_flow, expr_flow, expr_reads, exprs_upto,
    for_flow, foreach_flow, function_flow, idle, if_flow, members_upto, param_diags, reads_from,
    stmt_flow, stmts_upto, switch_flow, undefined_variable, unit_upto, use_clauses, while_flow,
    with_name, with_names, Flow, Imports, Unit,
};
use crate::diagnostics::DiagnosticView;
use crate::scope::superglobals;
use crate::syntax::SyntaxNode;
use vstd::prelude::*;

verus! {

broadcast use vstd::std_specs::vec::axiom_vec_index_decreases;

/// Whether `d` reports a superglobal as an undefined variable.
pub open spec fn blames_superglobal(d: DiagnosticView) -> bool {
    d.source == "undef"@ && exists|g: Seq<char>|
        superglobals().contains(g) && d.message == "undefined variable "@ + g
}

/// Whether none of `diags` reports a superglobal as undefined.
pub open spec fn clean(diags: Seq<DiagnosticView>) -> bool {
    forall|i: int| 0 <= i < diags.len() ==> !blames_superglobal(#[trigger] diags[i])
}

/// Whether `symbols` binds every superglobal.
pub open spec fn grounded(symbols: Set<Seq<char>>) -> bool {
    superglobals().subset_of(symbols)
}

/// Whether a walk kept the superglobals bound and reported none of them.
pub open spec fn sound(f: Flow) -> bool {
    grounded(f.symbols) && clean(f.diags)
}

/// The three passes that report are told apart by their tags.
pub proof fn lemma_tags_differ()
    ensures
        "superglobal"@ != "undef"@,
        "dupe"@ != "undef"@,
{
    reveal_strlit("superglobal");
    reveal_strlit("undef");
    reveal_strlit("dupe");
    assert("superglobal"@.len() == 11);
    assert("undef"@.len() == 5);
    assert("dupe"@.len() == 4);
}

/// Two texts that begin alike and are equal end alike.
pub proof fn lemma_same_tail(head: Seq<char>, a: Seq<char>, b: Seq<char>)
    requires
        head + a == head + b,
    ensures
        a == b,
{
    assert(a =~= (head + a).skip(head.len() as int));
    assert(b =~= (head + b).skip(head.len() as int));
}

/// A report of a name that is not bound blames no superglobal where the
/// superglobals are bound.
pub proof fn lemma_unbound_is_no_superglobal(
    node: SyntaxNode,
    name: Seq<char>,
    symbols: Set<Seq<char>>,
)
    requires
        grounded(symbols),
        !symbols.contains(name),
    ensures
        !blames_superglobal(undefined_variable(node, name)),
{
    let d = undefined_variable(node, name);
    if blames_superglobal(d) {
        let g = choose|g: Seq<char>|
            superglobals().contains(g) && d.message == "undefined variable "@ + g;
        lemma_same_tail("undefined variable "@, name, g);
    }
}

/// The reports about parameters blame no superglobal as undefined.
pub proof fn lemma_param_diags_clean(params: SyntaxNode, content: Seq<char>, n: nat)
    ensures
        clean(param_diags(params, content, n)),
    decreases n,
{
    lemma_tags_differ();
    if n > 0 && n <= params.children@.len() {
        lemma_param_diags_clean(params, content, (n - 1) as nat);
    }
}

/// The reports about a parameter list blame no superglobal as undefined.
pub proof fn lemma_all_param_diags_clean(params: Option<SyntaxNode>, content: Seq<char>)
    ensures
        clean(all_param_diags(params, content)),
{
    match params {
        Some(p) => lemma_param_diags_clean(p, content, p.children@.len()),
        None => {},
    }
}

/// The reads of an expression report no superglobal.
pub proof fn lemma_expr_reads(node: SyntaxNode, content: Seq<char>, symbols: Set<Seq<char>>)
    requires
        grounded(symbols),
    ensures
        clean(expr_reads(node, content, symbols)),
    decreases node, 3nat, 0nat,
{
    if node.kind@ == "variable_name"@ {
        match node.text_in(content) {
            Some(name) => {
                if !symbols.contains(name) {
                    lemma_unbound_is_no_superglobal(node, name, symbols);
                }
            },
            None => {},
        }
    } else if node.kind@ == "arrow_function"@ {
        let params = node.field_child("parameters"@);
        let inner = with_names(symbols, all_param_names(params, content));
        lemma_all_param_diags_clean(params, content);
        match node.field_child("body"@) {
            Some(b) => lemma_expr_flow(b, content, inner),
            None => {},
        }
    } else if node.kind@ == "anonymous_function"@ {
        let params = node.field_child("parameters"@);
        let inner = closure_symbols(node, content);
        lemma_all_param_diags_clean(params, content);
        match node.field_child("body"@) {
            Some(b) => lemma_stmt_flow(b, content, inner),
            None => {},
        }
        match crate::analyze::child_of_kind(node, "anonymous_function_use_clause"@) {
            Some(u) => lemma_expr_reads(u, content, symbols),
            None => {},
        }
    } else {
        lemma_reads_from(node, content, symbols, 0);
    }
}

/// The reads of the children of a node report no superglobal.
pub proof fn lemma_reads_from(
    node: SyntaxNode,
    content: Seq<char>,
    symbols: Set<Seq<char>>,
    i: nat,
)
    requires
        grounded(symbols),
    ensures
        clean(reads_from(node, content, symbols, i)),
    decreases node, 2nat, node.children@.len() - i,
{
    if i < node.children@.len() {
        lemma_reads_from(node, content, symbols, i + 1);
        lemma_expr_reads(node.children@[i as int], content, symbols);
    }
}

/// The walk over an expression keeps the superglobals and reports none.
pub proof fn lemma_expr_flow(node: SyntaxNode, content: Seq<char>, symbols: Set<Seq<char>>)
    requires
        grounded(symbols),
    ensures
        sound(expr_flow(node, content, symbols)),
    decreases node, 5nat, 0nat,
{
    if "assignment_expression"@.is_suffix_of(node.kind@) {
        lemma_assign_flow(node, content, symbols);
    } else if node.kind@ == "parenthesized_expression"@ {
        match node.child_at(1) {
            Some(e) => lemma_expr_flow(e, content, symbols),
            None => lemma_expr_reads(node, content, symbols),
        }
    } else {
        lemma_expr_reads(node, content, symbols);
    }
}

/// The walk over an assignment keeps the superglobals and reports none.
pub proof fn lemma_assign_flow(node: SyntaxNode, content: Seq<char>, symbols: Set<Seq<char>>)
    requires
        grounded(symbols),
    ensures
        sound(assign_flow(node, content, symbols)),
    decreases node, 4nat, 0nat,
{
    match (node.field_child("left"@), node.field_child("right"@)) {
        (Some(left), Some(right)) => {
            lemma_expr_flow(right, content, symbols);
        },
        _ => {},
    }
}

/// The walk over a statement keeps the superglobals and reports none.
pub proof fn lemma_stmt_flow(node: SyntaxNode, content: Seq<char>, symbols: Set<Seq<char>>)
    requires
        grounded(symbols),
    ensures
        sound(stmt_flow(node, content, symbols)),
    decreases node, 5nat, 0nat,
{
    if node.kind@ == "compound_statement"@ {
        lemma_stmts_upto(node, content, symbols, node.children@.len());
    } else if node.kind@ == "expression_statement"@ {
        match node.child_at(0) {
            Some(e) => lemma_expr_flow(e, content, symbols),
            None => {},
        }
    } else if node.kind@ == "if_statement"@ {
        lemma_if_flow(node, content, symbols);
    } else if node.kind@ == "for_statement"@ {
        lemma_for_flow(node, content, symbols);
    } else if node.kind@ == "foreach_statement"@ {
        lemma_foreach_flow(node, content, symbols);
    } else if node.kind@ == "while_statement"@ {
        lemma_while_flow(node, content, symbols);
    } else if node.kind@ == "do_statement"@ {
        lemma_do_flow(node, content, symbols);
    } else if node.kind@ == "switch_statement"@ {
        lemma_switch_flow(node, content, symbols);
    } else if node.kind@ == "echo_statement"@ {
        lemma_exprs_upto(node, content, symbols, node.children@.len());
    }
}

/// The walk over a run of statements keeps the superglobals and reports
/// none.
pub proof fn lemma_stmts_upto(
    node: SyntaxNode,
    content: Seq<char>,
    symbols: Set<Seq<char>>,
    n: nat,
)
    requires
        grounded(symbols),
    ensures
        sound(stmts_upto(node, content, symbols, n)),
    decreases node, 2nat, n,
{
    if n > 0 && n <= node.children@.len() {
        lemma_stmts_upto(node, content, symbols, (n - 1) as nat);
        let f = stmts_upto(node, content, symbols, (n - 1) as nat);
        lemma_stmt_flow(node.children@[n - 1], content, f.symbols);
    }
}

/// The walk over a run of expressions keeps the superglobals and reports
/// none.
pub proof fn lemma_exprs_upto(
    node: SyntaxNode,
    content: Seq<char>,
    symbols: Set<Seq<char>>,
    n: nat,
)
    requires
        grounded(symbols),
    ensures
        sound(exprs_upto(node, content, symbols, n)),
    decreases node, 2nat, n,
{
    if n > 0 && n <= node.children@.len() {
        lemma_exprs_upto(node, content, symbols, (n - 1) as nat);
        let f = exprs_upto(node, content, symbols, (n - 1) as nat);
        lemma_expr_flow(node.children@[n - 1], content, f.symbols);
    }
}

/// The walk over an arm of an `if` keeps the superglobals and reports none.
pub proof fn lemma_arm_flow(arm: SyntaxNode, content: Seq<char>, symbols: Set<Seq<char>>)
    requires
        grounded(symbols),
    ensures
        sound(arm_flow(arm, content, symbols)),
    decreases arm, 4nat, 0nat,
{
    if arm.kind@ == "else_if_clause"@ {
        match arm.field_child("condition"@) {
            Some(e) => lemma_expr_flow(e, content, symbols),
            None => {},
        }
    }
    match arm.field_child("body"@) {
        Some(s) => lemma_stmt_flow(s, content, symbols),
        None => {},
    }
}

/// The walk over the arms of an `if` keeps the superglobals and reports
/// none.
pub proof fn lemma_arms_upto(
    node: SyntaxNode,
    content: Seq<char>,
    symbols: Set<Seq<char>>,
    n: nat,
)
    requires
        grounded(symbols),
    ensures
        sound(arms_upto(node, content, symbols, n)),
    decreases node, 2nat, n,
{
    if n > 0 && n <= node.children@.len() {
        lemma_arms_upto(node, content, symbols, (n - 1) as nat);
        if node.children@[n - 1].in_field("alternative"@) {
            lemma_arm_flow(node.children@[n - 1], content, symbols);
        }
    }
}

/// The walk over an `if` keeps the superglobals and reports none.
pub proof fn lemma_if_flow(node: SyntaxNode, content: Seq<char>, symbols: Set<Seq<char>>)
    requires
        grounded(symbols),
    ensures
        sound(if_flow(node, content, symbols)),
    decreases node, 4nat, 0nat,
{
    match node.field_child("condition"@) {
        Some(e) => lemma_expr_flow(e, content, symbols),
        None => {},
    }
    match node.field_child("body"@) {
        Some(s) => lemma_stmt_flow(s, content, symbols),
        None => {},
    }
    lemma_arms_upto(node, content, symbols, node.children@.len());
}

/// The walk over a `for` keeps the superglobals and reports none.
pub proof fn lemma_for_flow(node: SyntaxNode, content: Seq<char>, symbols: Set<Seq<char>>)
    requires
        grounded(symbols),
    ensures
        sound(for_flow(node, content, symbols)),
    decreases node, 4nat, 0nat,
{
    let a = match node.field_child("initialize"@) {
        Some(e) => {
            lemma_expr_flow(e, content, symbols);
            expr_flow(e, content, symbols)
        },
        None => idle(symbols),
    };
    let b = match node.field_child("condition"@) {
        Some(e) => {
            lemma_expr_flow(e, content, a.symbols);
            expr_flow(e, content, a.symbols)
        },
        None => idle(a.symbols),
    };
    let c = match node.field_child("update"@) {
        Some(e) => {
            lemma_expr_flow(e, content, b.symbols);
            expr_flow(e, content, b.symbols)
        },
        None => idle(b.symbols),
    };
    match node.field_child("body"@) {
        Some(s) => lemma_stmt_flow(s, content, c.symbols),
        None => {},
    }
}

/// The walk over a `foreach` keeps the superglobals and reports none.
pub proof fn lemma_foreach_flow(node: SyntaxNode, content: Seq<char>, symbols: Set<Seq<char>>)
    requires
        grounded(symbols),
    ensures
        sound(foreach_flow(node, content, symbols)),
    decreases node, 4nat, 0nat,
{
    let a = match node.child_at(2) {
        Some(e) => {
            lemma_expr_flow(e, content, symbols);
            expr_flow(e, content, symbols)
        },
        None => idle(symbols),
    };
    let bound = with_names(a.symbols, crate::analyze::loop_names(node.child_at(4), content));
    match node.field_child("body"@) {
        Some(s) => lemma_stmt_flow(s, content, bound),
        None => {},
    }
}

/// The walk over a `while` keeps the superglobals and reports none.
pub proof fn lemma_while_flow(node: SyntaxNode, content: Seq<char>, symbols: Set<Seq<char>>)
    requires
        grounded(symbols),
    ensures
        sound(while_flow(node, content, symbols)),
    decreases node, 4nat, 0nat,
{
    let a = match node.field_child("condition"@) {
        Some(e) => {
            lemma_expr_flow(e, content, symbols);
            expr_flow(e, content, symbols)
        },
        None => idle(symbols),
    };
    match node.field_child("body"@) {
        Some(s) => lemma_stmt_flow(s, content, a.symbols),
        None => {},
    }
}

/// The walk over a `do` keeps the superglobals and reports none.
pub proof fn lemma_do_flow(node: SyntaxNode, content: Seq<char>, symbols: Set<Seq<char>>)
    requires
        grounded(symbols),
    ensures
        sound(do_flow(node, content, symbols)),
    decreases node, 4nat, 0nat,
{
    let a = match node.field_child("body"@) {
        Some(s) => {
            lemma_stmt_flow(s, content, symbols);
            stmt_flow(s, content, symbols)
        },
        None => idle(symbols),
    };
    match node.field_child("condition"@) {
        Some(e) => lemma_expr_flow(e, content, a.symbols),
        None => {},
    }
}

/// The walk over a `case` keeps the superglobals and reports none.
pub proof fn lemma_case_flow(case: SyntaxNode, content: Seq<char>, symbols: Set<Seq<char>>)
    requires
        grounded(symbols),
    ensures
        sound(case_flow(case, content, symbols)),
    decreases case, 4nat, 0nat,
{
    let a = match case.field_child("value"@) {
        Some(e) => {
            lemma_expr_flow(e, content, symbols);
            expr_flow(e, content, symbols)
        },
        None => idle(symbols),
    };
    lemma_stmts_upto(case, content, a.symbols, case.children@.len());
}

/// The walk over the cases of a `switch` keeps the superglobals and reports
/// none.
pub proof fn lemma_cases_upto(
    block: SyntaxNode,
    content: Seq<char>,
    symbols: Set<Seq<char>>,
    n: nat,
)
    requires
        grounded(symbols),
    ensures
        sound(cases_upto(block, content, symbols, n)),
    decreases block, 5nat, n,
{
    if n > 0 && n <= block.children@.len() {
        lemma_cases_upto(block, content, symbols, (n - 1) as nat);
        let f = cases_upto(block, content, symbols, (n - 1) as nat);
        let c = block.children@[n - 1];
        if c.kind@ == "case_statement"@ || c.kind@ == "default_statement"@ {
            lemma_case_flow(c, content, f.symbols);
        }
    }
}

/// The walk over a `switch` keeps the superglobals and reports none.
pub proof fn lemma_switch_flow(node: SyntaxNode, content: Seq<char>, symbols: Set<Seq<char>>)
    requires
        grounded(symbols),
    ensures
        sound(switch_flow(node, content, symbols)),
    decreases node, 4nat, 0nat,
{
    let a = match node.field_child("condition"@) {
        Some(e) => {
            lemma_expr_flow(e, content, symbols);
            expr_flow(e, content, symbols)
        },
        None => idle(symbols),
    };
    match node.field_child("body"@) {
        Some(block) => lemma_cases_upto(block, content, a.symbols, block.children@.len()),
        None => {},
    }
}

/// The walk over a declaration keeps the superglobals and reports none.
pub proof fn lemma_decl_flow(node: SyntaxNode, content: Seq<char>, symbols: Set<Seq<char>>)
    requires
        grounded(symbols),
    ensures
        sound(decl_flow(node, content, symbols)),
    decreases node, 5nat, 0nat,
{
    if node.kind@ == "class_declaration"@ {
        lemma_class_flow(node, content, symbols);
    } else if node.kind@ == "function_definition"@ || node.kind@
        == "function_static_declaration"@ {
        lemma_function_flow(node, content, symbols);
    } else if node.kind@ == "method_declaration"@ {
        lemma_function_flow(node, content, symbols.insert("$this"@));
    }
}

/// The walk over a function keeps the superglobals and reports none.
pub proof fn lemma_function_flow(node: SyntaxNode, content: Seq<char>, symbols: Set<Seq<char>>)
    requires
        grounded(symbols),
    ensures
        sound(function_flow(node, content, symbols)),
    decreases node, 3nat, 0nat,
{
    let outer = with_name(symbols, crate::analyze::declared_name(node, content));
    let params = node.field_child("parameters"@);
    let inner = with_names(outer, all_param_names(params, content));
    lemma_all_param_diags_clean(params, content);
    match node.field_child("body"@) {
        Some(b) => lemma_stmt_flow(b, content, inner),
        None => {},
    }
}

/// The walk over the members of a class reports no superglobal.
pub proof fn lemma_members_upto(
    body: SyntaxNode,
    content: Seq<char>,
    symbols: Set<Seq<char>>,
    n: nat,
)
    requires
        grounded(symbols),
    ensures
        clean(members_upto(body, content, symbols, n)),
    decreases body, 6nat, n,
{
    if n > 0 && n <= body.children@.len() {
        lemma_members_upto(body, content, symbols, (n - 1) as nat);
        lemma_decl_flow(body.children@[n - 1], content, symbols);
    }
}

/// The walk over a class keeps the superglobals and reports none.
pub proof fn lemma_class_flow(node: SyntaxNode, content: Seq<char>, symbols: Set<Seq<char>>)
    requires
        grounded(symbols),
    ensures
        sound(class_flow(node, content, symbols)),
    decreases node, 4nat, 0nat,
{
    let outer = with_name(symbols, crate::analyze::declared_name(node, content));
    match node.field_child("body"@) {
        Some(body) => {
            if body.kind@ == "declaration_list"@ {
                lemma_members_upto(body, content, outer.insert("self"@), body.children@.len());
            }
        },
        None => {},
    }
}

/// The clauses of a `use` declaration report no superglobal as undefined.
pub proof fn lemma_use_clauses_clean(
    node: SyntaxNode,
    content: Seq<char>,
    before: Imports,
    n: nat,
)
    requires
        clean(before.diags),
    ensures
        clean(use_clauses(node, content, before, n).diags),
    decreases n,
{
    lemma_tags_differ();
    if n > 0 && n <= node.children@.len() {
        lemma_use_clauses_clean(node, content, before, (n - 1) as nat);
    }
}

/// Whether the walk over a file has kept the superglobals bound and
/// reported none of them.
pub open spec fn unit_sound(u: Unit) -> bool {
    grounded(u.symbols) && clean(u.diags)
}

/// Each step of the walk over a file keeps the superglobals bound and
/// reports none of them.
pub proof fn lemma_unit_upto(node: SyntaxNode, content: Seq<char>, pool: Set<Seq<char>>, n: nat)
    ensures
        unit_sound(unit_upto(node, content, pool, n)),
    decreases n,
{
    if n > 0 && n <= node.children@.len() {
        lemma_unit_upto(node, content, pool, (n - 1) as nat);
        let u = unit_upto(node, content, pool, (n - 1) as nat);
        let child = node.children@[n - 1];
        if child.kind@ == "php_tag"@ {
        } else if child.kind@ == "namespace_definition"@ {
        } else if child.kind@ == "namespace_use_declaration"@ {
            lemma_use_clauses_clean(
                child,
                content,
                Imports { aliases: u.aliases, pool: u.pool, diags: u.diags },
                child.children@.len(),
            );
        } else if "_declaration"@.is_suffix_of(child.kind@) || child.kind@
            == "function_definition"@ {
            lemma_decl_flow(child, content, u.symbols);
        } else if "_statement"@.is_suffix_of(child.kind@) {
            lemma_stmt_flow(child, content, u.symbols);
        }
    }
}

/// Whatever the file, the walk over it never reports a superglobal as an
/// undefined variable.
pub proof fn lemma_superglobals_never_undefined(
    node: SyntaxNode,
    content: Seq<char>,
    pool: Set<Seq<char>>,
)
    ensures
        clean(analysis(node, content, pool).diags),
{
    lemma_unit_upto(node, content, pool, node.children@.len());
    lemma_unit_upto(node, content, pool, 0);
}

} // verus!
