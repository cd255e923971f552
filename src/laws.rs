use vstd::prelude::*;
use crate::ast::{render, Ast};
use crate::generator::{decl_text, let_line};
use crate::parser::{
    check_at, extracted, extracted_items, kind_of, number_value, spec_args, spec_binops, spec_expr,
    spec_items, spec_primary, spec_program, spec_rect, spec_statement, spec_try,
};
use crate::text::{contains, decimal_of, digit_char, nat_digits, starts_with};
use crate::types::{StateView, Token, TokenType, VarView};

verus! {

/// Whether `toks[4k..4k+4]` is the statement `name = <number>` and a line end.
pub open spec fn numeric_assignment_at(toks: Seq<Token>, k: int) -> bool {
    &&& toks[4 * k].token_type == TokenType::Identifier
    &&& check_at(toks, 4 * k + 1, TokenType::Symbol, "="@)
    &&& toks[4 * k + 2].token_type == TokenType::Number
    &&& check_at(toks, 4 * k + 3, TokenType::Eol, "\n"@)
}

/// The assignment parsed from the `k`-th statement.
pub open spec fn numeric_assignment(toks: Seq<Token>, k: int) -> Ast {
    Ast::Assignment(toks[4 * k].value@, Box::new(Ast::Number(number_value(toks[4 * k + 2].value@))))
}

/// The assignments parsed from statements `k..m`.
pub open spec fn numeric_assignments(toks: Seq<Token>, k: int, m: int) -> Seq<Ast>
    decreases m - k,
{
    if k >= m {
        seq![]
    } else {
        seq![numeric_assignment(toks, k)] + numeric_assignments(toks, k + 1, m)
    }
}

/// The variable recorded for the `k`-th statement.
pub open spec fn numeric_variable(toks: Seq<Token>, k: int) -> VarView {
    let v = render(Ast::Number(number_value(toks[4 * k + 2].value@)));
    VarView { name: toks[4 * k].value@, value: v, tipo: "i32"@ }
}

proof fn lemma_no_comma(s: Seq<char>)
    requires
        forall|i: int| 0 <= i < s.len() ==> s[i] != ',',
    ensures
        !contains(s, ","@),
    decreases s.len(),
{
    reveal_strlit(",");
    if s.len() >= 1 {
        assert(s.take(1)[0] == s[0]);
        lemma_no_comma(s.drop_first());
    }
}

proof fn lemma_digits_no_comma(n: nat)
    ensures
        forall|i: int| 0 <= i < nat_digits(n).len() ==> nat_digits(n)[i] != ',',
    decreases n,
{
    assert forall|d: int| 0 <= d < 10 implies digit_char(d) != ',' by {
        assert(seq!['0', '1', '2', '3', '4', '5', '6', '7', '8', '9'][d] != ',');
    }
    let s = nat_digits(n);
    if n >= 10 {
        lemma_digits_no_comma(n / 10);
        let pre = nat_digits(n / 10);
        assert forall|i: int| 0 <= i < s.len() implies s[i] != ',' by {
            if i < pre.len() {
                assert(s[i] == pre[i]);
            } else {
                assert(s[i] == digit_char((n % 10) as int));
            }
        }
    } else {
        assert forall|i: int| 0 <= i < s.len() implies s[i] != ',' by {
            assert(s[i] == digit_char(n as int));
        }
    }
}

proof fn lemma_number_kind(n: i32)
    ensures
        kind_of(render(Ast::Number(n))) == "i32"@,
{
    reveal_strlit("Number(");
    reveal_strlit(")");
    reveal_strlit("Boolean(true)");
    reveal_strlit("Boolean(false)");
    let s = render(Ast::Number(n));
    lemma_digits_no_comma(if n < 0 { (-n) as nat } else { n as nat });
    assert(s[0] == 'N');
    assert(forall|i: int| 0 <= i < s.len() ==> s[i] != ',') by {
        let d = decimal_of(n as int);
        assert(s == "Number("@ + d + ")"@);
        assert forall|i: int| 0 <= i < s.len() implies s[i] != ',' by {
            if i < 7 {
                assert(s[i] == "Number("@[i]);
            } else if i < 7 + d.len() {
                assert(s[i] == d[i - 7]);
                if n < 0 {
                    if i > 7 {
                        assert(d[i - 7] == nat_digits((-n) as nat)[i - 8]);
                    }
                }
            }
        }
    }
    assert(s != "Boolean(true)"@ && s != "Boolean(false)"@) by {
        assert("Boolean(true)"@[0] == 'B');
        assert("Boolean(false)"@[0] == 'B');
    }
    lemma_no_comma(s);
}

proof fn lemma_numeric_items(toks: Seq<Token>, k: int, m: int)
    requires
        toks.len() == 4 * m,
        0 <= k <= m,
        forall|j: int| 0 <= j < m ==> numeric_assignment_at(toks, j),
    ensures
        spec_items(toks, 4 * k) == Ok::<Seq<Ast>, crate::parser::ParseError>(numeric_assignments(toks, k, m)),
    decreases m - k,
{
    reveal_strlit("\n");
    reveal_strlit("=");
    if k < m {
        let p = 4 * k;
        assert(numeric_assignment_at(toks, k));
        lemma_numeric_items(toks, k + 1, m);
        let num = Ast::Number(number_value(toks[p + 2].value@));
        assert(spec_primary(toks, p + 2) == Ok::<(Ast, int), crate::parser::ParseError>((num, p + 3)));
        assert(spec_binops(toks, num, p + 3) == Ok::<(Ast, int), crate::parser::ParseError>((num, p + 3)));
        assert(spec_expr(toks, p + 2) == Ok::<(Ast, int), crate::parser::ParseError>((num, p + 3)));
        assert(spec_statement(toks, p) == Ok::<(Ast, int), crate::parser::ParseError>(
            (numeric_assignment(toks, k), p + 3),
        ));
        assert(spec_try(toks, p) == Ok::<(Option<Ast>, int), crate::parser::ParseError>(
            (Some(numeric_assignment(toks, k)), p + 3),
        ));
        assert(spec_try(toks, p + 3) == Ok::<(Option<Ast>, int), crate::parser::ParseError>((None, p + 4)));
        assert(spec_items(toks, p + 3) == spec_items(toks, p + 4));
    }
}

proof fn lemma_numeric_extracted(toks: Seq<Token>, m: int, n: int)
    requires
        0 <= n <= m,
        toks.len() == 4 * m,
        forall|j: int| 0 <= j < m ==> numeric_assignment_at(toks, j),
    ensures
        extracted_items(numeric_assignments(toks, 0, m), n) == (StateView {
            variables: Seq::new(n as nat, |k: int| numeric_variable(toks, k)),
            draw_calls: seq![],
            control_flow: seq![],
        }),
    decreases n,
{
    let v = numeric_assignments(toks, 0, m);
    lemma_assignments_index(toks, 0, m);
    if n > 0 {
        lemma_numeric_extracted(toks, m, n - 1);
        let k = n - 1;
        assert(v[k] == numeric_assignment(toks, k));
        lemma_number_kind(number_value(toks[4 * k + 2].value@));
        let prev = extracted_items(v, n - 1);
        let e = extracted(v[k]);
        assert(e.variables =~= seq![numeric_variable(toks, k)]);
        assert(prev.plus(e).variables =~= Seq::new(n as nat, |k: int| numeric_variable(toks, k)));
        assert(prev.plus(e).draw_calls =~= Seq::<crate::types::DrawView>::empty());
        assert(prev.plus(e).control_flow =~= Seq::<crate::types::FlowView>::empty());
    } else {
        assert(Seq::new(0, |k: int| numeric_variable(toks, k)) =~= Seq::<VarView>::empty());
    }
}

proof fn lemma_assignments_index(toks: Seq<Token>, k: int, m: int)
    requires
        0 <= k <= m,
    ensures
        numeric_assignments(toks, k, m).len() == m - k,
        forall|j: int| 0 <= j < m - k ==> numeric_assignments(toks, k, m)[j] == numeric_assignment(toks, k + j),
    decreases m - k,
{
    if k < m {
        lemma_assignments_index(toks, k + 1, m);
        let s = numeric_assignments(toks, k, m);
        assert forall|j: int| 0 <= j < m - k implies s[j] == numeric_assignment(toks, k + j) by {
            if j > 0 {
                assert(s[j] == numeric_assignments(toks, k + 1, m)[j - 1]);
            }
        }
    }
}

/// A program made only of assignments of integer literals, one per line,
/// parses, and extraction records one variable per assignment, in source
/// order, each of the numeric kind holding the rendering of its literal,
/// and nothing else.
pub proof fn law_integer_assignments(toks: Seq<Token>, m: int)
    requires
        0 <= m,
        toks.len() == 4 * m,
        forall|j: int| 0 <= j < m ==> numeric_assignment_at(toks, j),
    ensures
        spec_program(toks) is Ok,
        extracted(spec_program(toks)->Ok_0) == (StateView {
            variables: Seq::new(m as nat, |k: int| numeric_variable(toks, k)),
            draw_calls: seq![],
            control_flow: seq![],
        }),
        forall|k: int| 0 <= k < m ==> (#[trigger] extracted(spec_program(toks)->Ok_0).variables[k]).tipo == "i32"@,
{
    lemma_numeric_items(toks, 0, m);
    lemma_assignments_index(toks, 0, m);
    lemma_numeric_extracted(toks, m, m);
}

pub open spec fn bool_text(b: bool) -> Seq<char> {
    if b {
        "true"@
    } else {
        "false"@
    }
}

proof fn lemma_contains_at(s: Seq<char>, p: Seq<char>, i: int)
    requires
        crate::text::occurs_at(s, p, i),
    ensures
        contains(s, p),
    decreases i,
{
    if s.take(p.len() as int) != p {
        if i == 0 {
            assert(s.take(p.len() as int) =~= s.subrange(0, p.len() as int));
        } else {
            assert(s.drop_first().subrange(i - 1, i - 1 + p.len()) =~= s.subrange(i, i + p.len()));
            lemma_contains_at(s.drop_first(), p, i - 1);
        }
    }
}

proof fn lemma_contains_occurs(s: Seq<char>, p: Seq<char>)
    requires
        contains(s, p),
    ensures
        exists|i: int| crate::text::occurs_at(s, p, i),
    decreases s.len(),
{
    if s.take(p.len() as int) == p {
        assert(s.subrange(0, p.len() as int) =~= s.take(p.len() as int));
        assert(crate::text::occurs_at(s, p, 0));
    } else {
        lemma_contains_occurs(s.drop_first(), p);
        let i = choose|i: int| crate::text::occurs_at(s.drop_first(), p, i);
        assert(s.subrange(i + 1, i + 1 + p.len()) =~= s.drop_first().subrange(i, i + p.len()));
        assert(crate::text::occurs_at(s, p, i + 1));
    }
}

proof fn lemma_bool_contains_true(b: bool)
    ensures
        contains(render(Ast::Boolean(b)), "true"@) == b,
{
    reveal_strlit("Boolean(true)");
    reveal_strlit("Boolean(false)");
    reveal_strlit("true");
    let s = render(Ast::Boolean(b));
    let t = "true"@;
    if b {
        assert(s.subrange(8, 12) =~= t);
        lemma_contains_at(s, t, 8);
    } else {
        if contains(s, t) {
            lemma_contains_occurs(s, t);
            let i = choose|i: int| crate::text::occurs_at(s, t, i);
            assert(s.subrange(i, i + 4)[0] == 't');
            assert(s[i] == 't');
            assert(forall|k: int| 0 <= k < s.len() ==> s[k] != 't');
        }
    }
}

/// Whether `toks[4k..4k+4]` is the statement `name = true` or
/// `name = false` and a line end.
pub open spec fn boolean_assignment_at(toks: Seq<Token>, k: int) -> bool {
    &&& toks[4 * k].token_type == TokenType::Identifier
    &&& check_at(toks, 4 * k + 1, TokenType::Symbol, "="@)
    &&& (check_at(toks, 4 * k + 2, TokenType::Keyword, "true"@) || check_at(toks, 4 * k + 2, TokenType::Keyword, "false"@))
    &&& check_at(toks, 4 * k + 3, TokenType::Eol, "\n"@)
}

/// The boolean written in the `k`-th statement.
pub open spec fn boolean_at(toks: Seq<Token>, k: int) -> bool {
    toks[4 * k + 2].value@ == "true"@
}

pub open spec fn boolean_assignment(toks: Seq<Token>, k: int) -> Ast {
    Ast::Assignment(toks[4 * k].value@, Box::new(Ast::Boolean(boolean_at(toks, k))))
}

pub open spec fn boolean_assignments(toks: Seq<Token>, k: int, m: int) -> Seq<Ast>
    decreases m - k,
{
    if k >= m {
        seq![]
    } else {
        seq![boolean_assignment(toks, k)] + boolean_assignments(toks, k + 1, m)
    }
}

/// The variable recorded for the `k`-th statement.
pub open spec fn boolean_variable(toks: Seq<Token>, k: int) -> VarView {
    VarView { name: toks[4 * k].value@, value: render(Ast::Boolean(boolean_at(toks, k))), tipo: "bool"@ }
}

proof fn lemma_boolean_items(toks: Seq<Token>, k: int, m: int)
    requires
        toks.len() == 4 * m,
        0 <= k <= m,
        forall|j: int| 0 <= j < m ==> boolean_assignment_at(toks, j),
    ensures
        spec_items(toks, 4 * k) == Ok::<Seq<Ast>, crate::parser::ParseError>(boolean_assignments(toks, k, m)),
    decreases m - k,
{
    reveal_strlit("\n");
    reveal_strlit("=");
    reveal_strlit("true");
    reveal_strlit("false");
    if k < m {
        let p = 4 * k;
        assert(boolean_assignment_at(toks, k));
        lemma_boolean_items(toks, k + 1, m);
        let lit = Ast::Boolean(boolean_at(toks, k));
        assert(spec_primary(toks, p + 2) == Ok::<(Ast, int), crate::parser::ParseError>((lit, p + 3)));
        assert(spec_binops(toks, lit, p + 3) == Ok::<(Ast, int), crate::parser::ParseError>((lit, p + 3)));
        assert(spec_expr(toks, p + 2) == Ok::<(Ast, int), crate::parser::ParseError>((lit, p + 3)));
        assert(spec_statement(toks, p) == Ok::<(Ast, int), crate::parser::ParseError>(
            (boolean_assignment(toks, k), p + 3),
        ));
        assert(spec_try(toks, p) == Ok::<(Option<Ast>, int), crate::parser::ParseError>(
            (Some(boolean_assignment(toks, k)), p + 3),
        ));
        assert(spec_try(toks, p + 3) == Ok::<(Option<Ast>, int), crate::parser::ParseError>((None, p + 4)));
        assert(spec_items(toks, p + 3) == spec_items(toks, p + 4));
    }
}

proof fn lemma_boolean_assignments_index(toks: Seq<Token>, k: int, m: int)
    requires
        0 <= k <= m,
    ensures
        boolean_assignments(toks, k, m).len() == m - k,
        forall|j: int| 0 <= j < m - k ==> boolean_assignments(toks, k, m)[j] == boolean_assignment(toks, k + j),
    decreases m - k,
{
    if k < m {
        lemma_boolean_assignments_index(toks, k + 1, m);
        let s = boolean_assignments(toks, k, m);
        assert forall|j: int| 0 <= j < m - k implies s[j] == boolean_assignment(toks, k + j) by {
            if j > 0 {
                assert(s[j] == boolean_assignments(toks, k + 1, m)[j - 1]);
            }
        }
    }
}

proof fn lemma_boolean_extracted(toks: Seq<Token>, m: int, n: int)
    requires
        0 <= n <= m,
        toks.len() == 4 * m,
        forall|j: int| 0 <= j < m ==> boolean_assignment_at(toks, j),
    ensures
        extracted_items(boolean_assignments(toks, 0, m), n) == (StateView {
            variables: Seq::new(n as nat, |k: int| boolean_variable(toks, k)),
            draw_calls: seq![],
            control_flow: seq![],
        }),
    decreases n,
{
    reveal_strlit("Boolean(true)");
    reveal_strlit("Boolean(false)");
    let v = boolean_assignments(toks, 0, m);
    lemma_boolean_assignments_index(toks, 0, m);
    if n > 0 {
        lemma_boolean_extracted(toks, m, n - 1);
        let k = n - 1;
        assert(v[k] == boolean_assignment(toks, k));
        let b = boolean_at(toks, k);
        assert(kind_of(render(Ast::Boolean(b))) == "bool"@);
        let prev = extracted_items(v, n - 1);
        let e = extracted(v[k]);
        assert(e.variables =~= seq![boolean_variable(toks, k)]);
        assert(prev.plus(e).variables =~= Seq::new(n as nat, |k: int| boolean_variable(toks, k)));
        assert(prev.plus(e).draw_calls =~= Seq::<crate::types::DrawView>::empty());
        assert(prev.plus(e).control_flow =~= Seq::<crate::types::FlowView>::empty());
    } else {
        assert(Seq::new(0, |k: int| boolean_variable(toks, k)) =~= Seq::<VarView>::empty());
    }
}

/// Statements `name = true` / `name = false`, one per line, parse;
/// extraction records one variable per statement, in order, of the boolean
/// kind, and each variable's declaration carries the literal written in
/// the source.
pub proof fn law_boolean_assignments(toks: Seq<Token>, m: int)
    requires
        0 <= m,
        toks.len() == 4 * m,
        forall|j: int| 0 <= j < m ==> boolean_assignment_at(toks, j),
    ensures
        spec_program(toks) is Ok,
        extracted(spec_program(toks)->Ok_0) == (StateView {
            variables: Seq::new(m as nat, |k: int| boolean_variable(toks, k)),
            draw_calls: seq![],
            control_flow: seq![],
        }),
        forall|k: int|
            0 <= k < m ==> decl_text(#[trigger] boolean_variable(toks, k)) == let_line(
                toks[4 * k].value@,
                bool_text(boolean_at(toks, k)),
            ),
{
    lemma_boolean_items(toks, 0, m);
    lemma_boolean_assignments_index(toks, 0, m);
    lemma_boolean_extracted(toks, m, m);
    reveal_strlit("bool");
    assert forall|k: int| 0 <= k < m implies decl_text(#[trigger] boolean_variable(toks, k)) == let_line(
        toks[4 * k].value@,
        bool_text(boolean_at(toks, k)),
    ) by {
        lemma_bool_contains_true(boolean_at(toks, k));
    }
}

proof fn lemma_args_unclosed(toks: Seq<Token>, p: int)
    requires
        0 <= p <= toks.len(),
        forall|q: int| p <= q < toks.len() ==> !check_at(toks, q, TokenType::Symbol, ")"@),
    ensures
        match spec_args(toks, p) {
            Ok((args, q)) => q == toks.len(),
            Err(e) => true,
        },
    decreases toks.len() - p,
{
    if p < toks.len() {
        match spec_expr(toks, p) {
            Err(e) => {},
            Ok((a, p1)) => {
                if p < p1 <= toks.len() {
                    let p2 = if check_at(toks, p1, TokenType::Symbol, ","@) { p1 + 1 } else { p1 };
                    lemma_args_unclosed(toks, p2);
                }
            },
        }
    }
}

/// A fill call on the runtime whose opening parenthesis is never closed
/// makes the parse fail, so compilation produces no program.
pub proof fn law_unclosed_call_aborts(toks: Seq<Token>)
    requires
        toks.len() >= 3,
        check_at(toks, 0, TokenType::Keyword, "sdl2."@),
        check_at(toks, 1, TokenType::Identifier, "rect"@),
        check_at(toks, 2, TokenType::Symbol, "("@),
        forall|q: int| 3 <= q < toks.len() ==> !check_at(toks, q, TokenType::Symbol, ")"@),
    ensures
        spec_program(toks) is Err,
        crate::compiler::compiled(toks) is Err,
{
    reveal_strlit("sdl2.");
    reveal_strlit("sdl2");
    reveal_strlit("rect");
    reveal_strlit("(");
    reveal_strlit(".");
    reveal_strlit("true");
    reveal_strlit("false");
    reveal_strlit("while");
    reveal_strlit("if");
    reveal_strlit("\n");
    reveal_strlit("fill");
    reveal_strlit("draw_point");
    let path = crate::parser::path_text(toks, 0, 2);
    assert(crate::parser::path_end(toks, 2) == 2);
    assert(crate::parser::path_end(toks, 1) == 2);
    assert(crate::parser::path_end(toks, 0) == 2);
    assert(crate::parser::path_text(toks, 0, 0) == Seq::<char>::empty());
    assert(crate::parser::path_text(toks, 0, 1) =~= "sdl2."@);
    assert(crate::parser::path_text(toks, 0, 2) == crate::parser::path_text(toks, 0, 1) + "rect"@);
    assert(path =~= "sdl2."@ + "rect"@);
    assert(path.subrange(0, 4) =~= "sdl2"@);
    lemma_contains_at(path, "sdl2"@, 0);
    reveal_with_fuel(crate::parser::last_segment, 6);
    assert(crate::parser::last_segment(path) =~= "rect"@);
    lemma_args_unclosed(toks, 3);
    assert(spec_rect(toks, 2, path) is Err);
    assert(crate::parser::spec_call(toks, 0) is Err);
    assert(starts_with(toks[0].value@, "sdl2"@)) by {
        assert(toks[0].value@.take(4) =~= "sdl2"@);
    }
    assert(toks[0].value@ != "true"@);
    assert(toks[0].value@ != "false"@) by {
        assert("false"@[0] != toks[0].value@[0]);
    }
    assert(spec_primary(toks, 0) is Err);
    assert(spec_expr(toks, 0) is Err);
    assert(toks[0].value@ != "while"@) by {
        assert("while"@[0] != toks[0].value@[0]);
    }
    assert(toks[0].value@ != "if"@);
    assert(spec_statement(toks, 0) is Err);
    assert(spec_try(toks, 0) is Err);
    assert(spec_items(toks, 0) is Err);
}

proof fn lemma_prefix_dispatch(toks: Seq<Token>)
    requires
        toks.len() > 0,
        toks[0].token_type == TokenType::Keyword,
        starts_with(toks[0].value@, "sdl2"@),
    ensures
        spec_primary(toks, 0) == crate::parser::spec_call(toks, 0),
        spec_statement(toks, 0) == spec_expr(toks, 0),
{
    reveal_strlit("sdl2");
    reveal_strlit("true");
    reveal_strlit("false");
    reveal_strlit("while");
    reveal_strlit("if");
    let v = toks[0].value@;
    assert(v[0] == 's') by {
        assert(v.take(4)[0] == v[0]);
    }
    assert(v != "true"@ && v != "false"@ && v != "while"@ && v != "if"@) by {
        assert("true"@[0] != v[0]);
        assert("false"@[0] != v[0]);
        assert("while"@[0] != v[0]);
        assert("if"@[0] != v[0]);
    }
}

/// The statement at `0..end` followed by a line end that closes the input
/// makes a program of that one statement.
proof fn lemma_single_statement(toks: Seq<Token>, a: Ast, end: int)
    requires
        toks.len() == end + 1,
        0 < end,
        !check_at(toks, 0, TokenType::Eol, "\n"@),
        spec_statement(toks, 0) == Ok::<(Ast, int), crate::parser::ParseError>((a, end)),
        check_at(toks, end, TokenType::Eol, "\n"@),
    ensures
        spec_program(toks) == Ok::<Ast, crate::parser::ParseError>(Ast::Program(seq![a])),
{
    assert(spec_items(toks, end + 1) == Ok::<Seq<Ast>, crate::parser::ParseError>(seq![]));
    assert(crate::parser::cons_opt(None, seq![]) == Seq::<Ast>::empty());
    assert(spec_items(toks, end) == Ok::<Seq<Ast>, crate::parser::ParseError>(seq![]));
    assert(seq![a] + Seq::<Ast>::empty() =~= seq![a]);
}

/// Whether the input is one runtime call statement: a keyword beginning
/// with the runtime prefix starts a dotted path ending at `q0`, the path
/// names the runtime, its last segment is `name`, the arguments parsed
/// after the symbol at `q0` are `args`, a `)` at `q` closes them, and a
/// line end closes the input.
pub open spec fn runtime_call(toks: Seq<Token>, q0: int, args: Seq<Ast>, q: int) -> bool {
    let path = crate::parser::path_text(toks, 0, q0);
    &&& toks.len() == q + 2
    &&& toks[0].token_type == TokenType::Keyword
    &&& starts_with(toks[0].value@, "sdl2"@)
    &&& crate::parser::path_end(toks, 0) == q0
    &&& contains(path, "sdl2"@)
    &&& spec_args(toks, q0 + 1) == Ok::<(Seq<Ast>, int), crate::parser::ParseError>((args, q))
    &&& check_at(toks, q, TokenType::Symbol, ")"@)
    &&& check_at(toks, q + 1, TokenType::Eol, "\n"@)
}

proof fn lemma_call_statement(toks: Seq<Token>, q0: int, args: Seq<Ast>, q: int, d: Ast)
    requires
        runtime_call(toks, q0, args, q),
        0 < q0 < q,
        crate::parser::spec_call(toks, 0) == Ok::<(Ast, int), crate::parser::ParseError>((d, q + 1)),
    ensures
        spec_program(toks) == Ok::<Ast, crate::parser::ParseError>(Ast::Program(seq![d])),
        extracted(Ast::Program(seq![d])) == extracted_items(seq![d], 1),
        extracted_items(seq![d], 0) == StateView::empty(),
{
    lemma_prefix_dispatch(toks);
    assert(spec_binops(toks, d, q + 1) == Ok::<(Ast, int), crate::parser::ParseError>((d, q + 1)));
    assert(spec_expr(toks, 0) == Ok::<(Ast, int), crate::parser::ParseError>((d, q + 1)));
    lemma_single_statement(toks, d, q + 1);
    assert(seq![d][0] == d);
}

/// A runtime call whose path ends in `rect` or `fill` and which has at
/// least four arguments records exactly one draw call: a rectangle with
/// colour, position and width from the first four arguments, and the
/// height from the fifth, or `50` when there are only four.
pub proof fn law_rect_call(toks: Seq<Token>, q0: int, args: Seq<Ast>, q: int)
    requires
        runtime_call(toks, q0, args, q),
        crate::parser::last_segment(crate::parser::path_text(toks, 0, q0)) == "rect"@
            || crate::parser::last_segment(crate::parser::path_text(toks, 0, q0)) == "fill"@,
        check_at(toks, q0, TokenType::Symbol, "("@),
        args.len() >= 4,
    ensures
        spec_program(toks) is Ok,
        extracted(spec_program(toks)->Ok_0).variables.len() == 0,
        extracted(spec_program(toks)->Ok_0).draw_calls == seq![crate::parser::rect_draw(args)],
        crate::parser::rect_draw(args).draw_type == crate::types::DrawType::Rect,
        crate::parser::rect_draw(args).h == if args.len() == 4 {
            Some("50"@)
        } else {
            Some(render(args[4]))
        },
{
    reveal_strlit("(");
    reveal_strlit(")");
    let d = Ast::Draw(crate::parser::rect_draw(args));
    assert(0 < q0) by {
        if q0 <= 0 {
            assert(toks[0].token_type == TokenType::Keyword);
        }
    }
    assert(q0 < toks.len());
    assert(q0 + 1 <= q) by {
        if q < q0 + 1 {
            assert(spec_args(toks, q0 + 1) == spec_args(toks, q0 + 1));
        }
    }
    assert(spec_rect(toks, q0, crate::parser::path_text(toks, 0, q0)) == Ok::<(Ast, int), crate::parser::ParseError>((d, q + 1)));
    lemma_call_statement(toks, q0, args, q, d);
    let x = extracted(Ast::Program(seq![d]));
    let dv = crate::parser::rect_draw(args);
    assert(extracted(d).draw_calls =~= seq![dv]);
    assert(x.draw_calls == StateView::empty().draw_calls + extracted(d).draw_calls);
    assert(x.draw_calls =~= seq![dv]);
    assert(x.variables =~= Seq::<VarView>::empty());
}

/// A runtime call whose path ends in `draw_point` and which has at least
/// three arguments records exactly one draw call: a circle with colour and
/// centre from the first three arguments and the radius fixed at `50`,
/// whatever else is passed.
pub proof fn law_point_call(toks: Seq<Token>, q0: int, args: Seq<Ast>, q: int)
    requires
        runtime_call(toks, q0, args, q),
        crate::parser::last_segment(crate::parser::path_text(toks, 0, q0)) == "draw_point"@,
        check_at(toks, q0, TokenType::Symbol, seq![]),
        args.len() >= 3,
    ensures
        spec_program(toks) is Ok,
        extracted(spec_program(toks)->Ok_0).variables.len() == 0,
        extracted(spec_program(toks)->Ok_0).draw_calls == seq![crate::parser::point_draw(args)],
        crate::parser::point_draw(args).draw_type == crate::types::DrawType::Circle,
        crate::parser::point_draw(args).radius == Some("50"@),
        crate::parser::point_draw(args).w is None && crate::parser::point_draw(args).h is None,
{
    reveal_strlit("draw_point");
    reveal_strlit("rect");
    reveal_strlit("fill");
    reveal_strlit(")");
    let d = Ast::Draw(crate::parser::point_draw(args));
    assert("draw_point"@.len() == 10 && "rect"@.len() == 4 && "fill"@.len() == 4);
    assert(crate::parser::spec_point(toks, q0) == Ok::<(Ast, int), crate::parser::ParseError>((d, q + 1)));
    lemma_call_statement(toks, q0, args, q, d);
    let x = extracted(Ast::Program(seq![d]));
    let dv = crate::parser::point_draw(args);
    assert(extracted(d).draw_calls =~= seq![dv]);
    assert(x.draw_calls == StateView::empty().draw_calls + extracted(d).draw_calls);
    assert(x.draw_calls =~= seq![dv]);
    assert(x.variables =~= Seq::<VarView>::empty());
}

proof fn lemma_lex_lines_prefix(ls: Seq<Seq<char>>, j: int)
    requires
        0 <= j <= ls.len(),
    ensures
        crate::tokenizer::lex_lines(ls.take(j)).len() <= crate::tokenizer::lex_lines(ls).len(),
        forall|i: int|
            0 <= i < crate::tokenizer::lex_lines(ls.take(j)).len() ==> crate::tokenizer::lex_lines(ls)[i]
                == crate::tokenizer::lex_lines(ls.take(j))[i],
    decreases ls.len(),
{
    if j == ls.len() {
        assert(ls.take(j) =~= ls);
    } else {
        let dl = ls.drop_last();
        assert(ls.take(j) =~= dl.take(j));
        lemma_lex_lines_prefix(dl, j);
    }
}

/// On any line of a text that begins with the runtime prefix, the first
/// token of that line (the one after the previous line's end) is that
/// prefix as a keyword.
pub proof fn law_runtime_prefix_first(code: Seq<char>, k: int)
    requires
        0 <= k < crate::tokenizer::lines_of(code).len(),
        starts_with(crate::tokenizer::lines_of(code)[k], "sdl2."@),
    ensures
        ({
            let at = crate::tokenizer::lex_lines(crate::tokenizer::lines_of(code).take(k)).len();
            &&& at < crate::tokenizer::tokens_of(code).len()
            &&& crate::tokenizer::tokens_of(code)[at as int] == (crate::tokenizer::TokView {
                kind: TokenType::Keyword,
                text: "sdl2."@,
            })
            &&& k > 0 ==> crate::tokenizer::tokens_of(code)[at - 1] == crate::tokenizer::eol()
        }),
{
    reveal_strlit("sdl2.");
    let ls = crate::tokenizer::lines_of(code);
    let line = ls[k];
    let pre = "sdl2."@;
    assert(line.skip(0) =~= line);
    assert(line[0] == 's') by {
        assert(line.take(5)[0] == line[0]);
    }
    let t = crate::tokenizer::TokView { kind: TokenType::Keyword, text: pre };
    assert(crate::tokenizer::step_at(line, 0) == crate::tokenizer::Step::Emit(t, 5));
    assert(crate::tokenizer::lex_line(line, 0) == seq![t] + crate::tokenizer::lex_line(line, 5));
    let before = crate::tokenizer::lex_lines(ls.take(k));
    let upto = ls.take(k + 1);
    assert(upto.drop_last() =~= ls.take(k));
    assert(upto.last() == line);
    let with_line = crate::tokenizer::lex_lines(upto);
    assert(with_line == before + crate::tokenizer::lex_line(line, 0) + seq![crate::tokenizer::eol()]);
    assert(with_line[before.len() as int] == t);
    lemma_lex_lines_prefix(ls, k + 1);
    if k > 0 {
        let prev = ls.take(k);
        assert(prev.drop_last() =~= ls.take(k - 1));
        assert(before == crate::tokenizer::lex_lines(prev.drop_last()) + crate::tokenizer::lex_line(prev.last(), 0)
            + seq![crate::tokenizer::eol()]);
        assert(before[before.len() - 1] == crate::tokenizer::eol());
        assert(with_line[before.len() - 1] == before[before.len() - 1]);
    }
}

} // verus!
