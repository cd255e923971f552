use pysdl_compiler::compiler::compile;
use pysdl_compiler::generator::generate_rust;
use pysdl_compiler::parser::{extract_state, Expected, ParseError};
use pysdl_compiler::tokenizer::tokenize;
use pysdl_compiler::types::{DrawType, State, TokenType};

fn state_of(code: &str) -> State {
    extract_state(tokenize(code)).unwrap()
}

#[test]
fn integer_assignments_are_numeric() {
    let state = state_of("a = 1\nb = 22\nc = 333\n");
    let names: Vec<&str> = state.variables.iter().map(|v| v.name.as_str()).collect();
    assert_eq!(names, vec!["a", "b", "c"]);
    assert!(state.variables.iter().all(|v| v.tipo == "i32"));
    assert_eq!(state.variables[1].value, "Number(22)");
}

#[test]
fn boolean_assignment_emits_literal() {
    let state = state_of("flag = true\nother = false\n");
    assert_eq!(state.variables[0].tipo, "bool");
    assert_eq!(state.variables[0].value, "Boolean(true)");
    assert_eq!(state.variables[1].tipo, "bool");
    let out = generate_rust(&state);
    assert!(out.contains("    let mut flag = true;\n"));
    assert!(out.contains("    let mut other = false;\n"));
}

#[test]
fn rect_call_with_four_arguments() {
    let state = state_of("sdl2.draw.rect(color, 10, 20, 30)\n");
    assert_eq!(state.draw_calls.len(), 1);
    let d = &state.draw_calls[0];
    assert_eq!(d.draw_type, DrawType::Rect);
    assert_eq!(d.color, "Identifier(\"color\")");
    assert_eq!(d.x, "Number(10)");
    assert_eq!(d.y, "Number(20)");
    assert_eq!(d.w.as_deref(), Some("Number(30)"));
    assert_eq!(d.h.as_deref(), Some("50"));
    assert_eq!(d.radius, None);
}

#[test]
fn rect_call_with_five_arguments_keeps_height() {
    let state = state_of("sdl2.draw.rect(c, 1, 2, 3, 4)\n");
    assert_eq!(state.draw_calls[0].h.as_deref(), Some("Number(4)"));
}

#[test]
fn rect_call_with_three_arguments_is_no_draw() {
    let state = state_of("sdl2.draw.rect(c, 1, 2)\n");
    assert!(state.draw_calls.is_empty());
}

#[test]
fn point_call_has_fixed_radius() {
    let state = state_of("sdl2.draw_point(red, 5, 6, 99)\n");
    assert_eq!(state.draw_calls.len(), 1);
    let d = &state.draw_calls[0];
    assert_eq!(d.draw_type, DrawType::Circle);
    assert_eq!(d.radius.as_deref(), Some("50"));
    assert_eq!(d.x, "Number(5)");
    assert_eq!(d.y, "Number(6)");
    assert_eq!(d.w, None);
    let out = generate_rust(&state);
    assert!(out.contains("draw_circle(&mut canvas, Identifier(\"red\"), (Number(5), Number(6)), 50);"));
}

#[test]
fn generation_is_repeatable() {
    let state = state_of("x = 3\nsdl2.draw.rect(c, 1, 2, 3)\n");
    assert_eq!(generate_rust(&state), generate_rust(&state));
}

#[test]
fn duplicate_assignment_declared_once() {
    let out = compile("x = 1\ny = 2\nx = 5\n").unwrap();
    assert_eq!(out.matches("let mut x =").count(), 1);
    assert!(out.contains("    let mut x = 1;\n"));
    assert!(!out.contains("let mut x = 5;"));
}

#[test]
fn unbalanced_call_aborts() {
    let r = compile("sdl2.draw.rect(1, 2\n");
    assert_eq!(
        r,
        Err(ParseError { expected: TokenType::Symbol, found: TokenType::Eol, context: Expected::CloseParen })
    );
}

#[test]
fn point_call_without_parenthesis_aborts() {
    let r = extract_state(tokenize("sdl2.draw_point 5\n"));
    assert_eq!(
        r.err(),
        Some(ParseError { expected: TokenType::Symbol, found: TokenType::Number, context: Expected::OpenParen })
    );
}

#[test]
fn empty_program_generates_skeleton() {
    let out = compile("").unwrap();
    assert!(out.starts_with("use sdl2::pixels::Color;\n"));
    assert!(out.contains("    // Variables de usuario\n\n    let sdl_context = sdl2::init()?;"));
    assert!(out.ends_with("    Ok(())\n}\n"));
}

#[test]
fn string_with_comma_is_tuple() {
    let state = state_of("s = \"a,b\"\n");
    assert_eq!(state.variables[0].tipo, "tuple");
    assert_eq!(state.variables[0].value, "StringLiteral(\"\\\"a,b\\\"\")");
}

#[test]
fn binary_operation_rendering() {
    let state = state_of("x = 1 + y * 2\n");
    assert_eq!(
        state.variables[0].value,
        "BinaryOp { op: \"*\", left: BinaryOp { op: \"+\", left: Number(1), right: Identifier(\"y\") }, right: Number(2) }"
    );
}

#[test]
fn binary_assignment_is_tuple_kind() {
    let state = state_of("centro_x = ANCHO / 2\n");
    assert_eq!(state.variables[0].tipo, "tuple");
    let out = generate_rust(&state);
    assert!(out.contains("    let mut centro_x =    ,  ,  2 ;\n"));
}

#[test]
fn reserved_names_are_skipped() {
    let out = compile("rect = 4\nANCHO = 9\nok = 7\n").unwrap();
    assert!(!out.contains("let mut rect"));
    assert!(!out.contains("let mut ANCHO"));
    assert!(out.contains("    let mut ok = 7;\n"));
}

#[test]
fn oversized_number_reads_as_zero() {
    let state = state_of("n = 99999999999\n");
    assert_eq!(state.variables[0].value, "Number(0)");
}

#[test]
fn string_value_loses_quotes() {
    let out = compile("name = \"hola\"\n").unwrap();
    assert!(out.contains("    let mut name = StringLiteral(\"\\\"hola\\\"\");\n"));
}

#[test]
fn control_flow_is_flattened() {
    let state = state_of("while (x)\n  y = 1\n  sdl2.draw.rect(c, 1, 2, 3)\n");
    assert_eq!(state.control_flow.len(), 1);
    assert_eq!(state.control_flow[0].control_type, "while");
    assert_eq!(state.control_flow[0].condition.as_deref(), Some("Identifier(\"x\")"));
    assert_eq!(state.variables.len(), 1);
    assert_eq!(state.draw_calls.len(), 1);
}

#[test]
fn rect_fragment_text() {
    let out = compile("sdl2.draw.rect(c, 1, 2, 3)\n").unwrap();
    assert!(out.contains("        println!(\"Debug: Processing draw call: {:?}\", DrawCall { draw_type: Rect, x: \"Number(1)\", y: \"Number(2)\", w: Some(\"Number(3)\"), h: Some(\"50\"), radius: None, color: \"Identifier(\\\"c\\\")\" });\n"));
    assert!(out.contains("                   let rect_w = Number(3);\n                   let rect_h = 50;\n"));
}

#[test]
fn stray_keyword_value_is_ignored() {
    let state = state_of("w = while\n");
    assert_eq!(state.variables[0].value, "Ignore");
    let out = generate_rust(&state);
    assert!(!out.contains("let mut w"));
}
