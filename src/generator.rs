use vstd::prelude::*;
use crate::ast::{render_draw, render_draw_call};
use crate::text::{
    contains, contains_text, is_numeric, is_whitespace, numeric_of, remove_all, remove_text, same_text,
    string_from, to_chars, whitespace_of,
};
use crate::types::{DrawCall, DrawType, DrawView, State, StateView, VarView, Variable};

verus! {

/// The fixed text before the user variables: imports, window constants,
/// the filled-circle helper, the entry point and its colour palette.
pub const HEADER: &'static str = r#"use sdl2::pixels::Color;
use sdl2::event::Event;
use sdl2::keyboard::Keycode;
use sdl2::rect::Rect;
use std::time::Duration;

const ANCHO: u32 = 800;
const ALTO: u32 = 600;


fn draw_circle(canvas: &mut sdl2::render::Canvas<sdl2::video::Window>, color: Color, center: (i32, i32), radius: i32) {
    let (cx, cy) = center;
    canvas.set_draw_color(color);
    for dx in -radius..=radius {
        for dy in -radius..=radius {
            if dx * dx + dy * dy <= radius * radius {
                let _ = canvas.draw_point((cx + dx, cy + dy));
            }
        }
    }
}

fn main() -> Result<(), String> {
    // Definición de colores
    let _BLANCO: Color = Color::RGB(255, 255, 255);
    let NEGRO: Color = Color::RGB(0, 0, 0);
    let _ROJO: Color = Color::RGB(255, 0, 0);

    // Variables de usuario
"#;

/// The fixed text between the user variables and the draw calls: runtime
/// set-up, the event loop head and the per-frame clear.
pub const LOOP_START: &'static str = r#"
    let sdl_context = sdl2::init()?;
    let video_subsystem = sdl_context.video()?;

    let window = video_subsystem
        .window("SDL Window", ANCHO, ALTO)
        .position_centered()
        .build()
        .map_err(|e| e.to_string())?;

    let mut canvas = window
        .into_canvas()
        .build()
        .map_err(|e| e.to_string())?;
    
    let mut event_pump = sdl_context.event_pump()?;
    let mut running = true;

    while running {
        for event in event_pump.poll_iter() {
            match event {
                Event::Quit { .. } |
                Event::KeyDown { keycode: Some(Keycode::Escape), .. } => {
                    running = false;
                },
                _ => {}
            }
        }

        canvas.set_draw_color(NEGRO);
        canvas.clear();
"#;

/// The fixed text that presents each frame and closes the program.
pub const FOOTER: &'static str = r#"
        canvas.present();
        ::std::thread::sleep(Duration::new(0, 1_000_000_000u32 / 60));
    }

    Ok(())
}
"#;

pub const RECT_X: &'static str = r#"
                {
                   let rect_x = "#;

pub const RECT_Y: &'static str = r#";
                   let rect_y = "#;

pub const RECT_W: &'static str = r#";
                   let rect_w = "#;

pub const RECT_H: &'static str = r#";
                   let rect_h = "#;

pub const RECT_COLOR: &'static str = r#";
                   let rect = Rect::new(rect_x, rect_y, rect_w as u32, rect_h as u32);
                   let color = "#;

pub const RECT_END: &'static str = r#";
                   canvas.set_draw_color(color);
                   canvas.fill_rect(rect)?;
                 }
               "#;

pub const CIRCLE_COLOR: &'static str = r#"
        draw_circle(&mut canvas, "#;

pub const CIRCLE_X: &'static str = ", (";

pub const CIRCLE_Y: &'static str = ", ";

pub const CIRCLE_RADIUS: &'static str = "), ";

pub const CIRCLE_END: &'static str = ");\n";

pub const DEBUG_START: &'static str = "        println!(\"Debug: Processing draw call: {:?}\", ";

pub const DEBUG_END: &'static str = ");\n";

/// Names that never receive a declaration: the palette and window
/// constants, and identifiers the emitted program uses itself.
pub open spec fn is_reserved(n: Seq<char>) -> bool {
    n == "ANCHO"@ || n == "ALTO"@ || n == "_BLANCO"@ || n == "NEGRO"@ || n == "_ROJO"@ || n == "window"@
        || n == "size"@ || n == "renderer"@ || n == "cy"@ || n == "type"@ || n == "rect"@ || n == "center"@
}

pub open spec fn ws_pred() -> spec_fn(char) -> bool {
    |c: char| whitespace_of(c)
}

pub open spec fn quote_pred() -> spec_fn(char) -> bool {
    |c: char| c == '"'
}

/// `s` without leading and trailing characters that satisfy `f`.
pub open spec fn strip(s: Seq<char>, f: spec_fn(char) -> bool) -> Seq<char> {
    crate::text::strip_end(crate::text::strip_start(s, f), f)
}

/// The characters of `s` that are numeric, commas or spaces, in order.
pub open spec fn tuple_text(s: Seq<char>) -> Seq<char>
    decreases s.len(),
{
    if s.len() == 0 {
        s
    } else {
        let c = s.last();
        let rest = tuple_text(s.drop_last());
        if numeric_of(c) || c == ',' || c == ' ' {
            rest.push(c)
        } else {
            rest
        }
    }
}

pub open spec fn let_line(name: Seq<char>, value: Seq<char>) -> Seq<char> {
    "    let mut "@ + name + " = "@ + value + ";\n"@
}

/// The declaration emitted for one variable, or nothing when its value
/// cannot be rendered.
pub open spec fn decl_text(v: VarView) -> Seq<char> {
    if v.tipo == "bool"@ {
        let_line(v.name, if contains(v.value, "true"@) { "true"@ } else { "false"@ })
    } else if v.tipo == "tuple"@ {
        if !contains(v.value, "undefined"@) && v.value.len() > 0 {
            let_line(v.name, tuple_text(v.value))
        } else {
            Seq::empty()
        }
    } else if contains(v.value, "Number("@) {
        let_line(v.name, strip(remove_all(remove_all(v.value, "Number("@), ")"@), ws_pred()))
    } else if contains(v.value, "BinaryOp"@) {
        if v.name == "centro_x"@ {
            "    let mut "@ + v.name + " = (ANCHO / 2) as i32;\n"@
        } else if v.name == "centro_y"@ {
            "    let mut "@ + v.name + " = (ALTO / 2) as i32;\n"@
        } else {
            Seq::empty()
        }
    } else if !contains(v.value, "undefined"@) && !contains(v.value, "Ignore"@) {
        let_line(v.name, strip(v.value, quote_pred()))
    } else {
        Seq::empty()
    }
}

/// The declarations for `vars`, given the names already declared: each
/// name is declared at its first unreserved occurrence only.
pub open spec fn decls_text(vars: Seq<VarView>, used: Set<Seq<char>>) -> Seq<char>
    decreases vars.len(),
{
    if vars.len() == 0 {
        Seq::empty()
    } else {
        let v = vars[0];
        if !used.contains(v.name) && !is_reserved(v.name) {
            decl_text(v) + decls_text(vars.drop_first(), used.insert(v.name))
        } else {
            decls_text(vars.drop_first(), used)
        }
    }
}

pub open spec fn or_default(o: Option<Seq<char>>) -> Seq<char> {
    match o {
        Some(s) => s,
        None => "50"@,
    }
}

/// The fragment emitted for one draw call: a debug print of the call, then
/// a filled rectangle or a filled circle.
pub open spec fn draw_text(d: DrawView) -> Seq<char> {
    DEBUG_START@ + render_draw(d) + DEBUG_END@ + shape_text(d)
}

/// The statements that render one draw call.
pub open spec fn shape_text(d: DrawView) -> Seq<char> {
    match d.draw_type {
        DrawType::Rect => RECT_X@ + d.x + RECT_Y@ + d.y + RECT_W@ + or_default(d.w) + RECT_H@ + or_default(d.h)
            + RECT_COLOR@ + d.color + RECT_END@,
        DrawType::Circle => CIRCLE_COLOR@ + d.color + CIRCLE_X@ + d.x + CIRCLE_Y@ + d.y + CIRCLE_RADIUS@
            + or_default(d.radius) + CIRCLE_END@,
    }
}

/// The fragments for a list of draw calls, in order.
pub open spec fn draws_text(ds: Seq<DrawView>) -> Seq<char>
    decreases ds.len(),
{
    if ds.len() == 0 {
        Seq::empty()
    } else {
        draws_text(ds.drop_last()) + draw_text(ds.last())
    }
}

/// The whole program emitted for a state.
pub open spec fn generated(s: StateView) -> Seq<char> {
    HEADER@ + decls_text(s.variables, Set::empty()) + LOOP_START@ + draws_text(s.draw_calls) + FOOTER@
}

/// The names held in `used`.
pub open spec fn names(used: Seq<String>) -> Set<Seq<char>> {
    Set::new(|x: Seq<char>| exists|k: int| 0 <= k < used.len() && (#[trigger] used[k])@ == x)
}

proof fn lemma_names_push(u: Seq<String>, s: String)
    ensures
        names(u.push(s)) == names(u).insert(s@),
{
    assert forall|x: Seq<char>| names(u.push(s)).contains(x) == names(u).insert(s@).contains(x) by {
        if names(u).contains(x) {
            let k = choose|k: int| 0 <= k < u.len() && (#[trigger] u[k])@ == x;
            assert(u.push(s)[k]@ == x);
        }
        if x == s@ {
            assert(u.push(s)[u.len() as int]@ == x);
        }
        if names(u.push(s)).contains(x) {
            let k = choose|k: int| 0 <= k < u.len() + 1 && (#[trigger] u.push(s)[k])@ == x;
            if k < u.len() {
                assert(u[k]@ == x);
            }
        }
    }
    assert(names(u.push(s)) =~= names(u).insert(s@));
}

fn pred_holds(c: char, quotes: bool) -> (r: bool)
    ensures
        r == (if quotes { quote_pred() } else { ws_pred() })(c),
{
    if quotes {
        c == '"'
    } else {
        is_whitespace(c)
    }
}

/// `cs` without leading and trailing double quotes (`quotes`) or white
/// space (otherwise).
fn strip_chars(cs: &Vec<char>, quotes: bool) -> (r: Vec<char>)
    ensures
        r@ == strip(cs@, if quotes { quote_pred() } else { ws_pred() }),
{
    let ghost f = if quotes { quote_pred() } else { ws_pred() };
    let mut lo: usize = 0;
    assert(cs@.skip(0) =~= cs@);
    while lo < cs.len() && pred_holds(cs[lo], quotes)
        invariant
            lo <= cs@.len(),
            f == (if quotes { quote_pred() } else { ws_pred() }),
            crate::text::strip_start(cs@, f) == crate::text::strip_start(cs@.skip(lo as int), f),
        decreases cs@.len() - lo,
    {
        assert(cs@.skip(lo as int).drop_first() =~= cs@.skip(lo + 1));
        lo = lo + 1;
    }
    let mut hi: usize = cs.len();
    assert(cs@.skip(lo as int) =~= cs@.subrange(lo as int, hi as int));
    while hi > lo && pred_holds(cs[hi - 1], quotes)
        invariant
            lo <= hi <= cs@.len(),
            f == (if quotes { quote_pred() } else { ws_pred() }),
            crate::text::strip_start(cs@, f) == cs@.skip(lo as int),
            crate::text::strip_end(cs@.skip(lo as int), f) == crate::text::strip_end(
                cs@.subrange(lo as int, hi as int),
                f,
            ),
        decreases hi - lo,
    {
        assert(cs@.subrange(lo as int, hi as int).drop_last() =~= cs@.subrange(lo as int, hi - 1));
        hi = hi - 1;
    }
    let mut out: Vec<char> = Vec::new();
    let mut i: usize = lo;
    while i < hi
        invariant
            lo <= i <= hi <= cs@.len(),
            out@ == cs@.subrange(lo as int, i as int),
        decreases hi - i,
    {
        out.push(cs[i]);
        assert(out@ =~= cs@.subrange(lo as int, i + 1));
        i = i + 1;
    }
    out
}

/// The numeric, comma and space characters of `cs`, in order.
fn tuple_values(cs: &Vec<char>) -> (r: Vec<char>)
    ensures
        r@ == tuple_text(cs@),
{
    let mut out: Vec<char> = Vec::new();
    let mut i: usize = 0;
    assert(cs@.take(0) =~= Seq::<char>::empty());
    while i < cs.len()
        invariant
            i <= cs@.len(),
            out@ == tuple_text(cs@.take(i as int)),
        decreases cs@.len() - i,
    {
        let c = cs[i];
        assert(cs@.take(i + 1).drop_last() =~= cs@.take(i as int));
        if is_numeric(c) || c == ',' || c == ' ' {
            out.push(c);
        }
        i = i + 1;
    }
    assert(cs@.take(cs@.len() as int) =~= cs@);
    out
}

fn is_reserved_name(n: &str) -> (r: bool)
    ensures
        r == is_reserved(n@),
{
    same_text(n, "ANCHO") || same_text(n, "ALTO") || same_text(n, "_BLANCO") || same_text(n, "NEGRO")
        || same_text(n, "_ROJO") || same_text(n, "window") || same_text(n, "size") || same_text(n, "renderer")
        || same_text(n, "cy") || same_text(n, "type") || same_text(n, "rect") || same_text(n, "center")
}

fn name_used(used: &Vec<String>, name: &str) -> (r: bool)
    ensures
        r == names(used@).contains(name@),
{
    let mut k: usize = 0;
    while k < used.len()
        invariant
            k <= used@.len(),
            forall|j: int| 0 <= j < k ==> (#[trigger] used@[j])@ != name@,
        decreases used@.len() - k,
    {
        if same_text(used[k].as_str(), name) {
            assert(used@[k as int]@ == name@);
            return true;
        }
        k = k + 1;
    }
    false
}

fn let_line_text(name: &str, value: &str) -> (r: String)
    ensures
        r@ == let_line(name@, value@),
{
    let mut r = String::from_str("    let mut ");
    r.append(name);
    r.append(" = ");
    r.append(value);
    r.append(";\n");
    r
}

/// The declaration emitted for one variable (see `decl_text`).
fn declaration(v: &Variable) -> (r: String)
    ensures
        r@ == decl_text(v@),
{
    let name = v.name.as_str();
    let value = v.value.as_str();
    let vc = to_chars(value);
    if same_text(v.tipo.as_str(), "bool") {
        if contains_text(&vc, "true") {
            let_line_text(name, "true")
        } else {
            let_line_text(name, "false")
        }
    } else if same_text(v.tipo.as_str(), "tuple") {
        if !contains_text(&vc, "undefined") && vc.len() > 0 {
            let t = tuple_values(&vc);
            let_line_text(name, string_from(&t, 0, t.len()).as_str())
        } else {
            String::new()
        }
    } else if contains_text(&vc, "Number(") {
        proof {
            reveal_strlit("Number(");
            reveal_strlit(")");
        }
        let a = remove_text(&vc, "Number(");
        let b = remove_text(&a, ")");
        let t = strip_chars(&b, false);
        let_line_text(name, string_from(&t, 0, t.len()).as_str())
    } else if contains_text(&vc, "BinaryOp") {
        if same_text(name, "centro_x") {
            let mut r = String::from_str("    let mut ");
            r.append(name);
            r.append(" = (ANCHO / 2) as i32;\n");
            r
        } else if same_text(name, "centro_y") {
            let mut r = String::from_str("    let mut ");
            r.append(name);
            r.append(" = (ALTO / 2) as i32;\n");
            r
        } else {
            String::new()
        }
    } else if !contains_text(&vc, "undefined") && !contains_text(&vc, "Ignore") {
        let t = strip_chars(&vc, true);
        let_line_text(name, string_from(&t, 0, t.len()).as_str())
    } else {
        String::new()
    }
}

fn shape_fragment(d: &DrawCall) -> (r: String)
    ensures
        r@ == shape_text(d@),
{
    match d.draw_type {
        DrawType::Rect => {
            let mut r = String::from_str(RECT_X);
            r.append(d.x.as_str());
            r.append(RECT_Y);
            r.append(d.y.as_str());
            r.append(RECT_W);
            match &d.w {
                Some(w) => r.append(w.as_str()),
                None => r.append("50"),
            }
            r.append(RECT_H);
            match &d.h {
                Some(h) => r.append(h.as_str()),
                None => r.append("50"),
            }
            r.append(RECT_COLOR);
            r.append(d.color.as_str());
            r.append(RECT_END);
            r
        },
        DrawType::Circle => {
            let mut r = String::from_str(CIRCLE_COLOR);
            r.append(d.color.as_str());
            r.append(CIRCLE_X);
            r.append(d.x.as_str());
            r.append(CIRCLE_Y);
            r.append(d.y.as_str());
            r.append(CIRCLE_RADIUS);
            match &d.radius {
                Some(radius) => r.append(radius.as_str()),
                None => r.append("50"),
            }
            r.append(CIRCLE_END);
            r
        },
    }
}

/// The fragment emitted for one draw call (see `draw_text`).
fn draw_fragment(d: &DrawCall) -> (r: String)
    ensures
        r@ == draw_text(d@),
{
    let mut r = String::from_str(DEBUG_START);
    r.append(render_draw_call(d).as_str());
    r.append(DEBUG_END);
    r.append(shape_fragment(d).as_str());
    r
}

/// Emits the Rust program for a state: the fixed preamble, one declaration
/// per first-seen unreserved variable, the event loop, one fragment per
/// draw call in order, and the fixed closing text.
pub fn generate_rust(state: &State) -> (r: String)
    ensures
        r@ == generated(state@),
{
    let ghost vars = state@.variables;
    let ghost draws = state@.draw_calls;
    let mut decls = String::new();
    let mut used: Vec<String> = Vec::new();
    assert(names(used@) =~= Set::<Seq<char>>::empty());
    assert(vars.skip(0) =~= vars);
    assert(decls@ + decls_text(vars, Set::empty()) =~= decls_text(vars, Set::empty()));
    let mut i: usize = 0;
    while i < state.variables.len()
        invariant
            i <= state.variables@.len(),
            vars == state@.variables,
            decls_text(vars, Set::empty()) == decls@ + decls_text(vars.skip(i as int), names(used@)),
        decreases state.variables@.len() - i,
    {
        let var = &state.variables[i];
        let ghost rest = vars.skip(i + 1);
        assert(vars.skip(i as int).drop_first() =~= rest);
        assert(vars.skip(i as int)[0] == var@);
        if !name_used(&used, var.name.as_str()) && !is_reserved_name(var.name.as_str()) {
            let d = declaration(var);
            let ghost before = decls@;
            decls.append(d.as_str());
            proof {
                lemma_names_push(used@, var.name);
                assert(before + (d@ + decls_text(rest, names(used@).insert(var.name@))) =~= decls@
                    + decls_text(rest, names(used@).insert(var.name@)));
            }
            used.push(var.name.clone());
        }
        i = i + 1;
    }
    assert(vars.skip(i as int) =~= Seq::<VarView>::empty());
    assert(decls@ + Seq::<char>::empty() =~= decls@);
    let mut rust_code = String::from_str(HEADER);
    rust_code.append(decls.as_str());
    rust_code.append(LOOP_START);
    let mut body = String::new();
    let mut j: usize = 0;
    assert(draws.take(0) =~= Seq::<DrawView>::empty());
    while j < state.draw_calls.len()
        invariant
            j <= state.draw_calls@.len(),
            draws == state@.draw_calls,
            body@ == draws_text(draws.take(j as int)),
        decreases state.draw_calls@.len() - j,
    {
        assert(draws.take(j + 1).drop_last() =~= draws.take(j as int));
        body.append(draw_fragment(&state.draw_calls[j]).as_str());
        j = j + 1;
    }
    assert(draws.take(j as int) =~= draws);
    rust_code.append(body.as_str());
    rust_code.append(FOOTER);
    rust_code
}

proof fn lemma_drop_known(vars: Seq<VarView>, used: Set<Seq<char>>, j: int)
    requires
        0 <= j < vars.len(),
        used.contains(vars[j].name) || is_reserved(vars[j].name),
    ensures
        decls_text(vars, used) == decls_text(vars.remove(j), used),
    decreases j,
{
    let rest = vars.remove(j);
    if j == 0 {
        assert(rest =~= vars.drop_first());
    } else {
        let v = vars[0];
        assert(rest[0] == v);
        assert(rest.drop_first() =~= vars.drop_first().remove(j - 1));
        if !used.contains(v.name) && !is_reserved(v.name) {
            lemma_drop_known(vars.drop_first(), used.insert(v.name), j - 1);
        } else {
            lemma_drop_known(vars.drop_first(), used, j - 1);
        }
    }
}

proof fn lemma_drop_duplicate(vars: Seq<VarView>, used: Set<Seq<char>>, i: int, j: int)
    requires
        0 <= i < j < vars.len(),
        vars[i].name == vars[j].name,
    ensures
        decls_text(vars, used) == decls_text(vars.remove(j), used),
    decreases i,
{
    let rest = vars.remove(j);
    let v = vars[0];
    assert(rest[0] == v);
    assert(rest.drop_first() =~= vars.drop_first().remove(j - 1));
    if i == 0 {
        if !used.contains(v.name) && !is_reserved(v.name) {
            lemma_drop_known(vars.drop_first(), used.insert(v.name), j - 1);
        } else {
            lemma_drop_known(vars, used, j);
        }
    } else if !used.contains(v.name) && !is_reserved(v.name) {
        lemma_drop_duplicate(vars.drop_first(), used.insert(v.name), i - 1, j - 1);
    } else {
        lemma_drop_duplicate(vars.drop_first(), used, i - 1, j - 1);
    }
}

/// A later assignment to a name that an earlier one already used adds no
/// declaration: the program generated with it equals the one generated
/// without it.
pub proof fn law_first_declaration_wins(s: StateView, i: int, j: int)
    requires
        0 <= i < j < s.variables.len(),
        s.variables[i].name == s.variables[j].name,
    ensures
        generated(s) == generated(
            StateView { variables: s.variables.remove(j), draw_calls: s.draw_calls, control_flow: s.control_flow },
        ),
{
    lemma_drop_duplicate(s.variables, Set::empty(), i, j);
}

/// `vars` without every variable whose name occurs earlier in `vars` or
/// in `seen`.
pub open spec fn first_occurrences(vars: Seq<VarView>, seen: Set<Seq<char>>) -> Seq<VarView>
    decreases vars.len(),
{
    if vars.len() == 0 {
        vars
    } else if seen.contains(vars[0].name) {
        first_occurrences(vars.drop_first(), seen)
    } else {
        seq![vars[0]] + first_occurrences(vars.drop_first(), seen.insert(vars[0].name))
    }
}

proof fn lemma_first_occurrences(vars: Seq<VarView>, used: Set<Seq<char>>, seen: Set<Seq<char>>)
    requires
        used.subset_of(seen),
        forall|x: Seq<char>| seen.contains(x) ==> used.contains(x) || is_reserved(x),
    ensures
        decls_text(vars, used) == decls_text(first_occurrences(vars, seen), used),
    decreases vars.len(),
{
    if vars.len() > 0 {
        let v = vars[0];
        let rest = vars.drop_first();
        if seen.contains(v.name) {
            lemma_first_occurrences(rest, used, seen);
        } else {
            let kept = seq![v] + first_occurrences(rest, seen.insert(v.name));
            assert(kept[0] == v);
            assert(kept.drop_first() =~= first_occurrences(rest, seen.insert(v.name)));
            if is_reserved(v.name) {
                lemma_first_occurrences(rest, used, seen.insert(v.name));
            } else {
                lemma_first_occurrences(rest, used.insert(v.name), seen.insert(v.name));
            }
        }
    }
}

/// Removing every later assignment to an already used name leaves the
/// generated program unchanged: only a name's first occurrence can be
/// declared.
pub proof fn law_later_duplicates_add_nothing(s: StateView)
    ensures
        generated(s) == generated(
            StateView {
                variables: first_occurrences(s.variables, Set::empty()),
                draw_calls: s.draw_calls,
                control_flow: s.control_flow,
            },
        ),
{
    lemma_first_occurrences(s.variables, Set::empty(), Set::empty());
}

/// Whether `whole` is `before`, then `part`, then `after`.
pub open spec fn surrounds(whole: Seq<char>, before: Seq<char>, part: Seq<char>, after: Seq<char>) -> bool {
    whole == before + part + after
}

proof fn lemma_declared(vars: Seq<VarView>, used: Set<Seq<char>>, i: int)
    requires
        0 <= i < vars.len(),
        !used.contains(vars[i].name),
        !is_reserved(vars[i].name),
        forall|j: int| 0 <= j < i ==> vars[j].name != vars[i].name,
    ensures
        exists|before: Seq<char>, after: Seq<char>| #[trigger] surrounds(decls_text(vars, used), before, decl_text(vars[i]), after),
    decreases i,
{
    let v = vars[0];
    let rest = vars.drop_first();
    if i == 0 {
        assert(surrounds(decls_text(vars, used), Seq::<char>::empty(), decl_text(vars[i]), decls_text(rest, used.insert(v.name))));
    } else {
        assert(rest[i - 1] == vars[i]);
        let used2 = if !used.contains(v.name) && !is_reserved(v.name) { used.insert(v.name) } else { used };
        assert(forall|j: int| 0 <= j < i - 1 ==> rest[j] == vars[j + 1]);
        lemma_declared(rest, used2, i - 1);
        let (b, a) = choose|b: Seq<char>, a: Seq<char>| #[trigger] surrounds(decls_text(rest, used2), b, decl_text(rest[i - 1]), a);
        if !used.contains(v.name) && !is_reserved(v.name) {
            assert(decls_text(vars, used) =~= (decl_text(v) + b) + decl_text(vars[i]) + a);
            assert(surrounds(decls_text(vars, used), decl_text(v) + b, decl_text(vars[i]), a));
        } else {
            assert(surrounds(decls_text(vars, used), b, decl_text(vars[i]), a));
        }
    }
}

/// A variable whose name is not reserved and not used by an earlier
/// variable has its declaration in the generated program, between the
/// fixed preamble and the event loop.
pub proof fn law_first_occurrence_declared(s: StateView, i: int)
    requires
        0 <= i < s.variables.len(),
        !is_reserved(s.variables[i].name),
        forall|j: int| 0 <= j < i ==> s.variables[j].name != s.variables[i].name,
    ensures
        exists|before: Seq<char>, after: Seq<char>|
            #[trigger] surrounds(
                generated(s),
                HEADER@ + before,
                decl_text(s.variables[i]),
                after + LOOP_START@ + draws_text(s.draw_calls) + FOOTER@,
            ),
{
    lemma_declared(s.variables, Set::empty(), i);
    let (b, a) = choose|b: Seq<char>, a: Seq<char>| #[trigger] surrounds(decls_text(s.variables, Set::empty()), b, decl_text(s.variables[i]), a);
    let tail = LOOP_START@ + draws_text(s.draw_calls) + FOOTER@;
    assert(generated(s) =~= (HEADER@ + b) + decl_text(s.variables[i]) + (a + tail));
    assert(a + LOOP_START@ + draws_text(s.draw_calls) + FOOTER@ =~= a + tail);
    assert(surrounds(generated(s), HEADER@ + b, decl_text(s.variables[i]), a + LOOP_START@ + draws_text(s.draw_calls) + FOOTER@));
}

/// Generation depends on the state alone: two runs on the same state emit
/// the same text.
pub proof fn law_generation_deterministic(state: &State, first: String, second: String)
    requires
        first@ == generated(state@),
        second@ == generated(state@),
    ensures
        first@ == second@,
{
}

} // verus!
