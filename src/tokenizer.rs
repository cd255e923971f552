use vstd::prelude::*;
use regex::Regex;
use crate::text::{
    is_whitespace, starts_with, starts_with_text, string_from, to_chars, whitespace_of,
};
use crate::types::{Token, TokenType};

verus! {

/// The model of a token: its kind and text.
pub struct TokView {
    pub kind: TokenType,
    pub text: Seq<char>,
}

impl Token {
    pub open spec fn view(&self) -> TokView {
        TokView { kind: self.token_type, text: self.value@ }
    }
}

/// A character the tokenizer did not recognise: 1-based line and column.
#[derive(PartialEq, Eq, Structural, Debug, Clone, Copy)]
pub struct LexWarning {
    pub line: usize,
    pub column: usize,
    pub character: char,
}

/// The model of a `LexWarning`.
pub struct WarningView {
    pub line: int,
    pub column: int,
    pub character: char,
}

impl LexWarning {
    pub open spec fn view(&self) -> WarningView {
        WarningView { line: self.line as int, column: self.column as int, character: self.character }
    }
}

/// The models of a list of warnings.
pub open spec fn warning_views(ws: Seq<LexWarning>) -> Seq<WarningView>
    decreases ws.len(),
{
    if ws.len() == 0 {
        seq![]
    } else {
        warning_views(ws.drop_last()).push(ws.last()@)
    }
}

pub open spec fn ascii_alpha(c: char) -> bool {
    ('a' <= c && c <= 'z') || ('A' <= c && c <= 'Z')
}

pub open spec fn ascii_digit(c: char) -> bool {
    '0' <= c && c <= '9'
}

/// The number of leading characters of `s` that satisfy `f`.
pub open spec fn run_len(s: Seq<char>, f: spec_fn(char) -> bool) -> nat
    decreases s.len(),
{
    if s.len() > 0 && f(s[0]) {
        1 + run_len(s.drop_first(), f)
    } else {
        0
    }
}

pub open spec fn word_char() -> spec_fn(char) -> bool {
    |c: char| ascii_alpha(c) || ascii_digit(c) || c == '_'
}

pub open spec fn digit_char_pred() -> spec_fn(char) -> bool {
    |c: char| ascii_digit(c)
}

/// Length of the identifier `[A-Za-z_][A-Za-z0-9_]*` at the start of `s`,
/// or 0.
pub open spec fn ident_len(s: Seq<char>) -> nat {
    if s.len() > 0 && (ascii_alpha(s[0]) || s[0] == '_') {
        1 + run_len(s.drop_first(), word_char())
    } else {
        0
    }
}

/// Length of the run of ASCII digits at the start of `s`.
pub open spec fn digits_len(s: Seq<char>) -> nat {
    run_len(s, digit_char_pred())
}

/// Scanning a string literal's body from `i`: the length up to and
/// including the first unescaped `"`, or 0 when the text ends first or a
/// backslash has nothing after it on the line.
pub open spec fn string_body_len(s: Seq<char>, i: int) -> nat
    decreases s.len() - i,
{
    if i < 0 || i >= s.len() {
        0
    } else if s[i] == '"' {
        (i + 1) as nat
    } else if s[i] == '\\' {
        if i + 1 < s.len() && s[i + 1] != '\n' {
            string_body_len(s, i + 2)
        } else {
            0
        }
    } else {
        string_body_len(s, i + 1)
    }
}

/// Length of the double-quoted literal with backslash escapes at the start
/// of `s`, or 0.
pub open spec fn string_len(s: Seq<char>) -> nat {
    if s.len() > 0 && s[0] == '"' {
        string_body_len(s, 1)
    } else {
        0
    }
}

pub open spec fn is_symbol_char(c: char) -> bool {
    c == '(' || c == ')' || c == ',' || c == ':' || c == '#' || c == '+' || c == '-' || c == '*' || c == '/'
        || c == '=' || c == '.' || c == '>' || c == '<'
}

/// Length of the symbol at the start of `s` (`//` before `/`), or 0.
pub open spec fn symbol_len(s: Seq<char>) -> nat {
    if s.len() >= 2 && s[0] == '/' && s[1] == '/' {
        2
    } else if s.len() > 0 && is_symbol_char(s[0]) {
        1
    } else {
        0
    }
}

/// The match length `n` as a regex search reports it: nothing when 0.
pub open spec fn found(s: Seq<char>, n: nat) -> Option<Seq<char>> {
    if n > 0 {
        Some(s.take(n as int))
    } else {
        None
    }
}

/// Relies on `regex::Regex::find` with the anchored pattern
/// `^[[:alpha:]_][[:alpha:][:digit:]_]*`, whose classes are ASCII.
#[verifier::external_body]
fn find_identifier(rest: &str) -> (r: Option<String>)
    ensures
        opt_text(r) == found(rest@, ident_len(rest@)),
{
    match Regex::new(r"^[[:alpha:]_][[:alpha:][:digit:]_]*").unwrap().find(rest) {
        Some(m) => Some(m.as_str().to_string()),
        None => None,
    }
}

/// Relies on `regex::Regex::find` with the anchored pattern `^[0-9]+`.
#[verifier::external_body]
fn find_number(rest: &str) -> (r: Option<String>)
    ensures
        opt_text(r) == found(rest@, digits_len(rest@)),
{
    match Regex::new(r"^[0-9]+").unwrap().find(rest) {
        Some(m) => Some(m.as_str().to_string()),
        None => None,
    }
}

/// Relies on `regex::Regex::find` with the anchored pattern
/// `^"([^"\\]*(\\.[^"\\]*)*)"`: a quote, then characters other than quote
/// and backslash or a backslash and any character but a newline, then a
/// quote.
#[verifier::external_body]
fn find_string(rest: &str) -> (r: Option<String>)
    ensures
        opt_text(r) == found(rest@, string_len(rest@)),
{
    match Regex::new(r#"^"([^"\\]*(\\.[^"\\]*)*)""#).unwrap().find(rest) {
        Some(m) => Some(m.as_str().to_string()),
        None => None,
    }
}

/// Relies on `regex::Regex::find` with the anchored pattern
/// `^(\(|\)|,|:|#|\+|\-|\*|\/\/|\/|=|\.|>|<)`, whose alternatives are
/// tried in order.
#[verifier::external_body]
fn find_symbol(rest: &str) -> (r: Option<String>)
    ensures
        opt_text(r) == found(rest@, symbol_len(rest@)),
{
    match Regex::new(r"^(\(|\)|,|:|#|\+|\-|\*|\/\/|\/|=|\.|>|<)").unwrap().find(rest) {
        Some(m) => Some(m.as_str().to_string()),
        None => None,
    }
}

pub open spec fn opt_text(o: Option<String>) -> Option<Seq<char>> {
    match o {
        Some(s) => Some(s@),
        None => None,
    }
}

/// What the tokenizer does at one position of a line.
pub enum Step {
    /// Emits the token and ends the line (a comment).
    Stop(TokView),
    /// Emits the token and moves past the given number of characters.
    Emit(TokView, nat),
    /// Skips one white-space character.
    Skip,
    /// Skips one unrecognised character, with a warning.
    Unknown,
}

/// Whether the keyword `kw` starts at `pos` and is not followed by a
/// character that could continue an identifier.
pub open spec fn keyword_at(line: Seq<char>, pos: int, kw: Seq<char>) -> bool {
    starts_with(line.skip(pos), kw) && (pos + kw.len() >= line.len() || !word_char()(line[pos + kw.len()]))
}

pub open spec fn keyword_step(kw: Seq<char>) -> Step {
    Step::Emit(TokView { kind: TokenType::Keyword, text: kw }, kw.len())
}

pub open spec fn emit(kind: TokenType, rest: Seq<char>, n: nat) -> Step {
    Step::Emit(TokView { kind, text: rest.take(n as int) }, n)
}

/// The rule that applies at `pos`, tried in priority order: comment, the
/// runtime prefix, keywords, identifier, number, string, symbol, white
/// space.
pub open spec fn step_at(line: Seq<char>, pos: int) -> Step {
    let rest = line.skip(pos);
    if rest[0] == '#' {
        Step::Stop(TokView { kind: TokenType::Comment, text: rest })
    } else if starts_with(rest, "sdl2."@) {
        keyword_step("sdl2."@)
    } else if keyword_at(line, pos, "while"@) {
        keyword_step("while"@)
    } else if keyword_at(line, pos, "if"@) {
        keyword_step("if"@)
    } else if keyword_at(line, pos, "true"@) {
        keyword_step("true"@)
    } else if keyword_at(line, pos, "false"@) {
        keyword_step("false"@)
    } else if ident_len(rest) > 0 {
        emit(TokenType::Identifier, rest, ident_len(rest))
    } else if digits_len(rest) > 0 {
        emit(TokenType::Number, rest, digits_len(rest))
    } else if string_len(rest) > 0 {
        emit(TokenType::String, rest, string_len(rest))
    } else if symbol_len(rest) > 0 {
        emit(TokenType::Symbol, rest, symbol_len(rest))
    } else if whitespace_of(rest[0]) {
        Step::Skip
    } else {
        Step::Unknown
    }
}

/// The tokens of `line` from `pos` on.
pub open spec fn lex_line(line: Seq<char>, pos: int) -> Seq<TokView>
    decreases line.len() - pos,
{
    if pos < 0 || pos >= line.len() {
        seq![]
    } else {
        match step_at(line, pos) {
            Step::Stop(t) => seq![t],
            Step::Emit(t, n) => if n == 0 || pos + n > line.len() {
                seq![]
            } else {
                seq![t] + lex_line(line, pos + n)
            },
            _ => lex_line(line, pos + 1),
        }
    }
}

/// The warning for the character at `pos` of line number `n`.
pub open spec fn warning_at(text: Seq<char>, n: int, pos: int) -> WarningView {
    WarningView { line: n, column: pos + 1, character: text[pos] }
}

/// The warnings for the unrecognised characters of line number `n`
/// (1-based) from `pos` on.
pub open spec fn line_warnings(text: Seq<char>, n: int, pos: int) -> Seq<WarningView>
    decreases text.len() - pos,
{
    if pos < 0 || pos >= text.len() {
        seq![]
    } else {
        match step_at(text, pos) {
            Step::Stop(t) => seq![],
            Step::Emit(t, k) => if k == 0 || pos + k > text.len() {
                seq![]
            } else {
                line_warnings(text, n, pos + k)
            },
            Step::Skip => line_warnings(text, n, pos + 1),
            Step::Unknown => seq![warning_at(text, n, pos)] + line_warnings(text, n, pos + 1),
        }
    }
}

pub open spec fn strip_cr(l: Seq<char>) -> Seq<char> {
    if l.len() > 0 && l.last() == '\r' {
        l.drop_last()
    } else {
        l
    }
}

/// The lines of `s` after the partial line `cur`: a line ends at `\n`
/// (dropping one `\r` before it); a last line without `\n` counts when it
/// is not empty.
pub open spec fn lines_after(s: Seq<char>, cur: Seq<char>) -> Seq<Seq<char>>
    decreases s.len(),
{
    if s.len() == 0 {
        if cur.len() > 0 {
            seq![cur]
        } else {
            seq![]
        }
    } else if s[0] == '\n' {
        seq![strip_cr(cur)] + lines_after(s.drop_first(), seq![])
    } else {
        lines_after(s.drop_first(), cur.push(s[0]))
    }
}

/// The lines of a text, as `str::lines` splits it.
pub open spec fn lines_of(s: Seq<char>) -> Seq<Seq<char>> {
    lines_after(s, seq![])
}

pub open spec fn eol() -> TokView {
    TokView { kind: TokenType::Eol, text: seq!['\n'] }
}

/// The tokens of a sequence of lines: each line's tokens, then an end of
/// line.
pub open spec fn lex_lines(ls: Seq<Seq<char>>) -> Seq<TokView>
    decreases ls.len(),
{
    if ls.len() == 0 {
        seq![]
    } else {
        lex_lines(ls.drop_last()) + lex_line(ls.last(), 0) + seq![eol()]
    }
}

/// The warnings of a sequence of lines, in order.
pub open spec fn warn_lines(ls: Seq<Seq<char>>) -> Seq<WarningView>
    decreases ls.len(),
{
    if ls.len() == 0 {
        seq![]
    } else {
        warn_lines(ls.drop_last()) + line_warnings(ls.last(), ls.len() as int, 0)
    }
}

/// The models of a list of tokens.
pub open spec fn token_views(ts: Seq<Token>) -> Seq<TokView> {
    ts.map_values(|t: Token| t@)
}

/// The tokens a text yields (see `lex_lines`).
pub open spec fn tokens_of(code: Seq<char>) -> Seq<TokView> {
    lex_lines(lines_of(code))
}

/// The warnings a text yields (see `line_warnings`).
pub open spec fn warnings_of(code: Seq<char>) -> Seq<WarningView> {
    warn_lines(lines_of(code))
}

proof fn lemma_run_len_bound(s: Seq<char>, f: spec_fn(char) -> bool)
    ensures
        run_len(s, f) <= s.len(),
    decreases s.len(),
{
    if s.len() > 0 && f(s[0]) {
        lemma_run_len_bound(s.drop_first(), f);
    }
}

proof fn lemma_string_body_bound(s: Seq<char>, i: int)
    ensures
        string_body_len(s, i) <= s.len(),
    decreases s.len() - i,
{
    if 0 <= i < s.len() && s[i] != '"' {
        if s[i] == '\\' {
            if i + 1 < s.len() && s[i + 1] != '\n' {
                lemma_string_body_bound(s, i + 2);
            }
        } else {
            lemma_string_body_bound(s, i + 1);
        }
    }
}

proof fn lemma_lengths_bound(s: Seq<char>)
    ensures
        ident_len(s) <= s.len(),
        digits_len(s) <= s.len(),
        string_len(s) <= s.len(),
        symbol_len(s) <= s.len(),
{
    lemma_run_len_bound(s.drop_first(), word_char());
    lemma_run_len_bound(s, digit_char_pred());
    lemma_string_body_bound(s, 1);
}

proof fn lemma_warning_step(line: Seq<char>, n: int, p: int)
    requires
        0 <= p < line.len(),
        step_at(line, p) == Step::Unknown,
    ensures
        line_warnings(line, n, p) == seq![warning_at(line, n, p)] + line_warnings(line, n, p + 1),
{
}

fn push_warning(warnings: &mut Vec<LexWarning>, line: usize, pos: usize, c: char)
    requires
        pos < usize::MAX,
    ensures
        warning_views(final(warnings)@) == warning_views(old(warnings)@).push(
            WarningView { line: line as int, column: pos + 1, character: c },
        ),
{
    let ghost raw = warnings@;
    warnings.push(LexWarning { line, column: pos + 1, character: c });
    assert(warnings@.drop_last() =~= raw);
}

/// A token step as the lexer performs it.
enum Lexed {
    Stop(Token),
    Emit(Token, usize),
    Skip,
    Unknown,
}

spec fn lexed_view(l: Lexed) -> Step {
    match l {
        Lexed::Stop(t) => Step::Stop(t@),
        Lexed::Emit(t, n) => Step::Emit(t@, n as nat),
        Lexed::Skip => Step::Skip,
        Lexed::Unknown => Step::Unknown,
    }
}

/// Whether `keyword` starts at `pos` of the line with a word boundary after
/// it; `rest` is the line from `pos` on.
fn is_keyword(rest: &str, keyword: &str, pos: usize, line_chars: &Vec<char>) -> (r: bool)
    requires
        pos <= line_chars@.len(),
        rest@ == line_chars@.skip(pos as int),
    ensures
        r == keyword_at(line_chars@, pos as int, keyword@),
{
    if !starts_with_text(rest, keyword) {
        return false;
    }
    let k = keyword.unicode_len();
    if k > line_chars.len() - pos {
        return false;
    }
    if pos + k >= line_chars.len() {
        return true;
    }
    let c = line_chars[pos + k];
    !(('a' <= c && c <= 'z') || ('A' <= c && c <= 'Z') || ('0' <= c && c <= '9') || c == '_')
}

/// The keyword token for `keyword` and its length.
fn add_keyword_token(keyword: &str) -> (r: Lexed)
    ensures
        lexed_view(r) == keyword_step(keyword@),
{
    let t = Token { token_type: TokenType::Keyword, value: String::from_str(keyword) };
    Lexed::Emit(t, keyword.unicode_len())
}

fn regex_token(kind: TokenType, m: String) -> (r: Lexed)
    ensures
        lexed_view(r) == Step::Emit(TokView { kind, text: m@ }, m@.len()),
{
    let n = m.unicode_len();
    Lexed::Emit(Token { token_type: kind, value: m }, n)
}

/// The step at `pos` of `line`.
fn lex_step(line: &Vec<char>, pos: usize) -> (r: Lexed)
    requires
        pos < line@.len(),
    ensures
        lexed_view(r) == step_at(line@, pos as int),
{
    let rest = string_from(line, pos, line.len());
    assert(rest@ =~= line@.skip(pos as int));
    proof {
        lemma_lengths_bound(rest@);
    }
    if line[pos] == '#' {
        return Lexed::Stop(Token { token_type: TokenType::Comment, value: rest });
    }
    if starts_with_text(rest.as_str(), "sdl2.") {
        return add_keyword_token("sdl2.");
    }
    if is_keyword(rest.as_str(), "while", pos, line) {
        return add_keyword_token("while");
    }
    if is_keyword(rest.as_str(), "if", pos, line) {
        return add_keyword_token("if");
    }
    if is_keyword(rest.as_str(), "true", pos, line) {
        return add_keyword_token("true");
    }
    if is_keyword(rest.as_str(), "false", pos, line) {
        return add_keyword_token("false");
    }
    if let Some(m) = find_identifier(rest.as_str()) {
        return regex_token(TokenType::Identifier, m);
    }
    if let Some(m) = find_number(rest.as_str()) {
        return regex_token(TokenType::Number, m);
    }
    if let Some(m) = find_string(rest.as_str()) {
        return regex_token(TokenType::String, m);
    }
    if let Some(m) = find_symbol(rest.as_str()) {
        return regex_token(TokenType::Symbol, m);
    }
    if is_whitespace(line[pos]) {
        Lexed::Skip
    } else {
        Lexed::Unknown
    }
}

/// Appends the tokens of one line and the warnings for its unrecognised
/// characters.
fn lex_line_into(line: &Vec<char>, line_number: usize, tokens: &mut Vec<Token>, warnings: &mut Vec<LexWarning>)
    ensures
        token_views(final(tokens)@) == token_views(old(tokens)@) + lex_line(line@, 0),
        warning_views(final(warnings)@) == warning_views(old(warnings)@) + line_warnings(line@, line_number as int, 0),
{
    let ghost toks0 = token_views(tokens@);
    let ghost warns0 = warning_views(warnings@);
    let ghost ln = line@;
    let ghost n = line_number as int;
    let mut pos: usize = 0;
    assert(toks0 + lex_line(ln, 0) =~= token_views(tokens@) + lex_line(ln, 0));
    assert(warns0 + line_warnings(ln, n, 0) =~= warning_views(warnings@) + line_warnings(ln, n, 0));
    while pos < line.len()
        invariant
            pos <= ln.len(),
            ln == line@,
            n == line_number as int,
            toks0 + lex_line(ln, 0) == token_views(tokens@) + lex_line(ln, pos as int),
            warns0 + line_warnings(ln, n, 0) == warning_views(warnings@) + line_warnings(ln, n, pos as int),
        decreases ln.len() - pos,
    {
        let ghost before = token_views(tokens@);
        let ghost wbefore = warning_views(warnings@);
        let ghost p = pos as int;
        match lex_step(line, pos) {
            Lexed::Stop(t) => {
                tokens.push(t);
                proof {
                    assert(token_views(tokens@) =~= before.push(t@));
                    assert(token_views(tokens@) + lex_line(ln, ln.len() as int) =~= before + lex_line(ln, p));
                }
                pos = line.len();
            },
            Lexed::Emit(t, k) => {
                if k == 0 || k > line.len() - pos {
                    pos = line.len();
                } else {
                    tokens.push(t);
                    proof {
                        assert(token_views(tokens@) =~= before.push(t@));
                        assert(token_views(tokens@) + lex_line(ln, p + k) =~= before + lex_line(ln, p));
                    }
                    pos = pos + k;
                }
            },
            Lexed::Skip => {
                pos = pos + 1;
            },
            Lexed::Unknown => {
                proof {
                    lemma_warning_step(ln, n, p);
                }
                push_warning(warnings, line_number, pos, line[pos]);
                assert(wbefore + line_warnings(ln, n, p) =~= warning_views(warnings@) + line_warnings(ln, n, p + 1));
                pos = pos + 1;
            },
        }
    }
    assert(token_views(tokens@) + lex_line(ln, pos as int) =~= token_views(tokens@));
    assert(warning_views(warnings@) + line_warnings(ln, n, pos as int) =~= warning_views(warnings@));
}

pub open spec fn line_views(ls: Seq<Vec<char>>) -> Seq<Seq<char>> {
    ls.map_values(|l: Vec<char>| l@)
}

/// Splits text into lines as `lines_of` describes.
fn split_lines(cs: &Vec<char>) -> (r: Vec<Vec<char>>)
    ensures
        line_views(r@) == lines_of(cs@),
{
    let mut lines: Vec<Vec<char>> = Vec::new();
    let mut cur: Vec<char> = Vec::new();
    let mut i: usize = 0;
    assert(cs@.skip(0) =~= cs@);
    assert(line_views(lines@) + lines_after(cs@, cur@) =~= lines_of(cs@));
    while i < cs.len()
        invariant
            i <= cs@.len(),
            line_views(lines@) + lines_after(cs@.skip(i as int), cur@) == lines_of(cs@),
        decreases cs@.len() - i,
    {
        let c = cs[i];
        let ghost before = line_views(lines@);
        assert(cs@.skip(i as int).drop_first() =~= cs@.skip(i + 1));
        if c == '\n' {
            let ghost stripped = strip_cr(cur@);
            if cur.len() > 0 && cur[cur.len() - 1] == '\r' {
                cur.pop();
            }
            assert(cur@ == stripped);
            lines.push(cur);
            assert(line_views(lines@) =~= before.push(stripped));
            cur = Vec::new();
            assert(before + (seq![stripped] + lines_after(cs@.skip(i + 1), seq![])) =~= line_views(lines@)
                + lines_after(cs@.skip(i + 1), cur@));
        } else {
            cur.push(c);
        }
        i = i + 1;
    }
    assert(cs@.skip(i as int).len() == 0);
    if cur.len() > 0 {
        let ghost before = line_views(lines@);
        lines.push(cur);
        assert(line_views(lines@) =~= before + seq![line_views(lines@).last()]);
    } else {
        assert(line_views(lines@) + Seq::<Seq<char>>::empty() =~= line_views(lines@));
    }
    lines
}

/// Tokenizes a text line by line, also reporting each unrecognised
/// character: every line's tokens are followed by an end-of-line token, and
/// a comment runs to the end of its line.
pub fn scan(code: &str) -> (r: (Vec<Token>, Vec<LexWarning>))
    ensures
        token_views(r.0@) == tokens_of(code@),
        warning_views(r.1@) == warnings_of(code@),
{
    let cs = to_chars(code);
    let lines = split_lines(&cs);
    let ghost ls = lines_of(code@);
    let mut tokens: Vec<Token> = Vec::new();
    let mut warnings: Vec<LexWarning> = Vec::new();
    let mut i: usize = 0;
    assert(token_views(tokens@) =~= Seq::<TokView>::empty());
    assert(ls.take(0) =~= Seq::<Seq<char>>::empty());
    while i < lines.len()
        invariant
            i <= lines@.len(),
            line_views(lines@) == ls,
            token_views(tokens@) == lex_lines(ls.take(i as int)),
            warning_views(warnings@) == warn_lines(ls.take(i as int)),
        decreases lines@.len() - i,
    {
        assert(ls.take(i + 1).drop_last() =~= ls.take(i as int));
        assert(ls.take(i + 1).last() == lines@[i as int]@);
        lex_line_into(&lines[i], i + 1, &mut tokens, &mut warnings);
        let ghost before = token_views(tokens@);
        proof {
            reveal_strlit("\n");
        }
        let t = Token { token_type: TokenType::Eol, value: String::from_str("\n") };
        assert(t@ == eol()) by {
            assert(t.value@ =~= seq!['\n']);
        }
        tokens.push(t);
        assert(token_views(tokens@) =~= before.push(eol()));
        assert(before.push(eol()) =~= before + seq![eol()]);
        i = i + 1;
    }
    assert(ls.take(i as int) =~= ls);
    (tokens, warnings)
}

/// The tokens of a text (see `scan`).
pub fn tokenize(code: &str) -> (r: Vec<Token>)
    ensures
        token_views(r@) == tokens_of(code@),
{
    let (tokens, _warnings) = scan(code);
    tokens
}

} // verus!
