//! The mathematical model of the lexer: spec functions that say, for a
//! character sequence and a cursor position, exactly which token is produced
//! next, what text it carries and where the cursor lands.  The engine in
//! [`crate::tokeniser`] is proved against [`lex_next`].

use vstd::prelude::*;

use crate::recogniser::{
    alphabetic, spec_begin_bin, spec_begin_hex, spec_begin_oct, spec_bin_digit, spec_dec_digit,
    spec_hex_digit, spec_ident_char, spec_location_word, spec_oct_digit, spec_space,
    spec_storage_word, spec_visibility_word,
};
use crate::types::{Token, TokenType};

verus! {

// ---------------------------------------------------------------------------
// Character runs.
// ---------------------------------------------------------------------------

/// The position after the run of spaces and tabs that starts at `p`.
pub open spec fn space_run_end(s: Seq<char>, p: int) -> int
    decreases s.len() - p,
    when 0 <= p <= s.len()
{
    if p < s.len() && spec_space(s[p]) {
        space_run_end(s, p + 1)
    } else {
        p
    }
}

/// The position of the first line feed at or after `p`, or the end of input.
pub open spec fn line_end(s: Seq<char>, p: int) -> int
    decreases s.len() - p,
    when 0 <= p <= s.len()
{
    if p < s.len() && s[p] != '\n' {
        line_end(s, p + 1)
    } else {
        p
    }
}

/// The position after the run of binary digits that starts at `p`.
pub open spec fn bin_run_end(s: Seq<char>, p: int) -> int
    decreases s.len() - p,
    when 0 <= p <= s.len()
{
    if p < s.len() && spec_bin_digit(s[p]) {
        bin_run_end(s, p + 1)
    } else {
        p
    }
}

/// The position after the run of octal digits that starts at `p`.
pub open spec fn oct_run_end(s: Seq<char>, p: int) -> int
    decreases s.len() - p,
    when 0 <= p <= s.len()
{
    if p < s.len() && spec_oct_digit(s[p]) {
        oct_run_end(s, p + 1)
    } else {
        p
    }
}

/// The position after the run of decimal digits that starts at `p`.
pub open spec fn dec_run_end(s: Seq<char>, p: int) -> int
    decreases s.len() - p,
    when 0 <= p <= s.len()
{
    if p < s.len() && spec_dec_digit(s[p]) {
        dec_run_end(s, p + 1)
    } else {
        p
    }
}

/// The position after the run of hexadecimal digits that starts at `p`.
pub open spec fn hex_run_end(s: Seq<char>, p: int) -> int
    decreases s.len() - p,
    when 0 <= p <= s.len()
{
    if p < s.len() && spec_hex_digit(s[p]) {
        hex_run_end(s, p + 1)
    } else {
        p
    }
}

/// The position after the run of identifier characters that starts at `p`.
pub open spec fn ident_run_end(s: Seq<char>, p: int) -> int
    decreases s.len() - p,
    when 0 <= p <= s.len()
{
    if p < s.len() && spec_ident_char(s[p]) {
        ident_run_end(s, p + 1)
    } else {
        p
    }
}

/// Bounds and contents of a space run: every character before the end is a
/// space, and the run stops at the first character that is not.
pub proof fn lemma_space_run_end(s: Seq<char>, p: int)
    requires
        0 <= p <= s.len(),
    ensures
        p <= space_run_end(s, p) <= s.len(),
        forall|j: int| p <= j < space_run_end(s, p) ==> spec_space(s[j]),
        space_run_end(s, p) < s.len() ==> !spec_space(s[space_run_end(s, p)]),
    decreases s.len() - p,
{
    if p < s.len() && spec_space(s[p]) {
        lemma_space_run_end(s, p + 1);
    }
}

/// A position bounded by characters that are all spaces, followed by the end
/// of input or a non-space, is exactly the end of the space run.
pub proof fn lemma_space_run_end_is(s: Seq<char>, p: int, q: int)
    requires
        0 <= p <= q <= s.len(),
        forall|j: int| p <= j < q ==> spec_space(s[j]),
        q < s.len() ==> !spec_space(s[q]),
    ensures
        space_run_end(s, p) == q,
    decreases q - p,
{
    if p < q {
        lemma_space_run_end_is(s, p + 1, q);
    }
}

/// Bounds and contents of the text before the next line feed.
pub proof fn lemma_line_end(s: Seq<char>, p: int)
    requires
        0 <= p <= s.len(),
    ensures
        p <= line_end(s, p) <= s.len(),
        forall|j: int| p <= j < line_end(s, p) ==> s[j] != '\n',
        line_end(s, p) < s.len() ==> s[line_end(s, p)] == '\n',
    decreases s.len() - p,
{
    if p < s.len() && s[p] != '\n' {
        lemma_line_end(s, p + 1);
    }
}

/// A position preceded by no line feed and standing at one (or at the end of
/// input) is exactly the end of the comment text.
pub proof fn lemma_line_end_is(s: Seq<char>, p: int, q: int)
    requires
        0 <= p <= q <= s.len(),
        forall|j: int| p <= j < q ==> s[j] != '\n',
        q < s.len() ==> s[q] == '\n',
    ensures
        line_end(s, p) == q,
    decreases q - p,
{
    if p < q {
        lemma_line_end_is(s, p + 1, q);
    }
}

/// Bounds and contents of a binary-digit run.
pub proof fn lemma_bin_run_end(s: Seq<char>, p: int)
    requires
        0 <= p <= s.len(),
    ensures
        p <= bin_run_end(s, p) <= s.len(),
        forall|j: int| p <= j < bin_run_end(s, p) ==> spec_bin_digit(s[j]),
        bin_run_end(s, p) < s.len() ==> !spec_bin_digit(s[bin_run_end(s, p)]),
    decreases s.len() - p,
{
    if p < s.len() && spec_bin_digit(s[p]) {
        lemma_bin_run_end(s, p + 1);
    }
}

/// Characterisation of the end of a binary-digit run.
pub proof fn lemma_bin_run_end_is(s: Seq<char>, p: int, q: int)
    requires
        0 <= p <= q <= s.len(),
        forall|j: int| p <= j < q ==> spec_bin_digit(s[j]),
        q < s.len() ==> !spec_bin_digit(s[q]),
    ensures
        bin_run_end(s, p) == q,
    decreases q - p,
{
    if p < q {
        lemma_bin_run_end_is(s, p + 1, q);
    }
}

/// Bounds and contents of an octal-digit run.
pub proof fn lemma_oct_run_end(s: Seq<char>, p: int)
    requires
        0 <= p <= s.len(),
    ensures
        p <= oct_run_end(s, p) <= s.len(),
        forall|j: int| p <= j < oct_run_end(s, p) ==> spec_oct_digit(s[j]),
        oct_run_end(s, p) < s.len() ==> !spec_oct_digit(s[oct_run_end(s, p)]),
    decreases s.len() - p,
{
    if p < s.len() && spec_oct_digit(s[p]) {
        lemma_oct_run_end(s, p + 1);
    }
}

/// Characterisation of the end of an octal-digit run.
pub proof fn lemma_oct_run_end_is(s: Seq<char>, p: int, q: int)
    requires
        0 <= p <= q <= s.len(),
        forall|j: int| p <= j < q ==> spec_oct_digit(s[j]),
        q < s.len() ==> !spec_oct_digit(s[q]),
    ensures
        oct_run_end(s, p) == q,
    decreases q - p,
{
    if p < q {
        lemma_oct_run_end_is(s, p + 1, q);
    }
}

/// Bounds and contents of a decimal-digit run.
pub proof fn lemma_dec_run_end(s: Seq<char>, p: int)
    requires
        0 <= p <= s.len(),
    ensures
        p <= dec_run_end(s, p) <= s.len(),
        forall|j: int| p <= j < dec_run_end(s, p) ==> spec_dec_digit(s[j]),
        dec_run_end(s, p) < s.len() ==> !spec_dec_digit(s[dec_run_end(s, p)]),
    decreases s.len() - p,
{
    if p < s.len() && spec_dec_digit(s[p]) {
        lemma_dec_run_end(s, p + 1);
    }
}

/// Characterisation of the end of a decimal-digit run.
pub proof fn lemma_dec_run_end_is(s: Seq<char>, p: int, q: int)
    requires
        0 <= p <= q <= s.len(),
        forall|j: int| p <= j < q ==> spec_dec_digit(s[j]),
        q < s.len() ==> !spec_dec_digit(s[q]),
    ensures
        dec_run_end(s, p) == q,
    decreases q - p,
{
    if p < q {
        lemma_dec_run_end_is(s, p + 1, q);
    }
}

/// Bounds and contents of a hexadecimal-digit run.
pub proof fn lemma_hex_run_end(s: Seq<char>, p: int)
    requires
        0 <= p <= s.len(),
    ensures
        p <= hex_run_end(s, p) <= s.len(),
        forall|j: int| p <= j < hex_run_end(s, p) ==> spec_hex_digit(s[j]),
        hex_run_end(s, p) < s.len() ==> !spec_hex_digit(s[hex_run_end(s, p)]),
    decreases s.len() - p,
{
    if p < s.len() && spec_hex_digit(s[p]) {
        lemma_hex_run_end(s, p + 1);
    }
}

/// Characterisation of the end of a hexadecimal-digit run.
pub proof fn lemma_hex_run_end_is(s: Seq<char>, p: int, q: int)
    requires
        0 <= p <= q <= s.len(),
        forall|j: int| p <= j < q ==> spec_hex_digit(s[j]),
        q < s.len() ==> !spec_hex_digit(s[q]),
    ensures
        hex_run_end(s, p) == q,
    decreases q - p,
{
    if p < q {
        lemma_hex_run_end_is(s, p + 1, q);
    }
}

/// Bounds and contents of an identifier run.
pub proof fn lemma_ident_run_end(s: Seq<char>, p: int)
    requires
        0 <= p <= s.len(),
    ensures
        p <= ident_run_end(s, p) <= s.len(),
        forall|j: int| p <= j < ident_run_end(s, p) ==> spec_ident_char(s[j]),
        ident_run_end(s, p) < s.len() ==> !spec_ident_char(s[ident_run_end(s, p)]),
    decreases s.len() - p,
{
    if p < s.len() && spec_ident_char(s[p]) {
        lemma_ident_run_end(s, p + 1);
    }
}

/// Characterisation of the end of an identifier run.
pub proof fn lemma_ident_run_end_is(s: Seq<char>, p: int, q: int)
    requires
        0 <= p <= q <= s.len(),
        forall|j: int| p <= j < q ==> spec_ident_char(s[j]),
        q < s.len() ==> !spec_ident_char(s[q]),
    ensures
        ident_run_end(s, p) == q,
    decreases q - p,
{
    if p < q {
        lemma_ident_run_end_is(s, p + 1, q);
    }
}

// ---------------------------------------------------------------------------
// Block comments.
// ---------------------------------------------------------------------------

/// The position of the first `*/` at or after `p`, if there is one.
pub open spec fn block_end(s: Seq<char>, p: int) -> Option<int>
    decreases s.len() - p,
    when 0 <= p <= s.len()
{
    if p + 1 >= s.len() {
        None
    } else if s[p] == '*' && s[p + 1] == '/' {
        Some(p)
    } else {
        block_end(s, p + 1)
    }
}

/// Bounds of a found comment terminator.
pub proof fn lemma_block_end(s: Seq<char>, p: int)
    requires
        0 <= p <= s.len(),
    ensures
        block_end(s, p) matches Some(q) ==> p <= q && q + 1 < s.len() && s[q] == '*' && s[q + 1]
            == '/',
    decreases s.len() - p,
{
    if p + 1 < s.len() && !(s[p] == '*' && s[p + 1] == '/') {
        lemma_block_end(s, p + 1);
    }
}

/// A region in which no `*/` begins, followed by one, pins down `block_end`.
pub proof fn lemma_block_end_found(s: Seq<char>, p: int, q: int)
    requires
        0 <= p <= q,
        q + 1 < s.len(),
        forall|j: int| p <= j < q ==> !(#[trigger] s[j] == '*' && s[j + 1] == '/'),
        s[q] == '*' && s[q + 1] == '/',
    ensures
        block_end(s, p) == Some(q),
    decreases q - p,
{
    if p < q {
        lemma_block_end_found(s, p + 1, q);
    }
}

/// A region in which no `*/` begins, reaching the end of input, means the
/// comment is unterminated.
pub proof fn lemma_block_end_none(s: Seq<char>, p: int)
    requires
        0 <= p <= s.len(),
        forall|j: int| p <= j && j + 1 < s.len() ==> !(#[trigger] s[j] == '*' && s[j + 1] == '/'),
    ensures
        block_end(s, p) is None,
    decreases s.len() - p,
{
    if p + 1 < s.len() {
        lemma_block_end_none(s, p + 1);
    }
}

// ---------------------------------------------------------------------------
// Escape decoding and quoted literals.
// ---------------------------------------------------------------------------

/// The numeric value of one hexadecimal digit.
pub open spec fn hex_digit_val(c: char) -> int {
    if '0' <= c && c <= '9' {
        c as int - '0' as int
    } else if 'a' <= c && c <= 'f' {
        c as int - 'a' as int + 10
    } else if 'A' <= c && c <= 'F' {
        c as int - 'A' as int + 10
    } else {
        0
    }
}

/// The numeric value of a hexadecimal digit string, most significant first.
pub open spec fn hex_val(s: Seq<char>) -> int
    decreases s.len(),
{
    if s.len() == 0 {
        0
    } else {
        hex_val(s.drop_last()) * 16 + hex_digit_val(s.last())
    }
}

/// A Unicode scalar value: any code point other than the surrogates.
pub open spec fn valid_code_point(n: int) -> bool {
    (0 <= n && n < 0xD800) || (0xE000 <= n && n <= 0x10FFFF)
}

/// The single-character escapes: backslash, backspace, carriage return, line
/// feed, tab, vertical tab, form feed and bell.
pub open spec fn simple_escape(e: char) -> Option<char> {
    if e == '\\' {
        Some('\\')
    } else if e == 'b' {
        Some('\u{8}')
    } else if e == 'r' {
        Some('\r')
    } else if e == 'n' {
        Some('\n')
    } else if e == 't' {
        Some('\t')
    } else if e == 'v' {
        Some('\u{B}')
    } else if e == 'f' {
        Some('\u{C}')
    } else if e == 'a' {
        Some('\u{7}')
    } else {
        None
    }
}

/// Whether a character produced by an escape marks the surrounding literal
/// invalid: an escaped single quote inside a string literal, or an escaped
/// double quote or slash inside a char literal.
pub open spec fn escape_marks_invalid(quote: char, c: char) -> bool {
    if quote == '"' {
        c == '\''
    } else {
        c == '"' || c == '/'
    }
}

/// The outcome of scanning the body of a quoted literal.
pub ghost struct Scan {
    /// The escape-decoded text accumulated up to the closing quote.
    pub value: Seq<char>,
    /// Whether a disallowed escape or an undecodable escape occurred.
    pub bad: bool,
    /// The cursor position after the scan.
    pub next: int,
    /// Whether the closing quote was found before the end of input.
    pub closed: bool,
}

/// Scans the body of a quoted literal: `p` is the first position after the
/// opening quote, `quote` the closing character.  Escapes are decoded as they
/// are consumed; a `\u`/`\U` escape reads the following hexadecimal-digit run
/// and decodes it as a code point, and fails (marking the literal invalid,
/// not aborting the scan) when the run is empty or names no Unicode scalar
/// value.
pub open spec fn scan_quoted(s: Seq<char>, p: int, quote: char) -> Scan
    decreases s.len() - p,
    when 0 <= p <= s.len()
    via scan_quoted_decreases
{
    if p >= s.len() {
        Scan { value: Seq::empty(), bad: false, next: s.len() as int, closed: false }
    } else if s[p] == quote {
        Scan { value: Seq::empty(), bad: false, next: p + 1, closed: true }
    } else if s[p] == '\\' {
        if p + 1 >= s.len() {
            Scan { value: Seq::empty(), bad: false, next: s.len() as int, closed: false }
        } else {
            let e = s[p + 1];
            if e == 'u' || e == 'U' {
                let dend = hex_run_end(s, p + 2);
                let code = hex_val(s.subrange(p + 2, dend));
                if dend > p + 2 && valid_code_point(code) {
                    let c = code as char;
                    let rest = scan_quoted(s, dend, quote);
                    Scan {
                        value: seq![c] + rest.value,
                        bad: escape_marks_invalid(quote, c) || rest.bad,
                        next: rest.next,
                        closed: rest.closed,
                    }
                } else {
                    let rest = scan_quoted(s, dend, quote);
                    Scan { value: rest.value, bad: true, next: rest.next, closed: rest.closed }
                }
            } else {
                let c = match simple_escape(e) {
                    Some(d) => d,
                    None => e,
                };
                let rest = scan_quoted(s, p + 2, quote);
                Scan {
                    value: seq![c] + rest.value,
                    bad: escape_marks_invalid(quote, c) || rest.bad,
                    next: rest.next,
                    closed: rest.closed,
                }
            }
        }
    } else {
        let rest = scan_quoted(s, p + 1, quote);
        Scan {
            value: seq![s[p]] + rest.value,
            bad: rest.bad,
            next: rest.next,
            closed: rest.closed,
        }
    }
}

#[via_fn]
proof fn scan_quoted_decreases(s: Seq<char>, p: int, quote: char) {
    if 0 <= p + 2 <= s.len() {
        lemma_hex_run_end(s, p + 2);
    }
}

/// Bounds of a scan: the cursor never runs past the end of input, an
/// unterminated literal consumes everything, and a terminated one consumes at
/// least its closing quote.
pub proof fn lemma_scan_quoted_bounds(s: Seq<char>, p: int, quote: char)
    requires
        0 <= p <= s.len(),
    ensures
        p <= scan_quoted(s, p, quote).next <= s.len(),
        !scan_quoted(s, p, quote).closed ==> scan_quoted(s, p, quote).next == s.len(),
        scan_quoted(s, p, quote).closed ==> p < scan_quoted(s, p, quote).next,
    decreases s.len() - p,
{
    if p >= s.len() {
    } else if s[p] == quote {
    } else if s[p] == '\\' {
        if p + 1 < s.len() {
            let e = s[p + 1];
            if e == 'u' || e == 'U' {
                lemma_hex_run_end(s, p + 2);
                lemma_scan_quoted_bounds(s, hex_run_end(s, p + 2), quote);
            } else {
                lemma_scan_quoted_bounds(s, p + 2, quote);
            }
        }
    } else {
        lemma_scan_quoted_bounds(s, p + 1, quote);
    }
}

// ---------------------------------------------------------------------------
// Identifier reclassification.
// ---------------------------------------------------------------------------

/// The kind and (possibly rewritten) text of a classified identifier.
pub ghost struct WordClass {
    pub kind: TokenType,
    pub value: Seq<char>,
}

/// Reclassifies accumulated identifier text by exact-match lookup: literal
/// keywords first, then word-operators (whose text is rewritten to the
/// operator glyph), modifiers, statement and declaration keywords; anything
/// else stays an identifier.
pub open spec fn classify_word(w: Seq<char>) -> WordClass {
    if w == "true"@ || w == "false"@ {
        WordClass { kind: TokenType::BoolLit, value: w }
    } else if w == "nullptr"@ {
        WordClass { kind: TokenType::NullptrLit, value: w }
    } else if w == "and"@ {
        WordClass { kind: TokenType::LogicOp, value: "&"@ }
    } else if w == "or"@ {
        WordClass { kind: TokenType::LogicOp, value: "|"@ }
    } else if w == "not"@ {
        WordClass { kind: TokenType::Invert, value: "!"@ }
    } else if spec_location_word(w) {
        WordClass { kind: TokenType::LocationSpec, value: w }
    } else if spec_storage_word(w) {
        WordClass { kind: TokenType::StorageSpec, value: w }
    } else if w == "new"@ {
        WordClass { kind: TokenType::NewStmt, value: w }
    } else if w == "delete"@ {
        WordClass { kind: TokenType::DeleteStmt, value: w }
    } else if w == "from"@ {
        WordClass { kind: TokenType::FromStmt, value: w }
    } else if w == "import"@ {
        WordClass { kind: TokenType::ImportStmt, value: w }
    } else if w == "as"@ {
        WordClass { kind: TokenType::AsStmt, value: w }
    } else if w == "return"@ {
        WordClass { kind: TokenType::ReturnStmt, value: w }
    } else if w == "if"@ {
        WordClass { kind: TokenType::IfStmt, value: w }
    } else if w == "elif"@ {
        WordClass { kind: TokenType::ElifStmt, value: w }
    } else if w == "else"@ {
        WordClass { kind: TokenType::ElseStmt, value: w }
    } else if w == "for"@ {
        WordClass { kind: TokenType::ForStmt, value: w }
    } else if w == "while"@ {
        WordClass { kind: TokenType::WhileStmt, value: w }
    } else if w == "do"@ {
        WordClass { kind: TokenType::DoStmt, value: w }
    } else if w == "none"@ {
        WordClass { kind: TokenType::NoneType, value: w }
    } else if w == "class"@ {
        WordClass { kind: TokenType::ClassDef, value: w }
    } else if w == "enum"@ {
        WordClass { kind: TokenType::EnumDef, value: w }
    } else if w == "function"@ {
        WordClass { kind: TokenType::FunctionDef, value: w }
    } else if w == "operator"@ {
        WordClass { kind: TokenType::OperatorDef, value: w }
    } else if spec_visibility_word(w) {
        WordClass { kind: TokenType::Visibility, value: w }
    } else if w == "unsafe"@ {
        WordClass { kind: TokenType::Unsafe, value: w }
    } else {
        WordClass { kind: TokenType::Ident, value: w }
    }
}

// ---------------------------------------------------------------------------
// The next token.
// ---------------------------------------------------------------------------

/// One step of the lexer: the kind of the produced token, the text it carries
/// (`None` for a token built from its kind alone) and the cursor position
/// after it.
pub ghost struct LexStep {
    pub kind: TokenType,
    pub value: Option<Seq<char>>,
    pub next: int,
}

/// A step producing a token from a kind alone.
pub open spec fn plain_step(kind: TokenType, next: int) -> LexStep {
    LexStep { kind, value: None, next }
}

/// A step producing a token that carries text.
pub open spec fn valued_step(kind: TokenType, value: Seq<char>, next: int) -> LexStep {
    LexStep { kind, value: Some(value), next }
}

/// A produced token agrees with a step of the model: it has the step's kind,
/// and it carries the step's text exactly when the step carries one.
pub open spec fn token_matches_step(t: Token, st: LexStep) -> bool {
    match st.value {
        Some(v) => t.is_valued(st.kind, v),
        None => t.is_plain(st.kind),
    }
}

/// The token produced at position `p` of `s`, `0 <= p < s.len()`, and the
/// position the cursor lands on.  This is the whole dispatch of the engine:
/// the first character selects a sub-reader, which looks at most two
/// characters past its lead character (quoted literals, comments and runs
/// aside) and consumes exactly what it classifies.
///
/// Reaching the end of input in the middle of a quoted literal or a block
/// comment is a terminal condition, not an error: the step produces the
/// end-of-input token and the cursor lands past the last character.
pub open spec fn lex_next(s: Seq<char>, p: int) -> LexStep {
    let c = s[p];
    if spec_space(c) {
        valued_step(TokenType::Whitespace, s.subrange(p, space_run_end(s, p)), space_run_end(s, p))
    } else if c == '#' {
        valued_step(TokenType::Comment, s.subrange(p + 1, line_end(s, p + 1)), line_end(s, p + 1))
    } else if c == '\r' || c == '\n' {
        plain_step(TokenType::Newline, p + 1)
    } else if c == '.' {
        if p + 2 < s.len() && s[p + 1] == '.' && s[p + 2] == '.' {
            plain_step(TokenType::Ellipsis, p + 3)
        } else {
            plain_step(TokenType::Dot, p + 1)
        }
    } else if c == ';' {
        plain_step(TokenType::Semi, p + 1)
    } else if c == '{' {
        plain_step(TokenType::LeftBrace, p + 1)
    } else if c == '}' {
        plain_step(TokenType::RightBrace, p + 1)
    } else if c == '(' {
        plain_step(TokenType::LeftParen, p + 1)
    } else if c == ')' {
        plain_step(TokenType::RightParen, p + 1)
    } else if c == '[' {
        plain_step(TokenType::LeftSquare, p + 1)
    } else if c == ']' {
        plain_step(TokenType::RightSquare, p + 1)
    } else if c == ',' {
        plain_step(TokenType::Comma, p + 1)
    } else if c == ':' {
        plain_step(TokenType::Colon, p + 1)
    } else if c == '"' {
        lex_quoted(s, p, '"', TokenType::StringLit)
    } else if c == '\'' {
        lex_quoted(s, p, '\'', TokenType::CharLit)
    } else if c == '~' {
        valued_step(TokenType::Invert, seq!['~'], p + 1)
    } else if c == '/' {
        lex_division(s, p)
    } else if c == '*' || c == '%' {
        if p + 1 < s.len() && s[p + 1] == '=' {
            valued_step(TokenType::AssignOp, seq![c, '='], p + 2)
        } else {
            valued_step(TokenType::MulOp, seq![c], p + 1)
        }
    } else if c == '+' || c == '-' {
        lex_additive(s, p)
    } else if c == '&' || c == '|' {
        if p + 1 < s.len() && s[p + 1] == '=' {
            valued_step(TokenType::AssignOp, seq![c, '='], p + 2)
        } else if p + 1 < s.len() && s[p + 1] == c {
            valued_step(TokenType::LogicOp, seq![c, c], p + 2)
        } else {
            valued_step(TokenType::BitOp, seq![c], p + 1)
        }
    } else if c == '^' {
        if p + 1 < s.len() && s[p + 1] == '=' {
            valued_step(TokenType::AssignOp, seq![c, '='], p + 2)
        } else {
            valued_step(TokenType::BitOp, seq![c], p + 1)
        }
    } else if c == '<' || c == '>' {
        lex_relational(s, p)
    } else if c == '!' || c == '=' {
        lex_equality(s, p)
    } else if spec_dec_digit(c) {
        lex_number(s, p)
    } else if alphabetic(c) || c == '_' {
        lex_word(s, p)
    } else {
        plain_step(TokenType::Invalid, p + 1)
    }
}

/// A string or char literal at `p`.  An immediately doubled quote is the
/// empty literal: an empty string literal for strings, an invalid token for
/// chars (`lit_kind` decides, see [`lex_next`]'s callers).  Otherwise the
/// body is scanned; a literal that the scan marks bad becomes an invalid
/// token that still consumes through its closing quote.
pub open spec fn lex_quoted(s: Seq<char>, p: int, quote: char, lit_kind: TokenType) -> LexStep {
    if p + 1 < s.len() && s[p + 1] == quote {
        if quote == '\'' {
            valued_step(TokenType::Invalid, Seq::empty(), p + 2)
        } else {
            valued_step(lit_kind, Seq::empty(), p + 2)
        }
    } else {
        let sc = scan_quoted(s, p + 1, quote);
        if !sc.closed {
            plain_step(TokenType::Eof, s.len() as int)
        } else if sc.bad {
            plain_step(TokenType::Invalid, sc.next)
        } else {
            valued_step(lit_kind, sc.value, sc.next)
        }
    }
}

/// The division family: `/*` opens a block comment, `//` a line comment,
/// `/=` is a compound assignment, a bare `/` a multiplicative operator.
pub open spec fn lex_division(s: Seq<char>, p: int) -> LexStep {
    if p + 1 < s.len() && s[p + 1] == '*' {
        match block_end(s, p + 2) {
            Some(q) => valued_step(TokenType::Comment, s.subrange(p + 2, q), q + 2),
            None => plain_step(TokenType::Eof, s.len() as int),
        }
    } else if p + 1 < s.len() && s[p + 1] == '/' {
        valued_step(TokenType::Comment, s.subrange(p + 2, line_end(s, p + 2)), line_end(s, p + 2))
    } else if p + 1 < s.len() && s[p + 1] == '=' {
        valued_step(TokenType::AssignOp, seq!['/', '='], p + 2)
    } else {
        valued_step(TokenType::MulOp, seq!['/'], p + 1)
    }
}

/// The additive family: `+=`/`-=` are compound assignments, `->` the arrow,
/// a doubled `++`/`--` an increment/decrement operator carrying the doubled
/// text, anything else a bare additive operator.
pub open spec fn lex_additive(s: Seq<char>, p: int) -> LexStep {
    let c = s[p];
    if p + 1 < s.len() && s[p + 1] == '=' {
        valued_step(TokenType::AssignOp, seq![c, '='], p + 2)
    } else if c == '-' && p + 1 < s.len() && s[p + 1] == '>' {
        plain_step(TokenType::Arrow, p + 2)
    } else if p + 1 < s.len() && s[p + 1] == c {
        valued_step(TokenType::IncOp, seq![c, c], p + 2)
    } else {
        valued_step(TokenType::AddOp, seq![c], p + 1)
    }
}

/// The relational family: `<=`/`>=` are relational, `<<=`/`>>=` compound
/// assignments, `<<`/`>>` shifts, bare `<`/`>` relational.
pub open spec fn lex_relational(s: Seq<char>, p: int) -> LexStep {
    let c = s[p];
    if p + 1 < s.len() && s[p + 1] == '=' {
        valued_step(TokenType::RelOp, seq![c, '='], p + 2)
    } else if p + 1 < s.len() && s[p + 1] == c {
        if p + 2 < s.len() && s[p + 2] == '=' {
            valued_step(TokenType::AssignOp, seq![c, c, '='], p + 3)
        } else {
            valued_step(TokenType::ShiftOp, seq![c, c], p + 2)
        }
    } else {
        valued_step(TokenType::RelOp, seq![c], p + 1)
    }
}

/// The equality family: `!=`/`==` are equality operators, a bare `=` an
/// assignment, a bare `!` an inversion.
pub open spec fn lex_equality(s: Seq<char>, p: int) -> LexStep {
    let c = s[p];
    if p + 1 < s.len() && s[p + 1] == '=' {
        valued_step(TokenType::EquOp, seq![c, '='], p + 2)
    } else if c == '=' {
        valued_step(TokenType::AssignOp, seq![c], p + 1)
    } else {
        valued_step(TokenType::Invert, seq![c], p + 1)
    }
}

/// An identifier at `p`: the lead character and the identifier run after it,
/// reclassified by [`classify_word`].
pub open spec fn lex_word(s: Seq<char>, p: int) -> LexStep {
    let e = ident_run_end(s, p + 1);
    let wc = classify_word(s.subrange(p, e));
    valued_step(wc.kind, wc.value, e)
}

/// A numeric literal at `p`.  A leading zero followed by a base letter
/// selects binary, octal or hexadecimal reading of the digit run after the
/// prefix; an empty run is an invalid token.  Anything else is a decimal run.
pub open spec fn lex_number(s: Seq<char>, p: int) -> LexStep {
    if s[p] == '0' && p + 1 < s.len() && spec_begin_bin(s[p + 1]) {
        let e = bin_run_end(s, p + 2);
        if e == p + 2 {
            plain_step(TokenType::Invalid, e)
        } else {
            valued_step(TokenType::BinLit, s.subrange(p + 2, e), e)
        }
    } else if s[p] == '0' && p + 1 < s.len() && spec_begin_oct(s[p + 1]) {
        let e = oct_run_end(s, p + 2);
        if e == p + 2 {
            plain_step(TokenType::Invalid, e)
        } else {
            valued_step(TokenType::OctLit, s.subrange(p + 2, e), e)
        }
    } else if s[p] == '0' && p + 1 < s.len() && spec_begin_hex(s[p + 1]) {
        let e = hex_run_end(s, p + 2);
        if e == p + 2 {
            plain_step(TokenType::Invalid, e)
        } else {
            valued_step(TokenType::HexLit, s.subrange(p + 2, e), e)
        }
    } else {
        valued_step(TokenType::IntLit, s.subrange(p, dec_run_end(s, p)), dec_run_end(s, p))
    }
}

// ---------------------------------------------------------------------------
// General laws of the model.
// ---------------------------------------------------------------------------

/// Every single fixed-kind punctuation character lexes, wherever it stands,
/// to exactly one token of its kind with the cursor advanced by one
/// character.
pub proof fn lemma_single_punctuation(s: Seq<char>, p: int)
    requires
        0 <= p < s.len(),
    ensures
        s[p] == ';' ==> lex_next(s, p) == plain_step(TokenType::Semi, p + 1),
        s[p] == '{' ==> lex_next(s, p) == plain_step(TokenType::LeftBrace, p + 1),
        s[p] == '}' ==> lex_next(s, p) == plain_step(TokenType::RightBrace, p + 1),
        s[p] == '(' ==> lex_next(s, p) == plain_step(TokenType::LeftParen, p + 1),
        s[p] == ')' ==> lex_next(s, p) == plain_step(TokenType::RightParen, p + 1),
        s[p] == '[' ==> lex_next(s, p) == plain_step(TokenType::LeftSquare, p + 1),
        s[p] == ']' ==> lex_next(s, p) == plain_step(TokenType::RightSquare, p + 1),
        s[p] == ',' ==> lex_next(s, p) == plain_step(TokenType::Comma, p + 1),
        s[p] == ':' ==> lex_next(s, p) == plain_step(TokenType::Colon, p + 1),
        s[p] == '\r' || s[p] == '\n' ==> lex_next(s, p) == plain_step(TokenType::Newline, p + 1),
{
}

/// Forward progress: every step consumes at least one character and never
/// runs past the end of input, so repeated stepping terminates.
pub proof fn lemma_lex_next_advances(s: Seq<char>, p: int)
    requires
        0 <= p < s.len(),
    ensures
        p < lex_next(s, p).next <= s.len(),
{
    let c = s[p];
    lemma_space_run_end(s, p);
    lemma_line_end(s, p + 1);
    if spec_space(c) {
    } else if c == '"' || c == '\'' {
        let quote = c;
        if !(p + 1 < s.len() && s[p + 1] == quote) {
            lemma_scan_quoted_bounds(s, p + 1, quote);
        }
    } else if c == '/' {
        if p + 1 < s.len() && s[p + 1] == '*' {
            lemma_block_end(s, p + 2);
        } else if p + 1 < s.len() && s[p + 1] == '/' {
            lemma_line_end(s, p + 2);
        }
    } else if spec_dec_digit(c) {
        if c == '0' && p + 1 < s.len() && spec_begin_bin(s[p + 1]) {
            lemma_bin_run_end(s, p + 2);
        } else if c == '0' && p + 1 < s.len() && spec_begin_oct(s[p + 1]) {
            lemma_oct_run_end(s, p + 2);
        } else if c == '0' && p + 1 < s.len() && spec_begin_hex(s[p + 1]) {
            lemma_hex_run_end(s, p + 2);
        } else {
            lemma_dec_run_end(s, p);
        }
    } else if alphabetic(c) || c == '_' {
        lemma_ident_run_end(s, p + 1);
    }
}

} // verus!
