//! The lexer engine: a cursor over the decoded character buffer whose
//! `next_token` operation produces exactly the token that [`crate::model`]
//! describes for the current position.

use vstd::prelude::*;

use crate::model::{
    bin_run_end, block_end, escape_marks_invalid, hex_digit_val, hex_run_end, hex_val,
    lemma_bin_run_end_is, lemma_block_end_found, lemma_block_end_none, lemma_dec_run_end_is,
    lemma_hex_run_end_is, lemma_ident_run_end_is, lemma_line_end_is, lemma_oct_run_end_is,
    lemma_space_run_end_is, lex_additive, lex_division, lex_equality, lex_next, lex_number,
    lex_quoted, lex_relational, lex_word, line_end, oct_run_end, scan_quoted, space_run_end,
    token_matches_step, valid_code_point,
};
use crate::recogniser::{char_is_alphabetic, char_is_alphanumeric, CharRecogniser,
    StringRecogniser};
use crate::types::{Position, Range, Token, TokenType};

verus! {

/// Relies on `String::push`: appends exactly the given character to the end
/// of the string.
#[verifier::external_body]
fn string_push(s: &mut String, c: char)
    ensures
        final(s)@ == old(s)@.push(c),
{
    s.push(c);
}

/// Relies on `char::from_u32`: returns the character with the given code
/// point, and `None` exactly for the surrogates and for values above the
/// Unicode maximum.
#[verifier::external_body]
fn char_from_u32(u: u32) -> (r: Option<char>)
    ensures
        r == (if valid_code_point(u as int) {
            Some(u as char)
        } else {
            None::<char>
        }),
{
    char::from_u32(u)
}

/// The result of reading one (possibly escaped) character inside a quoted
/// literal.
enum Decoded {
    /// An ordinary character, taken from the input as it stands.
    Literal(char),
    /// A character produced by decoding an escape sequence.
    Escaped(char),
    /// An escape that decodes to no character: an empty or out-of-range
    /// `\u` code point.  The literal is invalid; scanning continues.
    Bad,
    /// The end of input was reached before the character was complete.
    End,
}

/// A snapshot of the cursor taken before a sub-reader starts consuming, so
/// that the exact lexeme text can be sliced out afterwards.
struct ReadStart {
    read_pos: usize,
}

/// The lexer engine.  It exclusively owns the decoded character buffer and
/// the cursor over it; each call to [`Tokeniser::next_token`] classifies the
/// character at the cursor, consumes exactly the characters of one token and
/// returns that token.
pub struct Tokeniser {
    file: Vec<char>,
    read_pos: usize,
    position: Position,
    eof: bool,
}

impl Tokeniser {
    /// The cursor invariant: the read position never runs past the end of
    /// the non-empty buffer, the end-of-input flag holds exactly at the end,
    /// and the line/column bookkeeping stays within the consumed prefix.
    pub closed spec fn wf(&self) -> bool {
        &&& self.file@.len() >= 1
        &&& self.read_pos <= self.file@.len()
        &&& (self.eof <==> self.read_pos == self.file@.len())
        &&& self.position.line <= self.read_pos
        &&& self.position.character <= self.read_pos
    }

    /// The decoded source text.
    pub closed spec fn src(&self) -> Seq<char> {
        self.file@
    }

    /// The current read position.
    pub closed spec fn pos(&self) -> int {
        self.read_pos as int
    }

    /// Whether the cursor has passed the end of input.
    pub closed spec fn at_end(&self) -> bool {
        self.eof
    }

    /// Constructs an engine over the given source text, which must hold at
    /// least one character, with the cursor at the first character.
    pub fn new(file: String) -> (t: Tokeniser)
        requires
            file@.len() >= 1,
        ensures
            t.wf(),
            t.src() == file@,
            t.pos() == 0,
            !t.at_end(),
    {
        let n = file.as_str().unicode_len();
        let mut chars: Vec<char> = Vec::new();
        let mut i: usize = 0;
        while i < n
            invariant
                i <= n,
                n == file@.len(),
                chars@ == file@.subrange(0, i as int),
            decreases n - i,
        {
            chars.push(file.as_str().get_char(i));
            i += 1;
            proof {
                assert(file@.subrange(0, i as int) =~= file@.subrange(0, i - 1).push(
                    file@[i - 1],
                ));
            }
        }
        proof {
            assert(chars@ =~= file@);
        }
        Tokeniser {
            file: chars,
            read_pos: 0,
            position: Position { line: 0, character: 0 },
            eof: false,
        }
    }

    /// The character at the cursor.
    fn current_char(&self) -> (c: char)
        requires
            self.wf(),
            !self.at_end(),
        ensures
            c == self.src()[self.pos()],
    {
        self.file[self.read_pos]
    }

    /// The character one past the cursor, without advancing; `None` when
    /// that would be past the end of input.
    fn peek_char(&self) -> (r: Option<char>)
        requires
            self.wf(),
            !self.at_end(),
        ensures
            match r {
                Some(c) => self.pos() + 1 < self.src().len() && c == self.src()[self.pos() + 1],
                None => self.pos() + 1 == self.src().len(),
            },
    {
        let n = self.file.len();
        if self.read_pos + 1 < n {
            Some(self.file[self.read_pos + 1])
        } else {
            None
        }
    }

    /// Moves the cursor one character forward, updating the position
    /// bookkeeping (line and column advance conventionally) and the
    /// end-of-input flag.  Returns the new current character, or `None` when
    /// the cursor has just passed the end.
    fn next_char(&mut self) -> (r: Option<char>)
        requires
            old(self).wf(),
            !old(self).at_end(),
        ensures
            final(self).wf(),
            final(self).src() == old(self).src(),
            final(self).pos() == old(self).pos() + 1,
            match r {
                Some(c) => final(self).pos() < final(self).src().len() && c
                    == final(self).src()[final(self).pos()] && !final(self).at_end(),
                None => final(self).at_end(),
            },
    {
        let n = self.file.len();
        let c = self.file[self.read_pos];
        if c == '\n' || c == '\r' {
            self.position.line = self.position.line + 1;
            self.position.character = 0;
        } else {
            self.position.character = self.position.character + 1;
        }
        self.read_pos = self.read_pos + 1;
        if self.read_pos == n {
            self.eof = true;
            None
        } else {
            Some(self.file[self.read_pos])
        }
    }

    /// Captures the current cursor for a later slice.
    fn read_start(&self) -> (r: ReadStart)
        ensures
            r.read_pos == self.read_pos,
    {
        ReadStart { read_pos: self.read_pos }
    }

    /// The text consumed since `from`, as a string.
    fn lexeme_from(&self, from: usize) -> (v: String)
        requires
            self.wf(),
            from <= self.read_pos,
        ensures
            v@ == self.src().subrange(from as int, self.pos()),
    {
        let mut v = String::new();
        proof {
            assert(v@ =~= self.src().subrange(from as int, from as int));
        }
        let mut i = from;
        while i < self.read_pos
            invariant
                self.wf(),
                from <= i <= self.read_pos,
                v@ == self.src().subrange(from as int, i as int),
            decreases self.read_pos - i,
        {
            string_push(&mut v, self.file[i]);
            i += 1;
            proof {
                assert(self.src().subrange(from as int, i as int) =~= self.src().subrange(
                    from as int,
                    i - 1,
                ).push(self.src()[i - 1]));
            }
        }
        v
    }

    /// A token carrying the exact text consumed since the snapshot.
    fn from_read_start(&self, start: ReadStart, type_: TokenType) -> (t: Token)
        requires
            self.wf(),
            start.read_pos <= self.read_pos,
        ensures
            t.is_valued(type_, self.src().subrange(start.read_pos as int, self.pos())),
    {
        let value = self.lexeme_from(start.read_pos);
        let val_len = self.read_pos - start.read_pos;
        Token::new(type_, value, Range::default(), val_len)
    }

    /// A token built from a kind alone.
    fn gen_token(&self, type_: TokenType) -> (t: Token)
        ensures
            t.is_plain(type_),
    {
        Token::from_type(type_)
    }

    /// Consumes one character and returns a token built from the kind alone.
    fn simple_token(&mut self, type_: TokenType) -> (t: Token)
        requires
            old(self).wf(),
            !old(self).at_end(),
        ensures
            final(self).wf(),
            final(self).src() == old(self).src(),
            final(self).pos() == old(self).pos() + 1,
            t.is_plain(type_),
    {
        self.next_char();
        Token::from_type(type_)
    }

    /// Consumes one character and returns a token carrying it as text.
    fn simple_token_value(&mut self, type_: TokenType) -> (t: Token)
        requires
            old(self).wf(),
            !old(self).at_end(),
        ensures
            final(self).wf(),
            final(self).src() == old(self).src(),
            final(self).pos() == old(self).pos() + 1,
            t.is_valued(type_, seq![old(self).src()[old(self).pos()]]),
    {
        let ghost s = self.src();
        let ghost p = self.pos();
        let start = self.read_start();
        self.next_char();
        let t = self.from_read_start(start, type_);
        proof {
            assert(s.subrange(p, p + 1) =~= seq![s[p]]);
        }
        t
    }

    /// A whitespace token spanning the whole run of spaces and tabs at the
    /// cursor, with length equal to the run.
    fn read_whitespace_token(&mut self) -> (t: Token)
        requires
            old(self).wf(),
            !old(self).at_end(),
            old(self).src()[old(self).pos()] == ' ' || old(self).src()[old(self).pos()] == '\t',
        ensures
            final(self).wf(),
            final(self).src() == old(self).src(),
            final(self).pos() == space_run_end(old(self).src(), old(self).pos()),
            t.is_valued(
                TokenType::Whitespace,
                old(self).src().subrange(
                    old(self).pos(),
                    space_run_end(old(self).src(), old(self).pos()),
                ),
            ),
    {
        let ghost s = self.src();
        let ghost p = self.pos();
        let start = self.read_start();
        #[verifier::loop_isolation(false)]
        while !self.eof && (self.file[self.read_pos] == ' ' || self.file[self.read_pos] == '\t')
            invariant
                self.wf(),
                self.src() == s,
                p <= self.pos() <= s.len(),
                start.read_pos as int == p,
                forall|j: int| p <= j < self.pos() ==> crate::recogniser::spec_space(s[j]),
            decreases s.len() - self.pos(),
        {
            self.next_char();
        }
        proof {
            lemma_space_run_end_is(s, p, self.pos());
        }
        self.from_read_start(start, TokenType::Whitespace)
    }

    /// A line comment: the lead character is skipped and everything up to
    /// (not including) the next line feed, or the end of input, is the
    /// comment text.
    fn read_line_comment(&mut self) -> (t: Token)
        requires
            old(self).wf(),
            !old(self).at_end(),
        ensures
            final(self).wf(),
            final(self).src() == old(self).src(),
            final(self).pos() == line_end(old(self).src(), old(self).pos() + 1),
            t.is_valued(
                TokenType::Comment,
                old(self).src().subrange(
                    old(self).pos() + 1,
                    line_end(old(self).src(), old(self).pos() + 1),
                ),
            ),
    {
        let ghost s = self.src();
        let ghost p = self.pos();
        self.next_char();
        let start = self.read_start();
        #[verifier::loop_isolation(false)]
        while !self.eof && self.file[self.read_pos] != '\n'
            invariant
                self.wf(),
                self.src() == s,
                p + 1 <= self.pos() <= s.len(),
                start.read_pos as int == p + 1,
                forall|j: int| p + 1 <= j < self.pos() ==> s[j] != '\n',
            decreases s.len() - self.pos(),
        {
            self.next_char();
        }
        proof {
            lemma_line_end_is(s, p + 1, self.pos());
        }
        self.from_read_start(start, TokenType::Comment)
    }

    /// A block comment: entered at the `*` of the opening `/*`; the text up
    /// to the first `*/` is the comment, and the cursor lands just past the
    /// closing `*/`.  An unterminated comment is a terminal condition: the
    /// end-of-input token is produced.
    fn read_part_comment(&mut self) -> (t: Token)
        requires
            old(self).wf(),
            !old(self).at_end(),
        ensures
            final(self).wf(),
            final(self).src() == old(self).src(),
            match block_end(old(self).src(), old(self).pos() + 1) {
                Some(q) => final(self).pos() == q + 2 && t.is_valued(
                    TokenType::Comment,
                    old(self).src().subrange(old(self).pos() + 1, q),
                ),
                None => final(self).pos() == old(self).src().len() && t.is_plain(TokenType::Eof),
            },
    {
        let ghost s = self.src();
        let ghost p = self.pos();
        self.next_char();
        let start = self.read_start();
        #[verifier::loop_isolation(false)]
        loop
            invariant
                self.wf(),
                self.src() == s,
                p + 1 <= self.pos() <= s.len(),
                start.read_pos as int == p + 1,
                forall|j: int|
                    p + 1 <= j < self.pos() ==> !(#[trigger] s[j] == '*' && j + 1 < s.len() && s[j
                        + 1] == '/'),
            decreases s.len() - self.pos(),
        {
            if self.eof {
                proof {
                    lemma_block_end_none(s, p + 1);
                }
                return Token::from_type(TokenType::Eof);
            }
            let c = self.current_char();
            if c == '*' {
                match self.peek_char() {
                    Some(c2) => {
                        if c2 == '/' {
                            proof {
                                lemma_block_end_found(s, p + 1, self.pos());
                            }
                            let token = self.from_read_start(start, TokenType::Comment);
                            self.next_char();
                            self.next_char();
                            return token;
                        } else {
                            self.next_char();
                        }
                    },
                    None => {
                        self.next_char();
                        proof {
                            lemma_block_end_none(s, p + 1);
                        }
                        return Token::from_type(TokenType::Eof);
                    },
                }
            } else {
                self.next_char();
            }
        }
    }

    /// Ellipsis or dot: three consecutive dots are consumed as one ellipsis,
    /// anything else leaves a single-dot token consuming one character.
    fn read_ellipsis_token(&mut self) -> (t: Token)
        requires
            old(self).wf(),
            !old(self).at_end(),
            old(self).src()[old(self).pos()] == '.',
        ensures
            final(self).wf(),
            final(self).src() == old(self).src(),
            ({
                let s = old(self).src();
                let p = old(self).pos();
                if p + 2 < s.len() && s[p + 1] == '.' && s[p + 2] == '.' {
                    final(self).pos() == p + 3 && t.is_plain(TokenType::Ellipsis)
                } else {
                    final(self).pos() == p + 1 && t.is_plain(TokenType::Dot)
                }
            }),
    {
        match self.next_char() {
            Some(c) => {
                if c == '.' {
                    match self.peek_char() {
                        Some(c2) => {
                            if c2 == '.' {
                                self.next_char();
                                self.next_char();
                                return self.gen_token(TokenType::Ellipsis);
                            }
                        },
                        None => {},
                    }
                }
            },
            None => {},
        }
        self.gen_token(TokenType::Dot)
    }

    /// Reads one character of a quoted literal's body, decoding an escape
    /// sequence if one starts at the cursor.
    fn next_escaped_char(&mut self, quote: char) -> (d: Decoded)
        requires
            old(self).wf(),
            !old(self).at_end(),
            old(self).src()[old(self).pos()] != quote,
        ensures
            final(self).wf(),
            final(self).src() == old(self).src(),
            ({
                let s = old(self).src();
                let p = old(self).pos();
                let sc0 = scan_quoted(s, p, quote);
                let sc1 = scan_quoted(s, final(self).pos(), quote);
                match d {
                    Decoded::End => final(self).pos() == s.len() && !sc0.closed,
                    Decoded::Literal(c) => {
                        &&& p < final(self).pos() <= s.len()
                        &&& sc0.value == seq![c] + sc1.value
                        &&& sc0.bad == sc1.bad
                        &&& sc0.closed == sc1.closed
                        &&& sc0.next == sc1.next
                    },
                    Decoded::Escaped(c) => {
                        &&& p < final(self).pos() <= s.len()
                        &&& sc0.value == seq![c] + sc1.value
                        &&& sc0.bad == (escape_marks_invalid(quote, c) || sc1.bad)
                        &&& sc0.closed == sc1.closed
                        &&& sc0.next == sc1.next
                    },
                    Decoded::Bad => {
                        &&& p < final(self).pos() <= s.len()
                        &&& sc0.value == sc1.value
                        &&& sc0.bad == true
                        &&& sc0.closed == sc1.closed
                        &&& sc0.next == sc1.next
                    },
                }
            }),
    {
        proof {
            reveal_with_fuel(scan_quoted, 3);
        }
        let ghost s = self.src();
        let ghost p = self.pos();
        let c = self.current_char();
        if c != '\\' {
            self.next_char();
            return Decoded::Literal(c);
        }
        match self.next_char() {
            None => Decoded::End,
            Some(e) => {
                if e == 'u' || e == 'U' {
                    match self.next_char() {
                        None => Decoded::End,
                        Some(_) => {
                            let dstart = self.read_pos;
                            let ghost db = self.pos();
                            let mut acc: u32 = 0;
                            let mut big: bool = false;
                            #[verifier::loop_isolation(false)]
        while !self.eof && self.file[self.read_pos].is_hex()
                                invariant
                                    self.wf(),
                                    self.src() == s,
                                    db == dstart as int,
                                    db <= self.pos() <= s.len(),
                                    forall|j: int|
                                        db <= j < self.pos()
                                            ==> crate::recogniser::spec_hex_digit(s[j]),
                                    big ==> hex_val(s.subrange(db, self.pos())) > 0x10FFFF,
                                    !big ==> acc as int == hex_val(s.subrange(db, self.pos()))
                                        && acc <= 0x10FFFF,
                                decreases s.len() - self.pos(),
                            {
                                let hc = self.file[self.read_pos];
                                let d: u32 = if hc >= '0' && hc <= '9' {
                                    hc as u32 - '0' as u32
                                } else if hc >= 'a' && hc <= 'f' {
                                    hc as u32 - 'a' as u32 + 10
                                } else {
                                    hc as u32 - 'A' as u32 + 10
                                };
                                proof {
                                    assert(d as int == hex_digit_val(s[self.pos()]));
                                }
                                let ghost before = s.subrange(db, self.pos());
                                self.next_char();
                                proof {
                                    let now = s.subrange(db, self.pos());
                                    assert(now.drop_last() =~= before);
                                    assert(now.last() == s[self.pos() - 1]);
                                }
                                if !big {
                                    acc = acc * 16 + d;
                                    if acc > 0x10FFFF {
                                        big = true;
                                    }
                                }
                            }
                            proof {
                                lemma_hex_run_end_is(s, db, self.pos());
                            }
                            if self.read_pos == dstart {
                                return Decoded::Bad;
                            }
                            if big {
                                return Decoded::Bad;
                            }
                            if acc < 0xD800 || (acc >= 0xE000 && acc <= 0x10FFFF) {
                                match char_from_u32(acc) {
                                    Some(ch) => Decoded::Escaped(ch),
                                    None => {
                                        proof {
                                            assert(false);
                                        }
                                        Decoded::Bad
                                    },
                                }
                            } else {
                                Decoded::Bad
                            }
                        },
                    }
                } else {
                    let dec: char = if e == '\\' {
                        '\\'
                    } else if e == 'b' {
                        '\u{8}'
                    } else if e == 'r' {
                        '\r'
                    } else if e == 'n' {
                        '\n'
                    } else if e == 't' {
                        '\t'
                    } else if e == 'v' {
                        '\u{B}'
                    } else if e == 'f' {
                        '\u{C}'
                    } else if e == 'a' {
                        '\u{7}'
                    } else {
                        e
                    };
                    self.next_char();
                    Decoded::Escaped(dec)
                }
            },
        }
    }

    /// The body of a non-empty quoted literal: scans escape-decoded
    /// characters until the unescaped closing quote, producing the literal
    /// token, the invalid token when a disallowed or undecodable escape
    /// occurred, or the end-of-input token when the literal is unterminated.
    fn read_quoted_tail(&mut self, quote: char, lit_kind: TokenType) -> (t: Token)
        requires
            old(self).wf(),
            !old(self).at_end(),
            old(self).src()[old(self).pos()] == quote,
            !(old(self).pos() + 1 < old(self).src().len() && old(self).src()[old(self).pos() + 1]
                == quote),
        ensures
            final(self).wf(),
            final(self).src() == old(self).src(),
            ({
                let s = old(self).src();
                let p = old(self).pos();
                let sc = scan_quoted(s, p + 1, quote);
                if !sc.closed {
                    final(self).pos() == s.len() && t.is_plain(TokenType::Eof)
                } else if sc.bad {
                    final(self).pos() == sc.next && t.is_plain(TokenType::Invalid)
                } else {
                    final(self).pos() == sc.next && t.is_valued(lit_kind, sc.value)
                }
            }),
    {
        let ghost s = self.src();
        let ghost p = self.pos();
        self.next_char();
        let ghost p0 = self.pos();
        let mut lit = String::new();
        let mut n: usize = 0;
        let mut bad = false;
        proof {
            assert(lit@ + scan_quoted(s, p0, quote).value =~= scan_quoted(s, p0, quote).value);
        }
        #[verifier::loop_isolation(false)]
        loop
            invariant
                self.wf(),
                self.src() == s,
                p0 == p + 1,
                p0 <= self.pos() <= s.len(),
                n == lit@.len(),
                n <= self.pos(),
                ({
                    let full = scan_quoted(s, p0, quote);
                    let cur = scan_quoted(s, self.pos(), quote);
                    &&& full.closed == cur.closed
                    &&& full.next == cur.next
                    &&& full.value == lit@ + cur.value
                    &&& full.bad == (bad || cur.bad)
                }),
            decreases s.len() - self.pos(),
        {
            if self.eof {
                return Token::from_type(TokenType::Eof);
            }
            let c = self.current_char();
            if c == quote {
                self.next_char();
                proof {
                    assert(lit@ + scan_quoted(s, self.pos() - 1, quote).value =~= lit@);
                }
                if bad {
                    return self.gen_token(TokenType::Invalid);
                }
                return Token::new(lit_kind, lit, Range::default(), n);
            }
            let ghost lit_before = lit@;
            let ghost pos_before = self.pos();
            match self.next_escaped_char(quote) {
                Decoded::End => {
                    return Token::from_type(TokenType::Eof);
                },
                Decoded::Literal(ch) => {
                    string_push(&mut lit, ch);
                    n = n + 1;
                    proof {
                        assert(lit_before + scan_quoted(s, pos_before, quote).value =~= lit@
                            + scan_quoted(s, self.pos(), quote).value);
                    }
                },
                Decoded::Escaped(ch) => {
                    string_push(&mut lit, ch);
                    n = n + 1;
                    if quote == '"' {
                        if ch == '\'' {
                            bad = true;
                        }
                    } else {
                        if ch == '"' || ch == '/' {
                            bad = true;
                        }
                    }
                    proof {
                        assert(lit_before + scan_quoted(s, pos_before, quote).value =~= lit@
                            + scan_quoted(s, self.pos(), quote).value);
                    }
                },
                Decoded::Bad => {
                    bad = true;
                },
            }
        }
    }

    /// A string literal: an immediately doubled quote is the empty string
    /// literal; otherwise the body is scanned for an unescaped closing
    /// quote.
    fn read_string_token(&mut self) -> (t: Token)
        requires
            old(self).wf(),
            !old(self).at_end(),
            old(self).src()[old(self).pos()] == '"',
        ensures
            final(self).wf(),
            final(self).src() == old(self).src(),
            final(self).pos() == lex_quoted(
                old(self).src(),
                old(self).pos(),
                '"',
                TokenType::StringLit,
            ).next,
            token_matches_step(
                t,
                lex_quoted(old(self).src(), old(self).pos(), '"', TokenType::StringLit),
            ),
    {
        match self.peek_char() {
            Some(c2) => {
                if c2 == '"' {
                    self.next_char();
                    self.next_char();
                    return Token::new(TokenType::StringLit, String::new(), Range::default(), 0);
                }
            },
            None => {},
        }
        self.read_quoted_tail('"', TokenType::StringLit)
    }

    /// A char literal: an immediately doubled quote is an empty char
    /// literal, which is not allowed and yields the invalid token; otherwise
    /// the body is scanned for an unescaped closing quote.
    fn read_char_token(&mut self) -> (t: Token)
        requires
            old(self).wf(),
            !old(self).at_end(),
            old(self).src()[old(self).pos()] == '\'',
        ensures
            final(self).wf(),
            final(self).src() == old(self).src(),
            final(self).pos() == lex_quoted(
                old(self).src(),
                old(self).pos(),
                '\'',
                TokenType::CharLit,
            ).next,
            token_matches_step(
                t,
                lex_quoted(old(self).src(), old(self).pos(), '\'', TokenType::CharLit),
            ),
    {
        match self.peek_char() {
            Some(c2) => {
                if c2 == '\'' {
                    self.next_char();
                    self.next_char();
                    return Token::new(TokenType::Invalid, String::new(), Range::default(), 0);
                }
            },
            None => {},
        }
        self.read_quoted_tail('\'', TokenType::CharLit)
    }

    /// The division family: block comment, line comment, compound
    /// assignment or bare multiplicative operator.
    fn read_div_token(&mut self) -> (t: Token)
        requires
            old(self).wf(),
            !old(self).at_end(),
            old(self).src()[old(self).pos()] == '/',
        ensures
            final(self).wf(),
            final(self).src() == old(self).src(),
            final(self).pos() == lex_division(old(self).src(), old(self).pos()).next,
            token_matches_step(t, lex_division(old(self).src(), old(self).pos())),
    {
        let ghost s = self.src();
        let ghost p = self.pos();
        let start = self.read_start();
        match self.next_char() {
            None => {
                let t = self.from_read_start(start, TokenType::MulOp);
                proof {
                    assert(s.subrange(p, p + 1) =~= seq!['/']);
                }
                t
            },
            Some(c) => {
                if c == '*' {
                    self.read_part_comment()
                } else if c == '/' {
                    self.read_line_comment()
                } else if c == '=' {
                    self.next_char();
                    let t = self.from_read_start(start, TokenType::AssignOp);
                    proof {
                        assert(s.subrange(p, p + 2) =~= seq!['/', '=']);
                    }
                    t
                } else {
                    let t = self.from_read_start(start, TokenType::MulOp);
                    proof {
                        assert(s.subrange(p, p + 1) =~= seq!['/']);
                    }
                    t
                }
            },
        }
    }

    /// The multiplicative family: compound assignment or bare operator.
    fn read_mul_token(&mut self) -> (t: Token)
        requires
            old(self).wf(),
            !old(self).at_end(),
            old(self).src()[old(self).pos()] == '*' || old(self).src()[old(self).pos()] == '%',
        ensures
            final(self).wf(),
            final(self).src() == old(self).src(),
            ({
                let s = old(self).src();
                let p = old(self).pos();
                let c = s[p];
                if p + 1 < s.len() && s[p + 1] == '=' {
                    final(self).pos() == p + 2 && t.is_valued(TokenType::AssignOp, seq![c, '='])
                } else {
                    final(self).pos() == p + 1 && t.is_valued(TokenType::MulOp, seq![c])
                }
            }),
    {
        let ghost s = self.src();
        let ghost p = self.pos();
        let start = self.read_start();
        match self.next_char() {
            None => {
                let t = self.from_read_start(start, TokenType::MulOp);
                proof {
                    assert(s.subrange(p, p + 1) =~= seq![s[p]]);
                }
                t
            },
            Some(c) => {
                if c == '=' {
                    self.next_char();
                    let t = self.from_read_start(start, TokenType::AssignOp);
                    proof {
                        assert(s.subrange(p, p + 2) =~= seq![s[p], '=']);
                    }
                    t
                } else {
                    let t = self.from_read_start(start, TokenType::MulOp);
                    proof {
                        assert(s.subrange(p, p + 1) =~= seq![s[p]]);
                    }
                    t
                }
            },
        }
    }

    /// The additive family: compound assignment, arrow, doubled
    /// increment/decrement, or bare operator.
    fn read_add_token(&mut self) -> (t: Token)
        requires
            old(self).wf(),
            !old(self).at_end(),
            old(self).src()[old(self).pos()] == '+' || old(self).src()[old(self).pos()] == '-',
        ensures
            final(self).wf(),
            final(self).src() == old(self).src(),
            final(self).pos() == lex_additive(old(self).src(), old(self).pos()).next,
            token_matches_step(t, lex_additive(old(self).src(), old(self).pos())),
    {
        let ghost s = self.src();
        let ghost p = self.pos();
        let current = self.current_char();
        let start = self.read_start();
        match self.next_char() {
            None => {
                let t = self.from_read_start(start, TokenType::AddOp);
                proof {
                    assert(s.subrange(p, p + 1) =~= seq![s[p]]);
                }
                t
            },
            Some(c) => {
                if c == '=' {
                    self.next_char();
                    let t = self.from_read_start(start, TokenType::AssignOp);
                    proof {
                        assert(s.subrange(p, p + 2) =~= seq![s[p], '=']);
                    }
                    t
                } else if current == '-' && c == '>' {
                    self.next_char();
                    self.gen_token(TokenType::Arrow)
                } else if c == current {
                    self.next_char();
                    let t = self.from_read_start(start, TokenType::IncOp);
                    proof {
                        assert(s.subrange(p, p + 2) =~= seq![s[p], s[p]]);
                    }
                    t
                } else {
                    let t = self.from_read_start(start, TokenType::AddOp);
                    proof {
                        assert(s.subrange(p, p + 1) =~= seq![s[p]]);
                    }
                    t
                }
            },
        }
    }

    /// The boolean family: compound assignment, doubled logical operator, or
    /// bare bitwise operator.
    fn read_boolean_token(&mut self) -> (t: Token)
        requires
            old(self).wf(),
            !old(self).at_end(),
            old(self).src()[old(self).pos()] == '&' || old(self).src()[old(self).pos()] == '|',
        ensures
            final(self).wf(),
            final(self).src() == old(self).src(),
            ({
                let s = old(self).src();
                let p = old(self).pos();
                let c = s[p];
                if p + 1 < s.len() && s[p + 1] == '=' {
                    final(self).pos() == p + 2 && t.is_valued(TokenType::AssignOp, seq![c, '='])
                } else if p + 1 < s.len() && s[p + 1] == c {
                    final(self).pos() == p + 2 && t.is_valued(TokenType::LogicOp, seq![c, c])
                } else {
                    final(self).pos() == p + 1 && t.is_valued(TokenType::BitOp, seq![c])
                }
            }),
    {
        let ghost s = self.src();
        let ghost p = self.pos();
        let current = self.current_char();
        let start = self.read_start();
        match self.next_char() {
            None => {
                let t = self.from_read_start(start, TokenType::BitOp);
                proof {
                    assert(s.subrange(p, p + 1) =~= seq![s[p]]);
                }
                t
            },
            Some(c) => {
                if c == '=' {
                    self.next_char();
                    let t = self.from_read_start(start, TokenType::AssignOp);
                    proof {
                        assert(s.subrange(p, p + 2) =~= seq![s[p], '=']);
                    }
                    t
                } else if c == current {
                    self.next_char();
                    let t = self.from_read_start(start, TokenType::LogicOp);
                    proof {
                        assert(s.subrange(p, p + 2) =~= seq![s[p], s[p]]);
                    }
                    t
                } else {
                    let t = self.from_read_start(start, TokenType::BitOp);
                    proof {
                        assert(s.subrange(p, p + 1) =~= seq![s[p]]);
                    }
                    t
                }
            },
        }
    }

    /// The bitwise family: compound assignment or bare operator.
    fn read_bitwise_token(&mut self) -> (t: Token)
        requires
            old(self).wf(),
            !old(self).at_end(),
            old(self).src()[old(self).pos()] == '^',
        ensures
            final(self).wf(),
            final(self).src() == old(self).src(),
            ({
                let s = old(self).src();
                let p = old(self).pos();
                let c = s[p];
                if p + 1 < s.len() && s[p + 1] == '=' {
                    final(self).pos() == p + 2 && t.is_valued(TokenType::AssignOp, seq![c, '='])
                } else {
                    final(self).pos() == p + 1 && t.is_valued(TokenType::BitOp, seq![c])
                }
            }),
    {
        let ghost s = self.src();
        let ghost p = self.pos();
        let start = self.read_start();
        match self.next_char() {
            None => {
                let t = self.from_read_start(start, TokenType::BitOp);
                proof {
                    assert(s.subrange(p, p + 1) =~= seq![s[p]]);
                }
                t
            },
            Some(c) => {
                if c == '=' {
                    self.next_char();
                    let t = self.from_read_start(start, TokenType::AssignOp);
                    proof {
                        assert(s.subrange(p, p + 2) =~= seq![s[p], '=']);
                    }
                    t
                } else {
                    let t = self.from_read_start(start, TokenType::BitOp);
                    proof {
                        assert(s.subrange(p, p + 1) =~= seq![s[p]]);
                    }
                    t
                }
            },
        }
    }

    /// The relational family: `<=`/`>=`, shifts, shift-assigns, or bare
    /// relational operators.
    fn read_relation_token(&mut self) -> (t: Token)
        requires
            old(self).wf(),
            !old(self).at_end(),
            old(self).src()[old(self).pos()] == '<' || old(self).src()[old(self).pos()] == '>',
        ensures
            final(self).wf(),
            final(self).src() == old(self).src(),
            final(self).pos() == lex_relational(old(self).src(), old(self).pos()).next,
            token_matches_step(t, lex_relational(old(self).src(), old(self).pos())),
    {
        let ghost s = self.src();
        let ghost p = self.pos();
        let current = self.current_char();
        let start = self.read_start();
        match self.next_char() {
            None => {
                let t = self.from_read_start(start, TokenType::RelOp);
                proof {
                    assert(s.subrange(p, p + 1) =~= seq![s[p]]);
                }
                t
            },
            Some(c) => {
                if c == '=' {
                    self.next_char();
                    let t = self.from_read_start(start, TokenType::RelOp);
                    proof {
                        assert(s.subrange(p, p + 2) =~= seq![s[p], '=']);
                    }
                    t
                } else if c == current {
                    match self.peek_char() {
                        Some(c3) => {
                            if c3 == '=' {
                                self.next_char();
                                self.next_char();
                                let t = self.from_read_start(start, TokenType::AssignOp);
                                proof {
                                    assert(s.subrange(p, p + 3) =~= seq![s[p], s[p], '=']);
                                }
                                t
                            } else {
                                self.next_char();
                                let t = self.from_read_start(start, TokenType::ShiftOp);
                                proof {
                                    assert(s.subrange(p, p + 2) =~= seq![s[p], s[p]]);
                                }
                                t
                            }
                        },
                        None => {
                            self.next_char();
                            let t = self.from_read_start(start, TokenType::ShiftOp);
                            proof {
                                assert(s.subrange(p, p + 2) =~= seq![s[p], s[p]]);
                            }
                            t
                        },
                    }
                } else {
                    let t = self.from_read_start(start, TokenType::RelOp);
                    proof {
                        assert(s.subrange(p, p + 1) =~= seq![s[p]]);
                    }
                    t
                }
            },
        }
    }

    /// The equality family: `!=`/`==`, bare assignment, or bare inversion.
    fn read_equality_token(&mut self) -> (t: Token)
        requires
            old(self).wf(),
            !old(self).at_end(),
            old(self).src()[old(self).pos()] == '!' || old(self).src()[old(self).pos()] == '=',
        ensures
            final(self).wf(),
            final(self).src() == old(self).src(),
            final(self).pos() == lex_equality(old(self).src(), old(self).pos()).next,
            token_matches_step(t, lex_equality(old(self).src(), old(self).pos())),
    {
        let ghost s = self.src();
        let ghost p = self.pos();
        let current = self.current_char();
        let start = self.read_start();
        match self.next_char() {
            None => {
                let t = self.from_read_start(
                    start,
                    if current == '=' {
                        TokenType::AssignOp
                    } else {
                        TokenType::Invert
                    },
                );
                proof {
                    assert(s.subrange(p, p + 1) =~= seq![s[p]]);
                }
                t
            },
            Some(c) => {
                if c == '=' {
                    self.next_char();
                    let t = self.from_read_start(start, TokenType::EquOp);
                    proof {
                        assert(s.subrange(p, p + 2) =~= seq![s[p], '=']);
                    }
                    t
                } else if current == '=' {
                    let t = self.from_read_start(start, TokenType::AssignOp);
                    proof {
                        assert(s.subrange(p, p + 1) =~= seq![s[p]]);
                    }
                    t
                } else {
                    let t = self.from_read_start(start, TokenType::Invert);
                    proof {
                        assert(s.subrange(p, p + 1) =~= seq![s[p]]);
                    }
                    t
                }
            },
        }
    }

    /// A binary literal's digit run: entered at the base letter; an empty
    /// run is an invalid token.
    fn read_bin_token(&mut self) -> (t: Token)
        requires
            old(self).wf(),
            !old(self).at_end(),
        ensures
            final(self).wf(),
            final(self).src() == old(self).src(),
            ({
                let s = old(self).src();
                let p = old(self).pos();
                let e = bin_run_end(s, p + 1);
                final(self).pos() == e && if e == p + 1 {
                    t.is_plain(TokenType::Invalid)
                } else {
                    t.is_valued(TokenType::BinLit, s.subrange(p + 1, e))
                }
            }),
    {
        let ghost s = self.src();
        let ghost p = self.pos();
        self.next_char();
        let start = self.read_start();
        #[verifier::loop_isolation(false)]
        while !self.eof && (self.file[self.read_pos] == '0' || self.file[self.read_pos] == '1')
            invariant
                self.wf(),
                self.src() == s,
                p + 1 <= self.pos() <= s.len(),
                start.read_pos as int == p + 1,
                forall|j: int|
                    p + 1 <= j < self.pos() ==> crate::recogniser::spec_bin_digit(s[j]),
            decreases s.len() - self.pos(),
        {
            self.next_char();
        }
        proof {
            lemma_bin_run_end_is(s, p + 1, self.pos());
        }
        if start.read_pos == self.read_pos {
            return self.gen_token(TokenType::Invalid);
        }
        self.from_read_start(start, TokenType::BinLit)
    }

    /// An octal literal's digit run: entered at the base letter; an empty
    /// run is an invalid token.
    fn read_oct_token(&mut self) -> (t: Token)
        requires
            old(self).wf(),
            !old(self).at_end(),
        ensures
            final(self).wf(),
            final(self).src() == old(self).src(),
            ({
                let s = old(self).src();
                let p = old(self).pos();
                let e = oct_run_end(s, p + 1);
                final(self).pos() == e && if e == p + 1 {
                    t.is_plain(TokenType::Invalid)
                } else {
                    t.is_valued(TokenType::OctLit, s.subrange(p + 1, e))
                }
            }),
    {
        let ghost s = self.src();
        let ghost p = self.pos();
        self.next_char();
        let start = self.read_start();
        #[verifier::loop_isolation(false)]
        while !self.eof && self.file[self.read_pos] >= '0' && self.file[self.read_pos] <= '7'
            invariant
                self.wf(),
                self.src() == s,
                p + 1 <= self.pos() <= s.len(),
                start.read_pos as int == p + 1,
                forall|j: int|
                    p + 1 <= j < self.pos() ==> crate::recogniser::spec_oct_digit(s[j]),
            decreases s.len() - self.pos(),
        {
            self.next_char();
        }
        proof {
            lemma_oct_run_end_is(s, p + 1, self.pos());
        }
        if start.read_pos == self.read_pos {
            return self.gen_token(TokenType::Invalid);
        }
        self.from_read_start(start, TokenType::OctLit)
    }

    /// A hexadecimal literal's digit run: entered at the base letter; an
    /// empty run is an invalid token.
    fn read_hex_token(&mut self) -> (t: Token)
        requires
            old(self).wf(),
            !old(self).at_end(),
        ensures
            final(self).wf(),
            final(self).src() == old(self).src(),
            ({
                let s = old(self).src();
                let p = old(self).pos();
                let e = hex_run_end(s, p + 1);
                final(self).pos() == e && if e == p + 1 {
                    t.is_plain(TokenType::Invalid)
                } else {
                    t.is_valued(TokenType::HexLit, s.subrange(p + 1, e))
                }
            }),
    {
        let ghost s = self.src();
        let ghost p = self.pos();
        self.next_char();
        let start = self.read_start();
        #[verifier::loop_isolation(false)]
        while !self.eof && self.file[self.read_pos].is_hex()
            invariant
                self.wf(),
                self.src() == s,
                p + 1 <= self.pos() <= s.len(),
                start.read_pos as int == p + 1,
                forall|j: int|
                    p + 1 <= j < self.pos() ==> crate::recogniser::spec_hex_digit(s[j]),
            decreases s.len() - self.pos(),
        {
            self.next_char();
        }
        proof {
            lemma_hex_run_end_is(s, p + 1, self.pos());
        }
        if start.read_pos == self.read_pos {
            return self.gen_token(TokenType::Invalid);
        }
        self.from_read_start(start, TokenType::HexLit)
    }

    /// A numeric literal: a leading zero followed by a base letter selects
    /// binary, octal or hexadecimal reading; anything else is a decimal run.
    fn read_int_token(&mut self) -> (t: Token)
        requires
            old(self).wf(),
            !old(self).at_end(),
            crate::recogniser::spec_dec_digit(old(self).src()[old(self).pos()]),
        ensures
            final(self).wf(),
            final(self).src() == old(self).src(),
            final(self).pos() == lex_number(old(self).src(), old(self).pos()).next,
            token_matches_step(t, lex_number(old(self).src(), old(self).pos())),
    {
        let ghost s = self.src();
        let ghost p = self.pos();
        let c = self.current_char();
        if c == '0' {
            match self.peek_char() {
                Some(c2) => {
                    if c2 == 'B' || c2 == 'b' {
                        self.next_char();
                        return self.read_bin_token();
                    } else if c2 == 'C' || c2 == 'c' {
                        self.next_char();
                        return self.read_oct_token();
                    } else if c2 == 'X' || c2 == 'x' {
                        self.next_char();
                        return self.read_hex_token();
                    }
                },
                None => {},
            }
        }
        let start = self.read_start();
        #[verifier::loop_isolation(false)]
        while !self.eof && self.file[self.read_pos] >= '0' && self.file[self.read_pos] <= '9'
            invariant
                self.wf(),
                self.src() == s,
                p <= self.pos() <= s.len(),
                start.read_pos as int == p,
                forall|j: int| p <= j < self.pos() ==> crate::recogniser::spec_dec_digit(s[j]),
            decreases s.len() - self.pos(),
        {
            self.next_char();
        }
        proof {
            lemma_dec_run_end_is(s, p, self.pos());
        }
        self.from_read_start(start, TokenType::IntLit)
    }

    /// An identifier: the lead character and the run of alphanumeric or
    /// underscore characters after it, reclassified by exact-match lookup
    /// against the keyword and operator-word tables.  The word-operators
    /// `and`, `or` and `not` are rewritten to their operator glyphs.
    fn read_alpha_num_token(&mut self) -> (t: Token)
        requires
            old(self).wf(),
            !old(self).at_end(),
        ensures
            final(self).wf(),
            final(self).src() == old(self).src(),
            final(self).pos() == lex_word(old(self).src(), old(self).pos()).next,
            token_matches_step(t, lex_word(old(self).src(), old(self).pos())),
    {
        let ghost s = self.src();
        let ghost p = self.pos();
        let start = self.read_start();
        self.next_char();
        #[verifier::loop_isolation(false)]
        while !self.eof && (char_is_alphanumeric(self.file[self.read_pos])
            || self.file[self.read_pos] == '_')
            invariant
                self.wf(),
                self.src() == s,
                p + 1 <= self.pos() <= s.len(),
                start.read_pos as int == p,
                forall|j: int|
                    p + 1 <= j < self.pos() ==> crate::recogniser::spec_ident_char(s[j]),
            decreases s.len() - self.pos(),
        {
            self.next_char();
        }
        proof {
            lemma_ident_run_end_is(s, p + 1, self.pos());
        }
        let val_len = self.read_pos - start.read_pos;
        let raw = self.lexeme_from(start.read_pos);
        proof {
            reveal_strlit("&");
            reveal_strlit("|");
            reveal_strlit("!");
        }
        let vs = raw.as_str();
        if vs.is_true() || vs.is_false() {
            return Token::new(TokenType::BoolLit, raw, Range::default(), val_len);
        }
        if vs.is_null() {
            return Token::new(TokenType::NullptrLit, raw, Range::default(), val_len);
        }
        if vs.is_and() {
            return Token::new(TokenType::LogicOp, String::from_str("&"), Range::default(), 1);
        }
        if vs.is_or() {
            return Token::new(TokenType::LogicOp, String::from_str("|"), Range::default(), 1);
        }
        if vs.is_not() {
            return Token::new(TokenType::Invert, String::from_str("!"), Range::default(), 1);
        }
        if vs.is_location_spec() {
            return Token::new(TokenType::LocationSpec, raw, Range::default(), val_len);
        }
        if vs.is_storage_spec() {
            return Token::new(TokenType::StorageSpec, raw, Range::default(), val_len);
        }
        if vs.is_new() {
            return Token::new(TokenType::NewStmt, raw, Range::default(), val_len);
        }
        if vs.is_delete() {
            return Token::new(TokenType::DeleteStmt, raw, Range::default(), val_len);
        }
        if vs.is_from() {
            return Token::new(TokenType::FromStmt, raw, Range::default(), val_len);
        }
        if vs.is_import() {
            return Token::new(TokenType::ImportStmt, raw, Range::default(), val_len);
        }
        if vs.is_as() {
            return Token::new(TokenType::AsStmt, raw, Range::default(), val_len);
        }
        if vs.is_return() {
            return Token::new(TokenType::ReturnStmt, raw, Range::default(), val_len);
        }
        if vs.is_if_stmt() {
            return Token::new(TokenType::IfStmt, raw, Range::default(), val_len);
        }
        if vs.is_elif_stmt() {
            return Token::new(TokenType::ElifStmt, raw, Range::default(), val_len);
        }
        if vs.is_else_stmt() {
            return Token::new(TokenType::ElseStmt, raw, Range::default(), val_len);
        }
        if vs.is_for_stmt() {
            return Token::new(TokenType::ForStmt, raw, Range::default(), val_len);
        }
        if vs.is_while_stmt() {
            return Token::new(TokenType::WhileStmt, raw, Range::default(), val_len);
        }
        if vs.is_do_stmt() {
            return Token::new(TokenType::DoStmt, raw, Range::default(), val_len);
        }
        if vs.is_none() {
            return Token::new(TokenType::NoneType, raw, Range::default(), val_len);
        }
        if vs.is_class() {
            return Token::new(TokenType::ClassDef, raw, Range::default(), val_len);
        }
        if vs.is_enum() {
            return Token::new(TokenType::EnumDef, raw, Range::default(), val_len);
        }
        if vs.is_function_def() {
            return Token::new(TokenType::FunctionDef, raw, Range::default(), val_len);
        }
        if vs.is_operator_def() {
            return Token::new(TokenType::OperatorDef, raw, Range::default(), val_len);
        }
        if vs.is_visibility() {
            return Token::new(TokenType::Visibility, raw, Range::default(), val_len);
        }
        if vs.is_unsafe() {
            return Token::new(TokenType::Unsafe, raw, Range::default(), val_len);
        }
        Token::new(TokenType::Ident, raw, Range::default(), val_len)
    }

    /// The extended dispatch: an alphabetic or underscore lead starts an
    /// identifier, an ascii digit a numeric literal; anything else is an
    /// invalid token consuming one character, so that lexing always makes
    /// forward progress.
    fn read_extended_token(&mut self) -> (t: Token)
        requires
            old(self).wf(),
            !old(self).at_end(),
        ensures
            final(self).wf(),
            final(self).src() == old(self).src(),
            ({
                let s = old(self).src();
                let p = old(self).pos();
                let c = s[p];
                if crate::recogniser::spec_dec_digit(c) {
                    final(self).pos() == lex_number(s, p).next && token_matches_step(
                        t,
                        lex_number(s, p),
                    )
                } else if crate::recogniser::alphabetic(c) || c == '_' {
                    final(self).pos() == lex_word(s, p).next && token_matches_step(
                        t,
                        lex_word(s, p),
                    )
                } else {
                    final(self).pos() == p + 1 && t.is_plain(TokenType::Invalid)
                }
            }),
    {
        let c = self.current_char();
        if c >= '0' && c <= '9' {
            return self.read_int_token();
        }
        if char_is_alphabetic(c) || c == '_' {
            return self.read_alpha_num_token();
        }
        self.next_char();
        self.gen_token(TokenType::Invalid)
    }

    /// Classifies the character at the cursor and dispatches to the
    /// narrowest applicable sub-reader.
    fn read_token(&mut self) -> (t: Token)
        requires
            old(self).wf(),
            !old(self).at_end(),
        ensures
            final(self).wf(),
            final(self).src() == old(self).src(),
            final(self).pos() == lex_next(old(self).src(), old(self).pos()).next,
            token_matches_step(t, lex_next(old(self).src(), old(self).pos())),
    {
        let c = self.current_char();
        match c {
            ' ' | '\t' => self.read_whitespace_token(),
            '#' => self.read_line_comment(),
            '\r' | '\n' => self.simple_token(TokenType::Newline),
            '.' => self.read_ellipsis_token(),
            ';' => self.simple_token(TokenType::Semi),
            '{' => self.simple_token(TokenType::LeftBrace),
            '}' => self.simple_token(TokenType::RightBrace),
            '(' => self.simple_token(TokenType::LeftParen),
            ')' => self.simple_token(TokenType::RightParen),
            '[' => self.simple_token(TokenType::LeftSquare),
            ']' => self.simple_token(TokenType::RightSquare),
            ',' => self.simple_token(TokenType::Comma),
            ':' => self.simple_token(TokenType::Colon),
            '"' => self.read_string_token(),
            '\'' => self.read_char_token(),
            '~' => self.simple_token_value(TokenType::Invert),
            '/' => self.read_div_token(),
            '*' | '%' => self.read_mul_token(),
            '+' | '-' => self.read_add_token(),
            '&' | '|' => self.read_boolean_token(),
            '^' => self.read_bitwise_token(),
            '<' | '>' => self.read_relation_token(),
            '!' | '=' => self.read_equality_token(),
            _ => self.read_extended_token(),
        }
    }

    /// Returns the next token.  While input remains, exactly one classified
    /// token is produced and the cursor advances past its consumed
    /// characters, as [`lex_next`] describes.  Once the cursor has passed
    /// the end of input, every further call leaves the engine unchanged and
    /// returns the end-of-input token: the terminal state is idempotent.
    pub fn next_token(&mut self) -> (t: Token)
        requires
            old(self).wf(),
        ensures
            final(self).wf(),
            final(self).src() == old(self).src(),
            old(self).at_end() ==> *final(self) == *old(self) && t.is_plain(TokenType::Eof),
            !old(self).at_end() ==> final(self).pos() == lex_next(
                old(self).src(),
                old(self).pos(),
            ).next && token_matches_step(t, lex_next(old(self).src(), old(self).pos())),
            !old(self).at_end() ==> old(self).pos() < final(self).pos()
                && final(self).pos() <= final(self).src().len(),
            final(self).at_end() == (final(self).pos() == final(self).src().len()),
    {
        if self.eof {
            self.gen_token(TokenType::Eof)
        } else {
            let ghost s = self.src();
            let ghost p = self.pos();
            let t = self.read_token();
            proof {
                crate::model::lemma_lex_next_advances(s, p);
            }
            t
        }
    }
}

} // verus!
