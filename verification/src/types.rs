//! The token data model: positions, ranges, the closed set of token kinds and
//! the token record that the engine produces.

use vstd::prelude::*;

verus! {

/// A line/character coordinate in the source text.
#[derive(Debug, Clone, Copy, PartialEq, Eq, Structural)]
pub struct Position {
    pub line: usize,
    pub character: usize,
}

/// The span of source text a token occupies. The all-zero range is a valid
/// placeholder meaning "position not computed for this token".
#[derive(Debug, Clone, Copy, PartialEq, Eq, Structural)]
pub struct Range {
    pub start: Position,
    pub end: Position,
}

impl Range {
    /// The all-zero placeholder range.
    pub open spec fn placeholder() -> Range {
        Range {
            start: Position { line: 0, character: 0 },
            end: Position { line: 0, character: 0 },
        }
    }
}

impl Default for Range {
    fn default() -> (r: Self)
        ensures
            r == Range::placeholder(),
    {
        Range {
            start: Position { line: 0, character: 0 },
            end: Position { line: 0, character: 0 },
        }
    }
}

/// The closed, exhaustive enumeration of lexical categories.
///
/// `Float32lit` and `Float64lit` exist only as placeholders for a downstream
/// consumer and are never produced by the engine itself; `Decorator` is
/// reserved and likewise unused by the engine.
#[derive(Debug, Clone, Copy, PartialEq, Eq, Structural)]
pub enum TokenType {
    Invalid,
    Eof,
    Whitespace,
    Comment,
    Newline,
    Dot,
    Ellipsis,
    Semi,
    Ident,
    LeftParen,
    RightParen,
    LeftBrace,
    RightBrace,
    LeftSquare,
    RightSquare,
    Comma,
    Colon,
    BinLit,
    OctLit,
    HexLit,
    IntLit,
    StringLit,
    CharLit,
    BoolLit,
    NullptrLit,
    Invert,
    IncOp,
    MulOp,
    AddOp,
    ShiftOp,
    BitOp,
    RelOp,
    EquOp,
    LogicOp,
    LocationSpec,
    StorageSpec,
    Type,
    AssignOp,
    FromStmt,
    ImportStmt,
    AsStmt,
    NewStmt,
    DeleteStmt,
    ReturnStmt,
    IfStmt,
    ElifStmt,
    ElseStmt,
    ForStmt,
    WhileStmt,
    DoStmt,
    NoneType,
    Arrow,
    ClassDef,
    EnumDef,
    FunctionDef,
    OperatorDef,
    Decorator,
    Visibility,
    Unsafe,
    Float32lit,
    Float64lit,
}

/// A classified unit of lexical input: a kind, the (escape-decoded) lexeme
/// text, an optional source range and the character count of the text.
///
/// A token whose kind is [`TokenType::Invalid`] signals a lexical error and
/// carries no meaningful value.
#[derive(Debug, Clone)]
pub struct Token {
    type_: TokenType,
    value: String,
    location: Option<Range>,
    length: usize,
}

impl Token {
    /// The token's kind.
    pub closed spec fn spec_type(&self) -> TokenType {
        self.type_
    }

    /// The token's text, as a character sequence.
    pub closed spec fn spec_value(&self) -> Seq<char> {
        self.value@
    }

    /// The token's recorded source range, if one was computed.
    pub closed spec fn spec_location(&self) -> Option<Range> {
        self.location
    }

    /// The token's recorded length.
    pub closed spec fn spec_length(&self) -> usize {
        self.length
    }

    /// A token built from a kind alone: empty text, no range, length zero.
    pub open spec fn is_plain(&self, type_: TokenType) -> bool {
        &&& self.spec_type() == type_
        &&& self.spec_value() == Seq::<char>::empty()
        &&& self.spec_location() is None
        &&& self.spec_length() == 0
    }

    /// A token that carries lexeme text `v`: its length is the character
    /// count of `v` and it holds the placeholder range.
    pub open spec fn is_valued(&self, type_: TokenType, v: Seq<char>) -> bool {
        &&& self.spec_type() == type_
        &&& self.spec_value() == v
        &&& self.spec_location() == Some(Range::placeholder())
        &&& self.spec_length() == v.len()
    }

    /// Construction with an explicit value, range and length.
    pub fn new(type_: TokenType, value: String, location: Range, length: usize) -> (t: Self)
        ensures
            t.spec_type() == type_,
            t.spec_value() == value@,
            t.spec_location() == Some(location),
            t.spec_length() == length,
    {
        Token { type_, value, length, location: Some(location) }
    }

    /// Construction from a kind alone; all other fields are empty. Used for
    /// zero-length structural and sentinel tokens.
    pub fn from_type(type_: TokenType) -> (t: Self)
        ensures
            t.is_plain(type_),
    {
        Token { type_, value: String::new(), location: None, length: 0 }
    }

    /// The token's kind.
    pub fn type_(&self) -> (t: TokenType)
        ensures
            t == self.spec_type(),
    {
        self.type_
    }

    /// Replaces the token's kind, leaving every other field unchanged.
    pub fn set_type(&mut self, type_: TokenType)
        ensures
            final(self).spec_type() == type_,
            final(self).spec_value() == old(self).spec_value(),
            final(self).spec_location() == old(self).spec_location(),
            final(self).spec_length() == old(self).spec_length(),
    {
        self.type_ = type_;
    }

    /// A copy of the token's text.
    pub fn value(&self) -> (v: String)
        ensures
            v@ == self.spec_value(),
    {
        self.value.clone()
    }

    /// Replaces the token's text, leaving every other field (the recorded
    /// length included) unchanged.
    pub fn set_value(&mut self, value: String)
        ensures
            final(self).spec_value() == value@,
            final(self).spec_type() == old(self).spec_type(),
            final(self).spec_location() == old(self).spec_location(),
            final(self).spec_length() == old(self).spec_length(),
    {
        self.value = value;
    }

    /// The token's recorded length.
    pub fn length(&self) -> (n: usize)
        ensures
            n == self.spec_length(),
    {
        self.length
    }

    /// The token's recorded source range, if one was computed.
    pub fn location(&self) -> (l: Option<Range>)
        ensures
            l == self.spec_location(),
    {
        self.location
    }

    /// Whether the token is anything other than the invalid marker.
    pub fn valid(&self) -> (b: bool)
        ensures
            b == (self.spec_type() != TokenType::Invalid),
    {
        self.type_ != TokenType::Invalid
    }
}

} // verus!
