//! Stateless classification predicates: single-character recognisers used by
//! the engine's dispatch and literal readers, and short-string recognisers
//! used when an identifier is reclassified into a keyword or operator word.

use vstd::prelude::*;

verus! {

// ---------------------------------------------------------------------------
// Character classes, as spec functions.
// ---------------------------------------------------------------------------

/// A newline character: line feed or carriage return.
pub open spec fn spec_new_line(c: char) -> bool {
    c == '\n' || c == '\r'
}

/// A space or horizontal tab.
pub open spec fn spec_space(c: char) -> bool {
    c == ' ' || c == '\t'
}

/// The letter selecting binary interpretation after a leading zero.
pub open spec fn spec_begin_bin(c: char) -> bool {
    c == 'B' || c == 'b'
}

/// The letter selecting octal interpretation after a leading zero.
pub open spec fn spec_begin_oct(c: char) -> bool {
    c == 'C' || c == 'c'
}

/// The letter selecting hexadecimal interpretation after a leading zero.
pub open spec fn spec_begin_hex(c: char) -> bool {
    c == 'X' || c == 'x'
}

/// A binary digit.
pub open spec fn spec_bin_digit(c: char) -> bool {
    c == '0' || c == '1'
}

/// An octal digit.
pub open spec fn spec_oct_digit(c: char) -> bool {
    '0' <= c && c <= '7'
}

/// A decimal digit.
pub open spec fn spec_dec_digit(c: char) -> bool {
    '0' <= c && c <= '9'
}

/// A hexadecimal digit, either case.
pub open spec fn spec_hex_digit(c: char) -> bool {
    spec_dec_digit(c) || ('A' <= c && c <= 'F') || ('a' <= c && c <= 'f')
}

/// What `char::is_alphabetic` returns: a function of the character alone.
pub uninterp spec fn alphabetic(c: char) -> bool;

/// What `char::is_alphanumeric` returns: a function of the character alone.
pub uninterp spec fn alphanumeric(c: char) -> bool;

/// An identifier continuation character: alphanumeric or underscore.
pub open spec fn spec_ident_char(c: char) -> bool {
    alphanumeric(c) || c == '_'
}

/// Relies on `char::is_alphabetic`: a deterministic Unicode property of the
/// character alone. std documents that every alphabetic character is also
/// alphanumeric.
#[verifier::external_body]
pub fn char_is_alphabetic(c: char) -> (r: bool)
    ensures
        r == alphabetic(c),
        r ==> alphanumeric(c),
{
    c.is_alphabetic()
}

/// Relies on `char::is_alphanumeric`: a deterministic Unicode property of the
/// character alone.
#[verifier::external_body]
pub fn char_is_alphanumeric(c: char) -> (r: bool)
    ensures
        r == alphanumeric(c),
{
    c.is_alphanumeric()
}

// ---------------------------------------------------------------------------
// Single-character recognisers.
// ---------------------------------------------------------------------------

/// Stateless predicates over single characters, consulted by the engine's
/// dispatch and by the literal readers.
pub trait CharRecogniser {
    fn is_new_line(&self) -> bool;

    fn is_underscore(&self) -> bool;

    fn is_begin_bin(&self) -> bool;

    fn is_begin_oct(&self) -> bool;

    fn is_begin_hex(&self) -> bool;

    fn is_bin(&self) -> bool;

    fn is_oct(&self) -> bool;

    fn is_hex(&self) -> bool;

    fn is_dot(&self) -> bool;

    fn is_single_quote(&self) -> bool;

    fn is_double_quote(&self) -> bool;

    fn is_equals(&self) -> bool;
}

impl CharRecogniser for char {
    fn is_new_line(&self) -> (r: bool)
        ensures
            r == spec_new_line(*self),
    {
        *self == '\n' || *self == '\r'
    }

    fn is_underscore(&self) -> (r: bool)
        ensures
            r == (*self == '_'),
    {
        *self == '_'
    }

    fn is_begin_bin(&self) -> (r: bool)
        ensures
            r == spec_begin_bin(*self),
    {
        *self == 'B' || *self == 'b'
    }

    fn is_begin_oct(&self) -> (r: bool)
        ensures
            r == spec_begin_oct(*self),
    {
        *self == 'C' || *self == 'c'
    }

    fn is_begin_hex(&self) -> (r: bool)
        ensures
            r == spec_begin_hex(*self),
    {
        *self == 'X' || *self == 'x'
    }

    fn is_bin(&self) -> (r: bool)
        ensures
            r == spec_bin_digit(*self),
    {
        *self == '0' || *self == '1'
    }

    fn is_oct(&self) -> (r: bool)
        ensures
            r == spec_oct_digit(*self),
    {
        '0' <= *self && *self <= '7'
    }

    fn is_hex(&self) -> (r: bool)
        ensures
            r == spec_hex_digit(*self),
    {
        ('0' <= *self && *self <= '9') || ('A' <= *self && *self <= 'F') || ('a' <= *self
            && *self <= 'f')
    }

    fn is_dot(&self) -> (r: bool)
        ensures
            r == (*self == '.'),
    {
        *self == '.'
    }

    fn is_single_quote(&self) -> (r: bool)
        ensures
            r == (*self == '\''),
    {
        *self == '\''
    }

    fn is_double_quote(&self) -> (r: bool)
        ensures
            r == (*self == '"'),
    {
        *self == '"'
    }

    fn is_equals(&self) -> (r: bool)
        ensures
            r == (*self == '='),
    {
        *self == '='
    }
}

// ---------------------------------------------------------------------------
// Short-string recognisers.
// ---------------------------------------------------------------------------

/// Character-by-character string equality, used by the keyword recognisers:
/// `&str` comparison has no specification available, a character loop does.
pub fn str_eq(a: &str, b: &str) -> (r: bool)
    ensures
        r == (a@ == b@),
{
    let an = a.unicode_len();
    let bn = b.unicode_len();
    if an != bn {
        return false;
    }
    let mut i: usize = 0;
    while i < an
        invariant
            i <= an,
            an == a@.len(),
            an == b@.len(),
            forall|j: int| 0 <= j < i ==> a@[j] == b@[j],
        decreases an - i,
    {
        if a.get_char(i) != b.get_char(i) {
            return false;
        }
        i += 1;
    }
    proof {
        assert(a@ =~= b@);
    }
    true
}

/// Stateless predicates over already-accumulated identifier text: literal
/// keywords, word-operators, statement and declaration keywords, and the
/// modifier word sets.
pub trait StringRecogniser {
    fn is_true(&self) -> bool;

    fn is_false(&self) -> bool;

    fn is_null(&self) -> bool;

    fn is_and(&self) -> bool;

    fn is_or(&self) -> bool;

    fn is_not(&self) -> bool;

    fn is_begin_tmpl(&self) -> bool;

    fn is_end_tmpl(&self) -> bool;

    fn is_equality(&self) -> bool;

    fn is_relation(&self) -> bool;

    fn is_new(&self) -> bool;

    fn is_delete(&self) -> bool;

    fn is_from(&self) -> bool;

    fn is_import(&self) -> bool;

    fn is_as(&self) -> bool;

    fn is_return(&self) -> bool;

    fn is_if_stmt(&self) -> bool;

    fn is_elif_stmt(&self) -> bool;

    fn is_else_stmt(&self) -> bool;

    fn is_for_stmt(&self) -> bool;

    fn is_while_stmt(&self) -> bool;

    fn is_do_stmt(&self) -> bool;

    fn is_class(&self) -> bool;

    fn is_enum(&self) -> bool;

    fn is_function_def(&self) -> bool;

    fn is_operator_def(&self) -> bool;

    fn is_const(&self) -> bool;

    fn is_static(&self) -> bool;

    fn is_volatile(&self) -> bool;

    fn is_location_spec(&self) -> bool;

    fn is_storage_spec(&self) -> bool;

    fn is_none(&self) -> bool;

    fn is_arrow(&self) -> bool;

    fn is_visibility(&self) -> bool;

    fn is_unsafe(&self) -> bool;
}

/// The location-specifier words.
pub open spec fn spec_location_word(w: Seq<char>) -> bool {
    w == "eeprom"@ || w == "flash"@ || w == "rom"@
}

/// The storage-specifier words.
pub open spec fn spec_storage_word(w: Seq<char>) -> bool {
    w == "const"@ || w == "volatile"@ || w == "static"@
}

/// The visibility words.
pub open spec fn spec_visibility_word(w: Seq<char>) -> bool {
    w == "public"@ || w == "private"@ || w == "protected"@
}

/// The relational and equality operator glyphs.
pub open spec fn spec_equality_word(w: Seq<char>) -> bool {
    w == "<"@ || w == "<="@ || w == ">"@ || w == ">="@
}

impl StringRecogniser for str {
    fn is_true(&self) -> (r: bool)
        ensures
            r == (self@ == "true"@),
    {
        str_eq(self, "true")
    }

    fn is_false(&self) -> (r: bool)
        ensures
            r == (self@ == "false"@),
    {
        str_eq(self, "false")
    }

    fn is_null(&self) -> (r: bool)
        ensures
            r == (self@ == "nullptr"@),
    {
        str_eq(self, "nullptr")
    }

    fn is_and(&self) -> (r: bool)
        ensures
            r == (self@ == "and"@),
    {
        str_eq(self, "and")
    }

    fn is_or(&self) -> (r: bool)
        ensures
            r == (self@ == "or"@),
    {
        str_eq(self, "or")
    }

    fn is_not(&self) -> (r: bool)
        ensures
            r == (self@ == "not"@),
    {
        str_eq(self, "not")
    }

    fn is_begin_tmpl(&self) -> (r: bool)
        ensures
            r == (self@ == "<"@),
    {
        str_eq(self, "<")
    }

    fn is_end_tmpl(&self) -> (r: bool)
        ensures
            r == (self@ == ">"@),
    {
        str_eq(self, ">")
    }

    fn is_equality(&self) -> (r: bool)
        ensures
            r == spec_equality_word(self@),
    {
        str_eq(self, "<") || str_eq(self, "<=") || str_eq(self, ">") || str_eq(self, ">=")
    }

    fn is_relation(&self) -> (r: bool)
        ensures
            r == (spec_equality_word(self@) || self@ == "!="@ || self@ == "=="@),
    {
        self.is_equality() || str_eq(self, "!=") || str_eq(self, "==")
    }

    fn is_new(&self) -> (r: bool)
        ensures
            r == (self@ == "new"@),
    {
        str_eq(self, "new")
    }

    fn is_delete(&self) -> (r: bool)
        ensures
            r == (self@ == "delete"@),
    {
        str_eq(self, "delete")
    }

    fn is_from(&self) -> (r: bool)
        ensures
            r == (self@ == "from"@),
    {
        str_eq(self, "from")
    }

    fn is_import(&self) -> (r: bool)
        ensures
            r == (self@ == "import"@),
    {
        str_eq(self, "import")
    }

    fn is_as(&self) -> (r: bool)
        ensures
            r == (self@ == "as"@),
    {
        str_eq(self, "as")
    }

    fn is_return(&self) -> (r: bool)
        ensures
            r == (self@ == "return"@),
    {
        str_eq(self, "return")
    }

    fn is_if_stmt(&self) -> (r: bool)
        ensures
            r == (self@ == "if"@),
    {
        str_eq(self, "if")
    }

    fn is_elif_stmt(&self) -> (r: bool)
        ensures
            r == (self@ == "elif"@),
    {
        str_eq(self, "elif")
    }

    fn is_else_stmt(&self) -> (r: bool)
        ensures
            r == (self@ == "else"@),
    {
        str_eq(self, "else")
    }

    fn is_for_stmt(&self) -> (r: bool)
        ensures
            r == (self@ == "for"@),
    {
        str_eq(self, "for")
    }

    fn is_while_stmt(&self) -> (r: bool)
        ensures
            r == (self@ == "while"@),
    {
        str_eq(self, "while")
    }

    fn is_do_stmt(&self) -> (r: bool)
        ensures
            r == (self@ == "do"@),
    {
        str_eq(self, "do")
    }

    fn is_class(&self) -> (r: bool)
        ensures
            r == (self@ == "class"@),
    {
        str_eq(self, "class")
    }

    fn is_enum(&self) -> (r: bool)
        ensures
            r == (self@ == "enum"@),
    {
        str_eq(self, "enum")
    }

    fn is_function_def(&self) -> (r: bool)
        ensures
            r == (self@ == "function"@),
    {
        str_eq(self, "function")
    }

    fn is_operator_def(&self) -> (r: bool)
        ensures
            r == (self@ == "operator"@),
    {
        str_eq(self, "operator")
    }

    fn is_const(&self) -> (r: bool)
        ensures
            r == (self@ == "const"@),
    {
        str_eq(self, "const")
    }

    fn is_static(&self) -> (r: bool)
        ensures
            r == (self@ == "static"@),
    {
        str_eq(self, "static")
    }

    fn is_volatile(&self) -> (r: bool)
        ensures
            r == (self@ == "volatile"@),
    {
        str_eq(self, "volatile")
    }

    fn is_location_spec(&self) -> (r: bool)
        ensures
            r == spec_location_word(self@),
    {
        str_eq(self, "eeprom") || str_eq(self, "flash") || str_eq(self, "rom")
    }

    fn is_storage_spec(&self) -> (r: bool)
        ensures
            r == spec_storage_word(self@),
    {
        self.is_const() || self.is_volatile() || self.is_static()
    }

    fn is_none(&self) -> (r: bool)
        ensures
            r == (self@ == "none"@),
    {
        str_eq(self, "none")
    }

    fn is_arrow(&self) -> (r: bool)
        ensures
            r == (self@ == "->"@),
    {
        str_eq(self, "->")
    }

    fn is_visibility(&self) -> (r: bool)
        ensures
            r == spec_visibility_word(self@),
    {
        str_eq(self, "public") || str_eq(self, "private") || str_eq(self, "protected")
    }

    fn is_unsafe(&self) -> (r: bool)
        ensures
            r == (self@ == "unsafe"@),
    {
        str_eq(self, "unsafe")
    }
}

} // verus!
