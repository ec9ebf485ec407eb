//! The lexer: program text, as bytes, to a sequence of tokens that ends in `Eof`.
use crate::text::{bytes_of, copy, copy_range, same};
use vstd::prelude::*;
use vstd::string::*;

verus! {

#[derive(Debug, Copy, Clone, PartialEq, Eq, Structural)]
pub enum TokenType {
    // Single-character tokens.
    LeftParen,
    RightParen,
    LeftBrace,
    RightBrace,
    Comma,
    Dot,
    Minus,
    Plus,
    Semicolon,
    Slash,
    Star,
    // One or two character tokens.
    Bang,
    BangEqual,
    Equal,
    EqualEqual,
    Greater,
    GreaterEqual,
    Less,
    LessEqual,
    // Literals.
    Identifier,
    StringLit,
    Number,
    // Keywords.
    And,
    Class,
    Else,
    False,
    Fun,
    For,
    If,
    Nil,
    Or,
    Print,
    Return,
    Super,
    This,
    True,
    Var,
    While,
    Eof,
}

/// What a literal token stands for: the decimal digits of a number as they were written,
/// or the bytes between the quotes of a string.
#[derive(Debug, PartialEq, Eq)]
pub enum LiteralValue {
    Number(Vec<u8>),
    StringValue(Vec<u8>),
}

pub enum LiteralView {
    Number(Seq<u8>),
    StringValue(Seq<u8>),
}

impl View for LiteralValue {
    type V = LiteralView;

    open spec fn view(&self) -> LiteralView {
        match self {
            LiteralValue::Number(digits) => LiteralView::Number(digits@),
            LiteralValue::StringValue(bytes) => LiteralView::StringValue(bytes@),
        }
    }
}

impl Clone for LiteralValue {
    fn clone(&self) -> (copied: Self)
        ensures
            copied@ == self@,
    {
        match self {
            LiteralValue::Number(digits) => LiteralValue::Number(copy(digits)),
            LiteralValue::StringValue(bytes) => LiteralValue::StringValue(copy(bytes)),
        }
    }
}

#[derive(Debug, PartialEq, Eq)]
pub struct Token {
    pub token_type: TokenType,
    pub lexeme: Vec<u8>,
    pub literal: Option<LiteralValue>,
    pub line: usize,
}

pub struct TokenView {
    pub token_type: TokenType,
    pub lexeme: Seq<u8>,
    pub literal: Option<LiteralView>,
    pub line: usize,
}

impl View for Token {
    type V = TokenView;

    open spec fn view(&self) -> TokenView {
        TokenView {
            token_type: self.token_type,
            lexeme: self.lexeme@,
            literal: match self.literal {
                Some(literal) => Some(literal@),
                None => None,
            },
            line: self.line,
        }
    }
}

impl Clone for Token {
    fn clone(&self) -> (copied: Self)
        ensures
            copied@ == self@,
    {
        let literal = match &self.literal {
            Some(literal) => Some(literal.clone()),
            None => None,
        };
        Token { token_type: self.token_type, lexeme: copy(&self.lexeme), literal, line: self.line }
    }
}

/// The views of a sequence of tokens, one for one.
pub open spec fn token_views(tokens: Seq<Token>) -> Seq<TokenView> {
    Seq::new(tokens.len(), |i: int| tokens[i]@)
}

// The bytes that the lexer tells apart.
pub const TAB: u8 = 9;

pub const NEWLINE: u8 = 10;

pub const CARRIAGE_RETURN: u8 = 13;

pub const SPACE: u8 = 32;

pub const BANG: u8 = 33;

pub const QUOTE: u8 = 34;

pub const LEFT_PAREN: u8 = 40;

pub const RIGHT_PAREN: u8 = 41;

pub const STAR: u8 = 42;

pub const PLUS: u8 = 43;

pub const COMMA: u8 = 44;

pub const MINUS: u8 = 45;

pub const DOT: u8 = 46;

pub const SLASH: u8 = 47;

pub const DIGIT_ZERO: u8 = 48;

pub const DIGIT_NINE: u8 = 57;

pub const SEMICOLON: u8 = 59;

pub const LESS: u8 = 60;

pub const EQUAL: u8 = 61;

pub const GREATER: u8 = 62;

pub const UPPER_A: u8 = 65;

pub const UPPER_Z: u8 = 90;

pub const UNDERSCORE: u8 = 95;

pub const LOWER_A: u8 = 97;

pub const LOWER_Z: u8 = 122;

pub const LEFT_BRACE: u8 = 123;

pub const RIGHT_BRACE: u8 = 125;

pub open spec fn digit(byte: u8) -> bool {
    DIGIT_ZERO <= byte <= DIGIT_NINE
}

pub open spec fn alpha(byte: u8) -> bool {
    (LOWER_A <= byte <= LOWER_Z) || (UPPER_A <= byte <= UPPER_Z) || byte == UNDERSCORE
}

pub open spec fn alphanumeric(byte: u8) -> bool {
    alpha(byte) || digit(byte)
}

pub fn is_digit(ch: u8) -> (yes: bool)
    ensures
        yes == digit(ch),
{
    ch >= DIGIT_ZERO && ch <= DIGIT_NINE
}

pub fn is_alpha(ch: u8) -> (yes: bool)
    ensures
        yes == alpha(ch),
{
    (ch >= LOWER_A && ch <= LOWER_Z) || (ch >= UPPER_A && ch <= UPPER_Z) || ch == UNDERSCORE
}

pub fn is_alphanumeric(ch: u8) -> (yes: bool)
    ensures
        yes == alphanumeric(ch),
{
    is_alpha(ch) || is_digit(ch)
}

/// A word that is a token kind of its own instead of an identifier.
#[derive(Debug)]
pub struct Keyword {
    pub text: Vec<u8>,
    pub token_type: TokenType,
}

pub open spec fn keyword_views(table: Seq<Keyword>) -> Seq<(Seq<u8>, TokenType)> {
    Seq::new(table.len(), |i: int| (table[i].text@, table[i].token_type))
}

/// The keywords of the language, each with its token kind.
pub open spec fn keyword_table() -> Seq<(Seq<u8>, TokenType)> {
    seq![
        ("and".spec_bytes(), TokenType::And),
        ("class".spec_bytes(), TokenType::Class),
        ("else".spec_bytes(), TokenType::Else),
        ("false".spec_bytes(), TokenType::False),
        ("for".spec_bytes(), TokenType::For),
        ("fun".spec_bytes(), TokenType::Fun),
        ("if".spec_bytes(), TokenType::If),
        ("nil".spec_bytes(), TokenType::Nil),
        ("or".spec_bytes(), TokenType::Or),
        ("print".spec_bytes(), TokenType::Print),
        ("return".spec_bytes(), TokenType::Return),
        ("super".spec_bytes(), TokenType::Super),
        ("this".spec_bytes(), TokenType::This),
        ("true".spec_bytes(), TokenType::True),
        ("var".spec_bytes(), TokenType::Var),
        ("while".spec_bytes(), TokenType::While),
    ]
}

/// The token kind of the first entry from `from` on whose word is `text`.
pub open spec fn keyword_from(table: Seq<(Seq<u8>, TokenType)>, text: Seq<u8>, from: int) -> Option<
    TokenType,
>
    decreases table.len() - from,
{
    if from < 0 || from >= table.len() {
        None
    } else if table[from].0 == text {
        Some(table[from].1)
    } else {
        keyword_from(table, text, from + 1)
    }
}

/// The token kind of a word, where the word is a keyword.
pub open spec fn keyword(text: Seq<u8>) -> Option<TokenType> {
    keyword_from(keyword_table(), text, 0)
}

/// The table of keywords.
pub fn get_keywords_hashmap() -> (table: Vec<Keyword>)
    ensures
        keyword_views(table@) == keyword_table(),
{
    let mut table: Vec<Keyword> = Vec::new();
    table.push(Keyword { text: bytes_of("and"), token_type: TokenType::And });
    table.push(Keyword { text: bytes_of("class"), token_type: TokenType::Class });
    table.push(Keyword { text: bytes_of("else"), token_type: TokenType::Else });
    table.push(Keyword { text: bytes_of("false"), token_type: TokenType::False });
    table.push(Keyword { text: bytes_of("for"), token_type: TokenType::For });
    table.push(Keyword { text: bytes_of("fun"), token_type: TokenType::Fun });
    table.push(Keyword { text: bytes_of("if"), token_type: TokenType::If });
    table.push(Keyword { text: bytes_of("nil"), token_type: TokenType::Nil });
    table.push(Keyword { text: bytes_of("or"), token_type: TokenType::Or });
    table.push(Keyword { text: bytes_of("print"), token_type: TokenType::Print });
    table.push(Keyword { text: bytes_of("return"), token_type: TokenType::Return });
    table.push(Keyword { text: bytes_of("super"), token_type: TokenType::Super });
    table.push(Keyword { text: bytes_of("this"), token_type: TokenType::This });
    table.push(Keyword { text: bytes_of("true"), token_type: TokenType::True });
    table.push(Keyword { text: bytes_of("var"), token_type: TokenType::Var });
    table.push(Keyword { text: bytes_of("while"), token_type: TokenType::While });
    assert(keyword_views(table@) =~= keyword_table());
    table
}

/// Looks a word up in a table of keywords.
pub fn find_keyword(table: &Vec<Keyword>, text: &Vec<u8>) -> (found: Option<TokenType>)
    ensures
        found == keyword_from(keyword_views(table@), text@, 0),
{
    let mut i: usize = 0;
    while i < table.len()
        invariant
            i <= table.len(),
            keyword_from(keyword_views(table@), text@, i as int) == keyword_from(
                keyword_views(table@),
                text@,
                0,
            ),
        decreases table.len() - i,
    {
        if same(&table[i].text, text) {
            return Some(table[i].token_type);
        }
        i += 1;
    }
    None
}

#[derive(Debug, Clone, Copy, PartialEq, Eq, Structural)]
pub enum ScanErrorKind {
    /// A byte that starts no token.
    UnrecognizedChar { byte: u8 },
    /// A string without its closing quote.
    UnterminatedString,
}

/// What the lexer could not read, with the line at which it gave up on it.
#[derive(Debug, Clone, Copy, PartialEq, Eq, Structural)]
pub struct ScanError {
    pub kind: ScanErrorKind,
    pub line: usize,
}

/// Where the digits that start at `pos` end.
pub open spec fn digits_end(source: Seq<u8>, pos: int) -> int
    decreases source.len() - pos,
{
    if 0 <= pos < source.len() && digit(source[pos]) {
        digits_end(source, pos + 1)
    } else {
        pos
    }
}

/// Where the letters, digits and underscores that start at `pos` end.
pub open spec fn word_end(source: Seq<u8>, pos: int) -> int
    decreases source.len() - pos,
{
    if 0 <= pos < source.len() && alphanumeric(source[pos]) {
        word_end(source, pos + 1)
    } else {
        pos
    }
}

/// Where the line that `pos` is in ends: at its newline, or at the end of the text.
pub open spec fn line_end(source: Seq<u8>, pos: int) -> int
    decreases source.len() - pos,
{
    if 0 <= pos < source.len() && source[pos] != NEWLINE {
        line_end(source, pos + 1)
    } else {
        pos
    }
}

/// Where the first quote from `pos` on stands, or the end of the text where there is none.
pub open spec fn string_end(source: Seq<u8>, pos: int) -> int
    decreases source.len() - pos,
{
    if 0 <= pos < source.len() && source[pos] != QUOTE {
        string_end(source, pos + 1)
    } else {
        pos
    }
}

/// How many newlines there are in `source[from..to]`.
pub open spec fn lines_in(source: Seq<u8>, from: int, to: int) -> int
    decreases to - from,
{
    if from >= to {
        0
    } else {
        lines_in(source, from, to - 1) + if source[to - 1] == NEWLINE {
            1int
        } else {
            0int
        }
    }
}

/// What the lexer finds at one place: a token, nothing that counts, or something it
/// cannot read.
pub enum Lexeme {
    Token(TokenView),
    Nothing,
    Error(ScanErrorKind),
}

/// What was found at a place, where the next place is, and the line there.
pub struct Lexed {
    pub next: int,
    pub line: int,
    pub item: Lexeme,
}

/// A token of `length` bytes at `pos` that stands for nothing but itself.
pub open spec fn plain(
    source: Seq<u8>,
    pos: int,
    length: int,
    line: int,
    token_type: TokenType,
) -> Lexed {
    Lexed {
        next: pos + length,
        line,
        item: Lexeme::Token(
            TokenView {
                token_type,
                lexeme: source.subrange(pos, pos + length),
                literal: None,
                line: line as usize,
            },
        ),
    }
}

/// A token of one byte, or of two where `=` follows.
pub open spec fn paired(
    source: Seq<u8>,
    pos: int,
    line: int,
    single: TokenType,
    double: TokenType,
) -> Lexed {
    if pos + 1 < source.len() && source[pos + 1] == EQUAL {
        plain(source, pos, 2, line, double)
    } else {
        plain(source, pos, 1, line, single)
    }
}

/// Nothing that counts, up to `next`.
pub open spec fn skipped(next: int, line: int) -> Lexed {
    Lexed { next, line, item: Lexeme::Nothing }
}

/// What the lexer finds at `pos`, which is a place in the text, on line `line`.
pub open spec fn token_at(source: Seq<u8>, pos: int, line: int) -> Lexed {
    let c = source[pos];
    if c == LEFT_PAREN {
        plain(source, pos, 1, line, TokenType::LeftParen)
    } else if c == RIGHT_PAREN {
        plain(source, pos, 1, line, TokenType::RightParen)
    } else if c == LEFT_BRACE {
        plain(source, pos, 1, line, TokenType::LeftBrace)
    } else if c == RIGHT_BRACE {
        plain(source, pos, 1, line, TokenType::RightBrace)
    } else if c == COMMA {
        plain(source, pos, 1, line, TokenType::Comma)
    } else if c == DOT {
        plain(source, pos, 1, line, TokenType::Dot)
    } else if c == MINUS {
        plain(source, pos, 1, line, TokenType::Minus)
    } else if c == PLUS {
        plain(source, pos, 1, line, TokenType::Plus)
    } else if c == SEMICOLON {
        plain(source, pos, 1, line, TokenType::Semicolon)
    } else if c == STAR {
        plain(source, pos, 1, line, TokenType::Star)
    } else if c == BANG {
        paired(source, pos, line, TokenType::Bang, TokenType::BangEqual)
    } else if c == EQUAL {
        paired(source, pos, line, TokenType::Equal, TokenType::EqualEqual)
    } else if c == LESS {
        paired(source, pos, line, TokenType::Less, TokenType::LessEqual)
    } else if c == GREATER {
        paired(source, pos, line, TokenType::Greater, TokenType::GreaterEqual)
    } else if c == SLASH {
        if pos + 1 < source.len() && source[pos + 1] == SLASH {
            skipped(line_end(source, pos + 2), line)
        } else {
            plain(source, pos, 1, line, TokenType::Slash)
        }
    } else if c == SPACE || c == CARRIAGE_RETURN || c == TAB {
        skipped(pos + 1, line)
    } else if c == NEWLINE {
        skipped(pos + 1, line + 1)
    } else if c == QUOTE {
        let end = string_end(source, pos + 1);
        let line_after = line + lines_in(source, pos + 1, end);
        if end >= source.len() {
            Lexed {
                next: source.len() as int,
                line: line_after,
                item: Lexeme::Error(ScanErrorKind::UnterminatedString),
            }
        } else {
            Lexed {
                next: end + 1,
                line: line_after,
                item: Lexeme::Token(
                    TokenView {
                        token_type: TokenType::StringLit,
                        lexeme: source.subrange(pos, end + 1),
                        literal: Some(LiteralView::StringValue(source.subrange(pos + 1, end))),
                        line: line_after as usize,
                    },
                ),
            }
        }
    } else if digit(c) {
        let whole = digits_end(source, pos + 1);
        let end = if whole + 1 < source.len() && source[whole] == DOT && digit(source[whole + 1]) {
            digits_end(source, whole + 1)
        } else {
            whole
        };
        Lexed {
            next: end,
            line,
            item: Lexeme::Token(
                TokenView {
                    token_type: TokenType::Number,
                    lexeme: source.subrange(pos, end),
                    literal: Some(LiteralView::Number(source.subrange(pos, end))),
                    line: line as usize,
                },
            ),
        }
    } else if alpha(c) {
        let end = word_end(source, pos + 1);
        plain(
            source,
            pos,
            end - pos,
            line,
            match keyword(source.subrange(pos, end)) {
                Some(token_type) => token_type,
                None => TokenType::Identifier,
            },
        )
    } else {
        Lexed {
            next: pos + 1,
            line,
            item: Lexeme::Error(ScanErrorKind::UnrecognizedChar { byte: c }),
        }
    }
}

/// The runs of digits, of word bytes, of a line and of a string end at or after their
/// start and inside the text.
pub proof fn lemma_ends(source: Seq<u8>, pos: int)
    requires
        0 <= pos <= source.len(),
    ensures
        pos <= digits_end(source, pos) <= source.len(),
        pos <= word_end(source, pos) <= source.len(),
        pos <= line_end(source, pos) <= source.len(),
        pos <= string_end(source, pos) <= source.len(),
    decreases source.len() - pos,
{
    if pos < source.len() {
        lemma_ends(source, pos + 1);
    }
}

/// What is found at a place in the text ends after that place and inside the text.
pub proof fn lemma_token_at_advances(source: Seq<u8>, pos: int, line: int)
    requires
        0 <= pos < source.len(),
    ensures
        pos < token_at(source, pos, line).next <= source.len(),
{
    lemma_ends(source, pos + 1);
    if pos + 2 <= source.len() {
        lemma_ends(source, pos + 2);
    }
    let whole = digits_end(source, pos + 1);
    if whole + 1 < source.len() {
        lemma_ends(source, whole + 1);
    }
}

/// The tokens and the errors of a text.
pub struct Scanned {
    pub tokens: Seq<TokenView>,
    pub errors: Seq<ScanError>,
}

/// The tokens and errors of the text from `pos` on, after those that were found before.
/// At the end of the text stands the token `Eof`.
pub open spec fn scan_loop(
    source: Seq<u8>,
    pos: int,
    line: int,
    tokens: Seq<TokenView>,
    errors: Seq<ScanError>,
) -> Scanned
    decreases source.len() - pos,
    via scan_loop_ends
{
    if pos < 0 || pos >= source.len() {
        Scanned {
            tokens: tokens.push(
                TokenView {
                    token_type: TokenType::Eof,
                    lexeme: Seq::empty(),
                    literal: None,
                    line: line as usize,
                },
            ),
            errors,
        }
    } else {
        let found = token_at(source, pos, line);
        match found.item {
            Lexeme::Token(token) => scan_loop(
                source,
                found.next,
                found.line,
                tokens.push(token),
                errors,
            ),
            Lexeme::Nothing => scan_loop(source, found.next, found.line, tokens, errors),
            Lexeme::Error(kind) => scan_loop(
                source,
                found.next,
                found.line,
                tokens,
                errors.push(ScanError { kind, line: found.line as usize }),
            ),
        }
    }
}

#[via_fn]
proof fn scan_loop_ends(
    source: Seq<u8>,
    pos: int,
    line: int,
    tokens: Seq<TokenView>,
    errors: Seq<ScanError>,
) {
    if 0 <= pos < source.len() {
        lemma_token_at_advances(source, pos, line);
    }
}

/// The tokens and the errors of a text.
pub open spec fn scan(source: Seq<u8>) -> Scanned {
    scan_loop(source, 0, 1, Seq::empty(), Seq::empty())
}

pub struct ScannerView {
    pub source: Seq<u8>,
    pub tokens: Seq<TokenView>,
    pub current: int,
    pub line: int,
}

pub struct Scanner {
    source: Vec<u8>,
    tokens: Vec<Token>,
    start: usize,
    current: usize,
    line: usize,
    keywords: Vec<Keyword>,
}

impl View for Scanner {
    type V = ScannerView;

    closed spec fn view(&self) -> ScannerView {
        ScannerView {
            source: self.source@,
            tokens: token_views(self.tokens@),
            current: self.current as int,
            line: self.line as int,
        }
    }
}

impl Scanner {
    /// Whether the lexer is at a place in its text, and line numbers fit.
    pub closed spec fn wf(&self) -> bool {
        &&& self.start <= self.current <= self.source.len()
        &&& self.source.len() < usize::MAX
        &&& self.line <= self.current + 1
        &&& keyword_views(self.keywords@) == keyword_table()
    }

    /// A lexer at the start of a text, on line 1.
    pub fn new(source: &str) -> (scanner: Scanner)
        requires
            source.spec_bytes().len() < usize::MAX,
        ensures
            scanner.wf(),
            scanner@ == (ScannerView {
                source: source.spec_bytes(),
                tokens: Seq::empty(),
                current: 0,
                line: 1,
            }),
    {
        let scanner = Scanner {
            source: bytes_of(source),
            tokens: Vec::new(),
            start: 0,
            current: 0,
            line: 1,
            keywords: get_keywords_hashmap(),
        };
        assert(scanner@.tokens =~= Seq::empty());
        scanner
    }

    /// Reads the rest of the text. Gives all tokens read so far, with `Eof` at their end, or
    /// where something could not be read, everything that could not.
    pub fn scan_tokens(&mut self) -> (outcome: Result<Vec<Token>, Vec<ScanError>>)
        requires
            old(self).wf(),
        ensures
            final(self).wf(),
            final(self)@.source == old(self)@.source,
            final(self)@.tokens == scan_loop(
                old(self)@.source,
                old(self)@.current,
                old(self)@.line,
                old(self)@.tokens,
                Seq::empty(),
            ).tokens,
            match outcome {
                Ok(tokens) => token_views(tokens@) == final(self)@.tokens && scan_loop(
                    old(self)@.source,
                    old(self)@.current,
                    old(self)@.line,
                    old(self)@.tokens,
                    Seq::empty(),
                ).errors.len() == 0,
                Err(errors) => errors.len() > 0 && errors@ == scan_loop(
                    old(self)@.source,
                    old(self)@.current,
                    old(self)@.line,
                    old(self)@.tokens,
                    Seq::empty(),
                ).errors,
            },
    {
        let mut errors: Vec<ScanError> = Vec::new();
        while !self.is_at_end()
            invariant
                self.wf(),
                self.source == old(self).source,
                scan_loop(self@.source, self@.current, self@.line, self@.tokens, errors@)
                    == scan_loop(
                    old(self)@.source,
                    old(self)@.current,
                    old(self)@.line,
                    old(self)@.tokens,
                    Seq::empty(),
                ),
            decreases self.source.len() - self.current,
        {
            self.start = self.current;
            proof {
                lemma_token_at_advances(self@.source, self@.current, self@.line);
            }
            match self.scan_token() {
                Ok(_) => (),
                Err(error) => errors.push(error),
            }
        }
        let ghost before = self@.tokens;
        self.tokens.push(
            Token {
                token_type: TokenType::Eof,
                lexeme: Vec::new(),
                literal: None,
                line: self.line,
            },
        );
        assert(self@.tokens =~= before.push(
            TokenView {
                token_type: TokenType::Eof,
                lexeme: Seq::empty(),
                literal: None,
                line: self.line,
            },
        ));
        if errors.len() > 0 {
            return Err(errors);
        }
        Ok(self.copy_tokens())
    }

    /// A copy of the tokens read so far.
    fn copy_tokens(&self) -> (tokens: Vec<Token>)
        ensures
            token_views(tokens@) == self@.tokens,
    {
        let mut tokens: Vec<Token> = Vec::new();
        let mut i: usize = 0;
        while i < self.tokens.len()
            invariant
                i <= self.tokens.len(),
                tokens.len() == i,
                forall|j: int| 0 <= j < i ==> tokens@[j]@ == self.tokens@[j]@,
            decreases self.tokens.len() - i,
        {
            tokens.push(self.tokens[i].clone());
            i += 1;
        }
        assert(token_views(tokens@) =~= self@.tokens);
        tokens
    }

    fn is_at_end(&self) -> (yes: bool)
        ensures
            yes == (self@.current >= self@.source.len()),
    {
        self.current >= self.source.len()
    }

    /// Adds the token that stands from `start` to `current`.
    fn add_token(&mut self, token_type: TokenType)
        requires
            old(self).wf(),
        ensures
            final(self).wf(),
            final(self).source == old(self).source,
            final(self).start == old(self).start,
            final(self).current == old(self).current,
            final(self).line == old(self).line,
            final(self).keywords == old(self).keywords,
            final(self)@.tokens == old(self)@.tokens.push(
                TokenView {
                    token_type,
                    lexeme: old(self).source@.subrange(
                        old(self).start as int,
                        old(self).current as int,
                    ),
                    literal: None,
                    line: old(self).line,
                },
            ),
    {
        self.add_token_lit(token_type, None);
    }

    /// Adds the token that stands from `start` to `current`, with what it stands for.
    fn add_token_lit(&mut self, token_type: TokenType, literal: Option<LiteralValue>)
        requires
            old(self).wf(),
        ensures
            final(self).wf(),
            final(self).source == old(self).source,
            final(self).start == old(self).start,
            final(self).current == old(self).current,
            final(self).line == old(self).line,
            final(self).keywords == old(self).keywords,
            final(self)@.tokens == old(self)@.tokens.push(
                TokenView {
                    token_type,
                    lexeme: old(self).source@.subrange(
                        old(self).start as int,
                        old(self).current as int,
                    ),
                    literal: match literal {
                        Some(value) => Some(value@),
                        None => None,
                    },
                    line: old(self).line,
                },
            ),
    {
        let text = copy_range(&self.source, self.start, self.current);
        let token = Token { token_type, lexeme: text, literal, line: self.line };
        self.tokens.push(token);
        assert(self@.tokens =~= old(self)@.tokens.push(token@));
    }

    /// Reads past `expected` where it is the next byte.
    fn char_match(&mut self, expected: u8) -> (matched: bool)
        requires
            old(self).wf(),
        ensures
            final(self).wf(),
            final(self).source == old(self).source,
            final(self).tokens == old(self).tokens,
            final(self).start == old(self).start,
            final(self).line == old(self).line,
            final(self).keywords == old(self).keywords,
            matched == (old(self).current < old(self).source.len() && old(self).source@[old(
                self,
            ).current as int] == expected),
            final(self).current == if matched {
                old(self).current + 1
            } else {
                old(self).current as int
            },
    {
        if self.is_at_end() {
            return false;
        }
        if self.source[self.current] != expected {
            return false;
        }
        self.current += 1;
        true
    }

    /// Reads what stands at `current`, which is a place in the text.
    fn scan_token(&mut self) -> (outcome: Result<(), ScanError>)
        requires
            old(self).wf(),
            old(self).start == old(self).current,
            old(self).current < old(self).source.len(),
        ensures
            final(self).wf(),
            final(self).source == old(self).source,
            final(self)@.current == token_at(
                old(self)@.source,
                old(self)@.current,
                old(self)@.line,
            ).next,
            final(self)@.line == token_at(
                old(self)@.source,
                old(self)@.current,
                old(self)@.line,
            ).line,
            match token_at(old(self)@.source, old(self)@.current, old(self)@.line).item {
                Lexeme::Token(token) => outcome.is_ok() && final(self)@.tokens == old(
                    self,
                )@.tokens.push(token),
                Lexeme::Nothing => outcome.is_ok() && final(self)@.tokens == old(self)@.tokens,
                Lexeme::Error(kind) => outcome == Err::<(), ScanError>(
                    ScanError { kind, line: final(self).line },
                ) && final(self)@.tokens == old(self)@.tokens,
            },
    {
        let c = self.source[self.current];
        self.current += 1;
        if c == LEFT_PAREN {
            self.add_token(TokenType::LeftParen);
        } else if c == RIGHT_PAREN {
            self.add_token(TokenType::RightParen);
        } else if c == LEFT_BRACE {
            self.add_token(TokenType::LeftBrace);
        } else if c == RIGHT_BRACE {
            self.add_token(TokenType::RightBrace);
        } else if c == COMMA {
            self.add_token(TokenType::Comma);
        } else if c == DOT {
            self.add_token(TokenType::Dot);
        } else if c == MINUS {
            self.add_token(TokenType::Minus);
        } else if c == PLUS {
            self.add_token(TokenType::Plus);
        } else if c == SEMICOLON {
            self.add_token(TokenType::Semicolon);
        } else if c == STAR {
            self.add_token(TokenType::Star);
        } else if c == BANG {
            if self.char_match(EQUAL) {
                self.add_token(TokenType::BangEqual);
            } else {
                self.add_token(TokenType::Bang);
            }
        } else if c == EQUAL {
            if self.char_match(EQUAL) {
                self.add_token(TokenType::EqualEqual);
            } else {
                self.add_token(TokenType::Equal);
            }
        } else if c == LESS {
            if self.char_match(EQUAL) {
                self.add_token(TokenType::LessEqual);
            } else {
                self.add_token(TokenType::Less);
            }
        } else if c == GREATER {
            if self.char_match(EQUAL) {
                self.add_token(TokenType::GreaterEqual);
            } else {
                self.add_token(TokenType::Greater);
            }
        } else if c == SLASH {
            if self.char_match(SLASH) {
                while self.current < self.source.len() && self.source[self.current] != NEWLINE
                    invariant
                        self.wf(),
                        self.source == old(self).source,
                        self.tokens == old(self).tokens,
                        self.line == old(self).line,
                        self.keywords == old(self).keywords,
                        old(self).current + 2 <= self.current,
                        line_end(self.source@, self.current as int) == line_end(
                            self.source@,
                            old(self).current + 2,
                        ),
                    decreases self.source.len() - self.current,
                {
                    self.current += 1;
                }
            } else {
                self.add_token(TokenType::Slash);
            }
        } else if c == SPACE || c == CARRIAGE_RETURN || c == TAB {
        } else if c == NEWLINE {
            self.line += 1;
        } else if c == QUOTE {
            return self.string();
        } else if is_digit(c) {
            self.number();
        } else if is_alpha(c) {
            self.identifier();
        } else {
            return Err(
                ScanError { kind: ScanErrorKind::UnrecognizedChar { byte: c }, line: self.line },
            );
        }
        Ok(())
    }

    /// Reads a string, whose opening quote stands at `start`.
    fn string(&mut self) -> (outcome: Result<(), ScanError>)
        requires
            old(self).wf(),
            old(self).current == old(self).start + 1,
            old(self).source@[old(self).start as int] == QUOTE,
        ensures
            final(self).wf(),
            final(self).source == old(self).source,
            final(self)@.current == token_at(
                old(self)@.source,
                old(self).start as int,
                old(self)@.line,
            ).next,
            final(self)@.line == token_at(
                old(self)@.source,
                old(self).start as int,
                old(self)@.line,
            ).line,
            match token_at(old(self)@.source, old(self).start as int, old(self)@.line).item {
                Lexeme::Token(token) => outcome.is_ok() && final(self)@.tokens == old(
                    self,
                )@.tokens.push(token),
                Lexeme::Nothing => false,
                Lexeme::Error(kind) => outcome == Err::<(), ScanError>(
                    ScanError { kind, line: final(self).line },
                ) && final(self)@.tokens == old(self)@.tokens,
            },
    {
        while self.current < self.source.len() && self.source[self.current] != QUOTE
            invariant
                self.wf(),
                self.source == old(self).source,
                self.tokens == old(self).tokens,
                self.start == old(self).start,
                self.keywords == old(self).keywords,
                self.start + 1 <= self.current,
                self.line == old(self).line + lines_in(
                    self.source@,
                    self.start + 1,
                    self.current as int,
                ),
                string_end(self.source@, self.current as int) == string_end(
                    self.source@,
                    self.start + 1,
                ),
            decreases self.source.len() - self.current,
        {
            if self.source[self.current] == NEWLINE {
                self.line += 1;
            }
            self.current += 1;
        }
        if self.is_at_end() {
            return Err(ScanError { kind: ScanErrorKind::UnterminatedString, line: self.line });
        }
        self.current += 1;
        let value = copy_range(&self.source, self.start + 1, self.current - 1);
        self.add_token_lit(TokenType::StringLit, Some(LiteralValue::StringValue(value)));
        Ok(())
    }

    /// Reads a number, whose first digit stands at `start`.
    fn number(&mut self)
        requires
            old(self).wf(),
            old(self).current == old(self).start + 1,
            digit(old(self).source@[old(self).start as int]),
        ensures
            final(self).wf(),
            final(self).source == old(self).source,
            final(self)@.current == token_at(
                old(self)@.source,
                old(self).start as int,
                old(self)@.line,
            ).next,
            final(self)@.line == old(self)@.line,
            token_at(old(self)@.source, old(self).start as int, old(self)@.line).item
                matches Lexeme::Token(token) && final(self)@.tokens == old(self)@.tokens.push(
                token,
            ),
    {
        self.digits();
        if self.current < self.source.len() && self.source[self.current] == DOT && self.current + 1
            < self.source.len() && is_digit(self.source[self.current + 1]) {
            self.current += 1;
            self.digits();
        }
        let text = copy_range(&self.source, self.start, self.current);
        self.add_token_lit(TokenType::Number, Some(LiteralValue::Number(text)));
    }

    /// Reads past the digits that stand at `current`.
    fn digits(&mut self)
        requires
            old(self).wf(),
        ensures
            final(self).wf(),
            final(self).source == old(self).source,
            final(self).tokens == old(self).tokens,
            final(self).start == old(self).start,
            final(self).line == old(self).line,
            final(self).keywords == old(self).keywords,
            final(self).current == digits_end(old(self).source@, old(self).current as int),
    {
        while self.current < self.source.len() && is_digit(self.source[self.current])
            invariant
                self.wf(),
                self.source == old(self).source,
                self.tokens == old(self).tokens,
                self.start == old(self).start,
                self.line == old(self).line,
                self.keywords == old(self).keywords,
                digits_end(self.source@, self.current as int) == digits_end(
                    self.source@,
                    old(self).current as int,
                ),
            decreases self.source.len() - self.current,
        {
            self.current += 1;
        }
    }

    /// Reads an identifier or a keyword, whose first byte stands at `start`.
    fn identifier(&mut self)
        requires
            old(self).wf(),
            old(self).current == old(self).start + 1,
            alpha(old(self).source@[old(self).start as int]),
            !digit(old(self).source@[old(self).start as int]),
        ensures
            final(self).wf(),
            final(self).source == old(self).source,
            final(self)@.current == token_at(
                old(self)@.source,
                old(self).start as int,
                old(self)@.line,
            ).next,
            final(self)@.line == old(self)@.line,
            token_at(old(self)@.source, old(self).start as int, old(self)@.line).item
                matches Lexeme::Token(token) && final(self)@.tokens == old(self)@.tokens.push(
                token,
            ),
    {
        while self.current < self.source.len() && is_alphanumeric(self.source[self.current])
            invariant
                self.wf(),
                self.source == old(self).source,
                self.tokens == old(self).tokens,
                self.start == old(self).start,
                self.line == old(self).line,
                self.keywords == old(self).keywords,
                self.start + 1 <= self.current,
                word_end(self.source@, self.current as int) == word_end(
                    self.source@,
                    self.start + 1,
                ),
            decreases self.source.len() - self.current,
        {
            self.current += 1;
        }
        let text = copy_range(&self.source, self.start, self.current);
        match find_keyword(&self.keywords, &text) {
            Some(token_type) => self.add_token(token_type),
            None => self.add_token(TokenType::Identifier),
        }
    }
}

/// Whether a token stands in a text: its lexeme is a piece of the text, and its line is
/// the line on which that piece ends.
pub open spec fn placed(source: Seq<u8>, token: TokenView) -> bool {
    exists|from: int, to: int|
        0 <= from <= to <= source.len() && token.lexeme == source.subrange(from, to) && token.line
            == 1 + lines_in(source, 0, to)
}

/// The newlines of two pieces that follow each other are the newlines of both together,
/// and a piece has no more newlines than bytes.
pub proof fn lemma_lines_add(source: Seq<u8>, from: int, middle: int, to: int)
    requires
        from <= middle <= to,
    ensures
        lines_in(source, from, to) == lines_in(source, from, middle) + lines_in(source, middle, to),
        0 <= lines_in(source, from, to) <= to - from,
    decreases to - from,
{
    if middle < to {
        lemma_lines_add(source, from, middle, to - 1);
    } else if from < to {
        lemma_lines_add(source, from, from, to - 1);
    }
}

/// A piece without a newline byte has no newlines.
pub proof fn lemma_no_lines(source: Seq<u8>, from: int, to: int)
    requires
        forall|i: int| from <= i < to ==> source[i] != NEWLINE,
    ensures
        lines_in(source, from, to) == 0,
    decreases to - from,
{
    if from < to {
        lemma_no_lines(source, from, to - 1);
    }
}

/// There is no newline among digits, in a word, or in a line before its end.
pub proof fn lemma_runs_have_no_lines(source: Seq<u8>, pos: int)
    requires
        0 <= pos <= source.len(),
    ensures
        lines_in(source, pos, digits_end(source, pos)) == 0,
        lines_in(source, pos, word_end(source, pos)) == 0,
        lines_in(source, pos, line_end(source, pos)) == 0,
    decreases source.len() - pos,
{
    lemma_ends(source, pos);
    if pos < source.len() {
        lemma_runs_have_no_lines(source, pos + 1);
        lemma_ends(source, pos + 1);
        if digit(source[pos]) {
            lemma_lines_add(source, pos, pos + 1, digits_end(source, pos));
            lemma_no_lines(source, pos, pos + 1);
        }
        if alphanumeric(source[pos]) {
            lemma_lines_add(source, pos, pos + 1, word_end(source, pos));
            lemma_no_lines(source, pos, pos + 1);
        }
        if source[pos] != NEWLINE {
            lemma_lines_add(source, pos, pos + 1, line_end(source, pos));
            lemma_no_lines(source, pos, pos + 1);
        }
    }
}

/// What is found at a place in the text reaches from that place to the next, the line
/// at the next place counts the newlines in between, and a token that is found is that
/// piece of the text.
pub proof fn lemma_token_at_shape(source: Seq<u8>, pos: int, line: int)
    requires
        0 <= pos < source.len(),
    ensures
        pos < token_at(source, pos, line).next <= source.len(),
        token_at(source, pos, line).line == line + lines_in(
            source,
            pos,
            token_at(source, pos, line).next,
        ),
        match token_at(source, pos, line).item {
            Lexeme::Token(token) => token.lexeme == source.subrange(
                pos,
                token_at(source, pos, line).next,
            ) && token.line == token_at(source, pos, line).line as usize,
            _ => true,
        },
{
    lemma_token_at_advances(source, pos, line);
    let found = token_at(source, pos, line);
    let c = source[pos];
    lemma_lines_add(source, pos, pos + 1, found.next);
    if c == NEWLINE {
        assert(lines_in(source, pos, pos) == 0);
    } else {
        lemma_no_lines(source, pos, pos + 1);
        if c == SLASH && pos + 1 < source.len() && source[pos + 1] == SLASH {
            lemma_runs_have_no_lines(source, pos + 2);
            lemma_ends(source, pos + 2);
            lemma_lines_add(source, pos + 1, pos + 2, found.next);
            lemma_no_lines(source, pos + 1, pos + 2);
        } else if c == QUOTE {
            let end = string_end(source, pos + 1);
            lemma_ends(source, pos + 1);
            if end < source.len() {
                lemma_string_end(source, pos + 1);
                lemma_lines_add(source, pos + 1, end, end + 1);
                lemma_no_lines(source, end, end + 1);
            }
        } else if digit(c) {
            let whole = digits_end(source, pos + 1);
            lemma_runs_have_no_lines(source, pos + 1);
            lemma_ends(source, pos + 1);
            if whole + 1 < source.len() && source[whole] == DOT && digit(source[whole + 1]) {
                lemma_runs_have_no_lines(source, whole + 1);
                lemma_ends(source, whole + 1);
                lemma_lines_add(source, pos + 1, whole, found.next);
                lemma_lines_add(source, whole, whole + 1, found.next);
                lemma_no_lines(source, whole, whole + 1);
            }
        } else if alpha(c) {
            lemma_runs_have_no_lines(source, pos + 1);
        } else if pos + 1 < source.len() && source[pos + 1] == EQUAL && (c == BANG || c == EQUAL
            || c == LESS || c == GREATER) {
            lemma_no_lines(source, pos + 1, pos + 2);
        } else {
            assert(lines_in(source, pos + 1, pos + 1) == 0);
        }
    }
}

/// Where a string closes, its closing quote stands.
pub proof fn lemma_string_end(source: Seq<u8>, pos: int)
    requires
        0 <= pos <= source.len(),
        string_end(source, pos) < source.len(),
    ensures
        source[string_end(source, pos)] == QUOTE,
    decreases source.len() - pos,
{
    if pos < source.len() && source[pos] != QUOTE {
        lemma_string_end(source, pos + 1);
    }
}

/// Where the tokens found so far stand in the text, so do all that are found.
pub proof fn lemma_scan_loop_placed(
    source: Seq<u8>,
    pos: int,
    line: int,
    tokens: Seq<TokenView>,
    errors: Seq<ScanError>,
)
    requires
        0 <= pos <= source.len() < usize::MAX,
        line == 1 + lines_in(source, 0, pos),
        forall|i: int| 0 <= i < tokens.len() ==> placed(source, #[trigger] tokens[i]),
    ensures
        forall|i: int|
            0 <= i < scan_loop(source, pos, line, tokens, errors).tokens.len() ==> placed(
                source,
                #[trigger] scan_loop(source, pos, line, tokens, errors).tokens[i],
            ),
    decreases source.len() - pos,
{
    lemma_lines_add(source, 0, pos, pos);
    if pos >= source.len() {
        let last = TokenView {
            token_type: TokenType::Eof,
            lexeme: Seq::empty(),
            literal: None,
            line: line as usize,
        };
        assert(last.lexeme =~= source.subrange(pos, pos));
        assert(placed(source, last));
        let all = tokens.push(last);
        assert(scan_loop(source, pos, line, tokens, errors).tokens == all);
        assert forall|i: int| 0 <= i < all.len() implies placed(source, #[trigger] all[i]) by {
            if i < tokens.len() {
                assert(all[i] == tokens[i]);
            }
        }
    } else {
        let found = token_at(source, pos, line);
        lemma_token_at_shape(source, pos, line);
        lemma_lines_add(source, 0, pos, found.next);
        match found.item {
            Lexeme::Token(token) => {
                assert(placed(source, token));
                let more = tokens.push(token);
                assert forall|i: int| 0 <= i < more.len() implies placed(
                    source,
                    #[trigger] more[i],
                ) by {
                    if i < tokens.len() {
                        assert(more[i] == tokens[i]);
                    }
                }
                lemma_scan_loop_placed(source, found.next, found.line, more, errors);
                assert(scan_loop(source, pos, line, tokens, errors) == scan_loop(
                    source,
                    found.next,
                    found.line,
                    more,
                    errors,
                ));
            },
            Lexeme::Nothing => {
                lemma_scan_loop_placed(source, found.next, found.line, tokens, errors);
                assert(scan_loop(source, pos, line, tokens, errors) == scan_loop(
                    source,
                    found.next,
                    found.line,
                    tokens,
                    errors,
                ));
            },
            Lexeme::Error(kind) => {
                let more = errors.push(ScanError { kind, line: found.line as usize });
                lemma_scan_loop_placed(source, found.next, found.line, tokens, more);
                assert(scan_loop(source, pos, line, tokens, errors) == scan_loop(
                    source,
                    found.next,
                    found.line,
                    tokens,
                    more,
                ));
            },
        }
    }
}

/// Every token of a text stands in the text: its lexeme is a piece of the text, and its
/// line is the line on which that piece ends. The last token is `Eof`.
pub proof fn theorem_tokens_stand_in_the_text(source: Seq<u8>)
    requires
        source.len() < usize::MAX,
    ensures
        forall|i: int|
            0 <= i < scan(source).tokens.len() ==> placed(
                source,
                #[trigger] scan(source).tokens[i],
            ),
        scan(source).tokens.len() > 0,
        scan(source).tokens.last().token_type == TokenType::Eof,
{
    lemma_scan_loop_placed(source, 0, 1, Seq::empty(), Seq::empty());
    lemma_scan_loop_ends_in_eof(source, 0, 1, Seq::empty(), Seq::empty());
}

/// The last token that is found is `Eof`.
pub proof fn lemma_scan_loop_ends_in_eof(
    source: Seq<u8>,
    pos: int,
    line: int,
    tokens: Seq<TokenView>,
    errors: Seq<ScanError>,
)
    ensures
        scan_loop(source, pos, line, tokens, errors).tokens.len() > 0,
        scan_loop(source, pos, line, tokens, errors).tokens.last().token_type == TokenType::Eof,
    decreases source.len() - pos,
{
    if 0 <= pos < source.len() {
        let found = token_at(source, pos, line);
        lemma_token_at_advances(source, pos, line);
        match found.item {
            Lexeme::Token(token) => {
                let more = tokens.push(token);
                lemma_scan_loop_ends_in_eof(source, found.next, found.line, more, errors);
            },
            Lexeme::Nothing => {
                lemma_scan_loop_ends_in_eof(source, found.next, found.line, tokens, errors);
            },
            Lexeme::Error(kind) => {
                lemma_scan_loop_ends_in_eof(
                    source,
                    found.next,
                    found.line,
                    tokens,
                    errors.push(ScanError { kind, line: found.line as usize }),
                );
            },
        }
    }
}

} // verus!
