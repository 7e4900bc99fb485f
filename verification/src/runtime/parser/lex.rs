//! The lexer: source text to tokens.

use vstd::prelude::*;

use crate::runtime::interner;
use crate::runtime::interner::{Interner, Symbol};
use crate::runtime::limits::{MAX_IDENTIFIER_LENGTH, MAX_STRING_LITERAL_LENGTH};
use crate::runtime::tt::types;

verus! {

broadcast use types::views_push;

/// A reserved word.
#[derive(Debug, Clone, Copy, PartialEq, Eq, Structural)]
pub enum Keyword {
    Test,
    Service,
    Import,
    Var,
    Def,
    Pub,
    Table,
    Action,
    Let,
    Do,
    Assert,
    Insert,
    Into,
    Watch,
    Update,
    Atomic,
    If,
    Then,
    Else,
    Fn,
    Select,
    From,
    Where,
    Fold,
    True,
    False,
    Int,
    String,
    Bool,
    Unit,
}

/// A mark.
#[derive(Debug, Clone, Copy, PartialEq, Eq, Structural)]
pub enum Punct {
    EqEq,
    FatArrow,
    Arrow,
    AndAnd,
    OrOr,
    DotDot,
    LBrace,
    RBrace,
    LParen,
    RParen,
    LBracket,
    RBracket,
    Comma,
    Semi,
    Colon,
    Dot,
    Eq,
    Plus,
    Minus,
    Star,
    Slash,
    Bang,
    Lt,
    Gt,
}

/// A token.
#[derive(Debug, PartialEq, Eq)]
pub enum Token {
    Ident(Symbol),
    Num(i32),
    Str(String),
    Word(Keyword),
    Mark(Punct),
    /// Text of a page: whether it is the first of the page, and whether it is the last.
    Markup(String, bool, bool),
}

/// What a `Token` stands for.
pub enum TokenV {
    Ident(Symbol),
    Num(int),
    Str(Seq<char>),
    Word(Keyword),
    Mark(Punct),
    Markup(Seq<char>, bool, bool),
}

impl View for Token {
    type V = TokenV;

    open spec fn view(&self) -> TokenV {
        match *self {
            Token::Ident(s) => TokenV::Ident(s),
            Token::Num(n) => TokenV::Num(n as int),
            Token::Str(s) => TokenV::Str(s@),
            Token::Word(k) => TokenV::Word(k),
            Token::Mark(p) => TokenV::Mark(p),
            Token::Markup(s, first, last) => TokenV::Markup(s@, first, last),
        }
    }
}

/// A class of characters.
#[derive(Debug, Clone, Copy, PartialEq, Eq, Structural)]
pub enum Class {
    Space,
    Digit,
    Letter,
    NameChar,
    NotNewline,
    NotQuote,
}

/// Whether `c` belongs to a class.
pub open spec fn in_class(k: Class, c: char) -> bool {
    match k {
        Class::Space => c == ' ' || c == '\t' || c == '\n' || c == '\r',
        Class::Digit => '0' <= c <= '9',
        Class::Letter => 'a' <= c <= 'z' || 'A' <= c <= 'Z' || c == '_',
        Class::NameChar => 'a' <= c <= 'z' || 'A' <= c <= 'Z' || c == '_' || '0' <= c <= '9',
        Class::NotNewline => c != '\n',
        Class::NotQuote => c != '"',
    }
}

/// Where the run of characters of a class that starts at `p` ends.
pub open spec fn run_end(s: Seq<char>, p: int, k: Class) -> int
    decreases s.len() - p,
{
    if 0 <= p < s.len() && in_class(k, s[p]) {
        run_end(s, p + 1, k)
    } else {
        p
    }
}

/// The number that a run of digits writes.
pub open spec fn digits_value(s: Seq<char>) -> int
    decreases s.len(),
{
    if s.len() == 0 {
        0
    } else {
        digits_value(s.drop_last()) * 10 + (s.last() as int - '0' as int)
    }
}

/// The reserved word that a name spells.
pub open spec fn keyword_of(w: Seq<char>) -> Option<Keyword> {
    if w == "service"@ {
        Some(Keyword::Service)
    } else if w == "import"@ {
        Some(Keyword::Import)
    } else if w == "var"@ {
        Some(Keyword::Var)
    } else if w == "def"@ {
        Some(Keyword::Def)
    } else if w == "pub"@ {
        Some(Keyword::Pub)
    } else if w == "table"@ {
        Some(Keyword::Table)
    } else if w == "action"@ {
        Some(Keyword::Action)
    } else if w == "let"@ {
        Some(Keyword::Let)
    } else if w == "do"@ {
        Some(Keyword::Do)
    } else if w == "assert"@ {
        Some(Keyword::Assert)
    } else if w == "insert"@ {
        Some(Keyword::Insert)
    } else if w == "into"@ {
        Some(Keyword::Into)
    } else if w == "watch"@ {
        Some(Keyword::Watch)
    } else if w == "update"@ {
        Some(Keyword::Update)
    } else if w == "atomic"@ {
        Some(Keyword::Atomic)
    } else if w == "if"@ {
        Some(Keyword::If)
    } else if w == "then"@ {
        Some(Keyword::Then)
    } else if w == "else"@ {
        Some(Keyword::Else)
    } else if w == "fn"@ {
        Some(Keyword::Fn)
    } else if w == "select"@ {
        Some(Keyword::Select)
    } else if w == "from"@ {
        Some(Keyword::From)
    } else if w == "where"@ {
        Some(Keyword::Where)
    } else if w == "fold"@ {
        Some(Keyword::Fold)
    } else if w == "true"@ {
        Some(Keyword::True)
    } else if w == "false"@ {
        Some(Keyword::False)
    } else if w == "int"@ {
        Some(Keyword::Int)
    } else if w == "string"@ {
        Some(Keyword::String)
    } else if w == "bool"@ {
        Some(Keyword::Bool)
    } else if w == "unit"@ {
        Some(Keyword::Unit)
    } else {
        None
    }
}

/// The mark of two characters.
pub open spec fn mark_of_two(a: char, b: char) -> Option<Punct> {
    if a == '=' && b == '=' {
        Some(Punct::EqEq)
    } else if a == '=' && b == '>' {
        Some(Punct::FatArrow)
    } else if a == '-' && b == '>' {
        Some(Punct::Arrow)
    } else if a == '&' && b == '&' {
        Some(Punct::AndAnd)
    } else if a == '|' && b == '|' {
        Some(Punct::OrOr)
    } else if a == '.' && b == '.' {
        Some(Punct::DotDot)
    } else {
        None
    }
}

/// The mark of one character.
pub open spec fn mark_of_one(c: char) -> Option<Punct> {
    if c == '{' {
        Some(Punct::LBrace)
    } else if c == '}' {
        Some(Punct::RBrace)
    } else if c == '(' {
        Some(Punct::LParen)
    } else if c == ')' {
        Some(Punct::RParen)
    } else if c == '[' {
        Some(Punct::LBracket)
    } else if c == ']' {
        Some(Punct::RBracket)
    } else if c == ',' {
        Some(Punct::Comma)
    } else if c == ';' {
        Some(Punct::Semi)
    } else if c == ':' {
        Some(Punct::Colon)
    } else if c == '.' {
        Some(Punct::Dot)
    } else if c == '=' {
        Some(Punct::Eq)
    } else if c == '+' {
        Some(Punct::Plus)
    } else if c == '-' {
        Some(Punct::Minus)
    } else if c == '*' {
        Some(Punct::Star)
    } else if c == '/' {
        Some(Punct::Slash)
    } else if c == '!' {
        Some(Punct::Bang)
    } else if c == '<' {
        Some(Punct::Lt)
    } else if c == '>' {
        Some(Punct::Gt)
    } else {
        None
    }
}

/// What stands at a position of the source.
pub enum Lexeme {
    /// Nothing but blanks and comments up to this position.
    Blank(int),
    /// A name that ends before this position.
    Name(int),
    /// A number that ends before this position.
    Num(int),
    /// A string whose closing quote stands just before this position.
    Str(int),
    /// The word that opens a test block.
    Test,
    /// A mark that ends before this position.
    Mark(Punct, int),
    /// Text of a page that ends before this position: whether it is the first, and whether it is
    /// the last, of its page.
    Markup(int, bool, bool),
    /// No token.
    Bad,
}

/// Where the text of a page ends that starts at `p`: where an expression in braces begins, or at
/// the end of a tag with a closing bracket behind it.
pub open spec fn markup_end(s: Seq<char>, p: int) -> int
    decreases s.len() - p,
{
    if 0 <= p < s.len() && s[p] != '{' && !(s[p] == '>' && p + 1 < s.len() && s[p + 1] == ')') {
        markup_end(s, p + 1)
    } else {
        p
    }
}

/// The text of a page from position `p` on.
pub open spec fn markup(s: Seq<char>, p: int, first: bool) -> Lexeme {
    let q = markup_end(s, p);
    if q >= s.len() {
        Lexeme::Bad
    } else if s[q] == '{' {
        Lexeme::Markup(q, first, false)
    } else {
        Lexeme::Markup(q + 1, first, true)
    }
}

/// What is open behind a token: a brace, or a page with an expression in it.
pub open spec fn open_behind(open: Seq<bool>, t: TokenV) -> Seq<bool> {
    match t {
        TokenV::Mark(Punct::LBrace) => open.push(false),
        TokenV::Markup(_, true, false) => open.push(true),
        TokenV::Mark(Punct::RBrace) | TokenV::Markup(_, false, true) => if open.len() > 0 {
            open.drop_last()
        } else {
            open
        },
        _ => open,
    }
}

/// What is open behind tokens.
pub open spec fn open_after(open: Seq<bool>, t: Seq<TokenV>) -> Seq<bool>
    decreases t.len(),
{
    if t.len() == 0 {
        open
    } else {
        open_behind(open_after(open, t.drop_last()), t.last())
    }
}

/// Whether the innermost of what is open is a page.
pub open spec fn in_page(open: Seq<bool>) -> bool {
    open.len() > 0 && open.last()
}

/// What stands at position `p`; `page` tells whether an expression of a page is read there. The
/// text of a page starts with a tag in brackets, and goes on behind an expression in braces.
pub open spec fn lexeme(s: Seq<char>, p: int, page: bool) -> Lexeme {
    let c = s[p];
    if c == '(' && p + 1 < s.len() && s[p + 1] == '<' {
        markup(s, p + 1, true)
    } else if c == '}' && page {
        markup(s, p + 1, false)
    } else if in_class(Class::Space, c) {
        Lexeme::Blank(run_end(s, p, Class::Space))
    } else if c == '/' && p + 1 < s.len() && s[p + 1] == '/' {
        Lexeme::Blank(run_end(s, p + 2, Class::NotNewline))
    } else if in_class(Class::Letter, c) {
        let q = run_end(s, p, Class::NameChar);
        if q - p <= MAX_IDENTIFIER_LENGTH {
            Lexeme::Name(q)
        } else {
            Lexeme::Bad
        }
    } else if in_class(Class::Digit, c) {
        let q = run_end(s, p, Class::Digit);
        if digits_value(s.subrange(p, q)) <= i32::MAX {
            Lexeme::Num(q)
        } else {
            Lexeme::Bad
        }
    } else if c == '"' {
        let q = run_end(s, p + 1, Class::NotQuote);
        if q < s.len() && q - p - 1 <= MAX_STRING_LITERAL_LENGTH {
            Lexeme::Str(q + 1)
        } else {
            Lexeme::Bad
        }
    } else if c == '@' {
        let q = run_end(s, p + 1, Class::NameChar);
        if s.subrange(p + 1, q) == "test"@ {
            Lexeme::Test
        } else {
            Lexeme::Bad
        }
    } else if p + 1 < s.len() && mark_of_two(c, s[p + 1]) is Some {
        Lexeme::Mark(mark_of_two(c, s[p + 1])->0, p + 2)
    } else if mark_of_one(c) is Some {
        Lexeme::Mark(mark_of_one(c)->0, p + 1)
    } else {
        Lexeme::Bad
    }
}

/// The tokens of a text and the names interned on the way, or the position of the first character
/// that starts no token.
pub struct Lexed {
    pub tokens: Result<Seq<TokenV>, int>,
    pub names: Seq<Seq<char>>,
}

/// The tokens from position `p` on, behind those found before it.
pub open spec fn lex_from(
    s: Seq<char>,
    p: int,
    names: Seq<Seq<char>>,
    found: Seq<TokenV>,
) -> Lexed
    decreases s.len() - p,
{
    if p < 0 || p >= s.len() {
        Lexed { tokens: Ok(found), names }
    } else {
        match lexeme(s, p, in_page(open_after(Seq::empty(), found))) {
            Lexeme::Blank(q) => if p < q <= s.len() {
                lex_from(s, q, names, found)
            } else {
                Lexed { tokens: Err(p), names }
            },
            Lexeme::Name(q) => if p < q <= s.len() {
                let word = s.subrange(p, q);
                match keyword_of(word) {
                    Some(k) => lex_from(s, q, names, found.push(TokenV::Word(k))),
                    None => {
                        let grown = interner::interned(names, word);
                        lex_from(
                            s,
                            q,
                            grown,
                            found.push(TokenV::Ident(interner::symbol_in(grown, word))),
                        )
                    },
                }
            } else {
                Lexed { tokens: Err(p), names }
            },
            Lexeme::Num(q) => if p < q <= s.len() {
                lex_from(s, q, names, found.push(TokenV::Num(digits_value(s.subrange(p, q)))))
            } else {
                Lexed { tokens: Err(p), names }
            },
            Lexeme::Str(q) => if p < q <= s.len() {
                lex_from(s, q, names, found.push(TokenV::Str(s.subrange(p + 1, q - 1))))
            } else {
                Lexed { tokens: Err(p), names }
            },
            Lexeme::Test => if p + 5 <= s.len() {
                lex_from(s, p + 5, names, found.push(TokenV::Word(Keyword::Test)))
            } else {
                Lexed { tokens: Err(p), names }
            },
            Lexeme::Mark(m, q) => if p < q <= s.len() {
                lex_from(s, q, names, found.push(TokenV::Mark(m)))
            } else {
                Lexed { tokens: Err(p), names }
            },
            Lexeme::Markup(q, first, last) => if p < q < s.len() {
                lex_from(
                    s,
                    q + 1,
                    names,
                    found.push(TokenV::Markup(s.subrange(p + 1, q), first, last)),
                )
            } else {
                Lexed { tokens: Err(p), names }
            },
            Lexeme::Bad => Lexed { tokens: Err(p), names },
        }
    }
}

/// The tokens of a text, with names interned in the order in which they first occur.
pub open spec fn lexed(s: Seq<char>, names: Seq<Seq<char>>) -> Lexed {
    lex_from(s, 0, names, Seq::empty())
}

/// Whether the table knows every name among the tokens.
pub open spec fn names_known(t: Seq<TokenV>, names: Seq<Seq<char>>) -> bool {
    forall|i: int|
        0 <= i < t.len() ==> ((#[trigger] t[i]) matches TokenV::Ident(n) ==> n < names.len())
}

/// The characters of a text.
pub fn chars_of(s: &str) -> (res: Vec<char>)
    ensures
        res@ == s@,
{
    let mut res: Vec<char> = Vec::new();
    for c in iter: s.chars()
        invariant
            iter.seq() == s@,
            res@ == iter.seq().take(iter.index() as int),
    {
        res.push(c);
        assert(res@ =~= iter.seq().take(iter.index() + 1));
    }
    assert(res@ =~= s@);
    res
}

pub fn is_in_class(k: Class, c: char) -> (res: bool)
    ensures
        res == in_class(k, c),
{
    match k {
        Class::Space => c == ' ' || c == '\t' || c == '\n' || c == '\r',
        Class::Digit => '0' <= c && c <= '9',
        Class::Letter => ('a' <= c && c <= 'z') || ('A' <= c && c <= 'Z') || c == '_',
        Class::NameChar => ('a' <= c && c <= 'z') || ('A' <= c && c <= 'Z') || c == '_' || ('0' <= c
            && c <= '9'),
        Class::NotNewline => c != '\n',
        Class::NotQuote => c != '"',
    }
}

fn end_of_run(s: &Vec<char>, p: usize, k: Class) -> (res: usize)
    requires
        p <= s@.len(),
    ensures
        res == run_end(s@, p as int, k),
        p <= res <= s@.len(),
        res < s@.len() ==> !in_class(k, s@[res as int]),
        forall|i: int| p <= i < res ==> in_class(k, #[trigger] s@[i]),
{
    let mut q: usize = p;
    while q < s.len() && is_in_class(k, s[q])
        invariant
            p <= q <= s@.len(),
            run_end(s@, p as int, k) == run_end(s@, q as int, k),
            forall|i: int| p <= i < q ==> in_class(k, #[trigger] s@[i]),
        decreases s@.len() - q,
    {
        q += 1;
    }
    q
}

fn end_of_markup(s: &Vec<char>, p: usize) -> (res: usize)
    requires
        p <= s@.len(),
    ensures
        res == markup_end(s@, p as int),
        p <= res <= s@.len(),
        res < s@.len() && s@[res as int] != '{' ==> res + 1 < s@.len(),
{
    let mut q: usize = p;
    while q < s.len() && s[q] != '{' && !(s[q] == '>' && q + 1 < s.len() && s[q + 1] == ')')
        invariant
            p <= q <= s@.len(),
            markup_end(s@, p as int) == markup_end(s@, q as int),
        decreases s@.len() - q,
    {
        q += 1;
    }
    q
}

/// Take note of a token that opens or closes something.
fn track(open: &mut Vec<bool>, t: &Token)
    ensures
        final(open)@ == open_behind(old(open)@, t@),
{
    match t {
        Token::Mark(Punct::LBrace) => {
            open.push(false);
        },
        Token::Markup(_, true, false) => {
            open.push(true);
        },
        Token::Mark(Punct::RBrace) => {
            open.pop();
        },
        Token::Markup(_, false, true) => {
            open.pop();
        },
        _ => {},
    }
}

fn keyword(w: &String) -> (res: Option<Keyword>)
    ensures
        res == keyword_of(w@),
{
    if *w == "service".to_owned() {
        return Some(Keyword::Service);
    }
    if *w == "import".to_owned() {
        return Some(Keyword::Import);
    }
    if *w == "var".to_owned() {
        return Some(Keyword::Var);
    }
    if *w == "def".to_owned() {
        return Some(Keyword::Def);
    }
    if *w == "pub".to_owned() {
        return Some(Keyword::Pub);
    }
    if *w == "table".to_owned() {
        return Some(Keyword::Table);
    }
    if *w == "action".to_owned() {
        return Some(Keyword::Action);
    }
    if *w == "let".to_owned() {
        return Some(Keyword::Let);
    }
    if *w == "do".to_owned() {
        return Some(Keyword::Do);
    }
    if *w == "assert".to_owned() {
        return Some(Keyword::Assert);
    }
    if *w == "insert".to_owned() {
        return Some(Keyword::Insert);
    }
    if *w == "into".to_owned() {
        return Some(Keyword::Into);
    }
    if *w == "watch".to_owned() {
        return Some(Keyword::Watch);
    }
    if *w == "update".to_owned() {
        return Some(Keyword::Update);
    }
    if *w == "atomic".to_owned() {
        return Some(Keyword::Atomic);
    }
    if *w == "if".to_owned() {
        return Some(Keyword::If);
    }
    if *w == "then".to_owned() {
        return Some(Keyword::Then);
    }
    if *w == "else".to_owned() {
        return Some(Keyword::Else);
    }
    if *w == "fn".to_owned() {
        return Some(Keyword::Fn);
    }
    if *w == "select".to_owned() {
        return Some(Keyword::Select);
    }
    if *w == "from".to_owned() {
        return Some(Keyword::From);
    }
    if *w == "where".to_owned() {
        return Some(Keyword::Where);
    }
    if *w == "fold".to_owned() {
        return Some(Keyword::Fold);
    }
    if *w == "true".to_owned() {
        return Some(Keyword::True);
    }
    if *w == "false".to_owned() {
        return Some(Keyword::False);
    }
    if *w == "int".to_owned() {
        return Some(Keyword::Int);
    }
    if *w == "string".to_owned() {
        return Some(Keyword::String);
    }
    if *w == "bool".to_owned() {
        return Some(Keyword::Bool);
    }
    if *w == "unit".to_owned() {
        return Some(Keyword::Unit);
    }
    None
}

fn two_char_mark(a: char, b: char) -> (res: Option<Punct>)
    ensures
        res == mark_of_two(a, b),
{
    if a == '=' && b == '=' {
        Some(Punct::EqEq)
    } else if a == '=' && b == '>' {
        Some(Punct::FatArrow)
    } else if a == '-' && b == '>' {
        Some(Punct::Arrow)
    } else if a == '&' && b == '&' {
        Some(Punct::AndAnd)
    } else if a == '|' && b == '|' {
        Some(Punct::OrOr)
    } else if a == '.' && b == '.' {
        Some(Punct::DotDot)
    } else {
        None
    }
}

fn one_char_mark(c: char) -> (res: Option<Punct>)
    ensures
        res == mark_of_one(c),
{
    if c == '{' {
        Some(Punct::LBrace)
    } else if c == '}' {
        Some(Punct::RBrace)
    } else if c == '(' {
        Some(Punct::LParen)
    } else if c == ')' {
        Some(Punct::RParen)
    } else if c == '[' {
        Some(Punct::LBracket)
    } else if c == ']' {
        Some(Punct::RBracket)
    } else if c == ',' {
        Some(Punct::Comma)
    } else if c == ';' {
        Some(Punct::Semi)
    } else if c == ':' {
        Some(Punct::Colon)
    } else if c == '.' {
        Some(Punct::Dot)
    } else if c == '=' {
        Some(Punct::Eq)
    } else if c == '+' {
        Some(Punct::Plus)
    } else if c == '-' {
        Some(Punct::Minus)
    } else if c == '*' {
        Some(Punct::Star)
    } else if c == '/' {
        Some(Punct::Slash)
    } else if c == '!' {
        Some(Punct::Bang)
    } else if c == '<' {
        Some(Punct::Lt)
    } else if c == '>' {
        Some(Punct::Gt)
    } else {
        None
    }
}

/// A longer run of digits writes no smaller number.
proof fn lemma_digits_value_grows(s: Seq<char>, i: int)
    requires
        0 <= i <= s.len(),
        forall|k: int| 0 <= k < s.len() ==> in_class(Class::Digit, #[trigger] s[k]),
    ensures
        0 <= digits_value(s.take(i)) <= digits_value(s),
    decreases s.len(),
{
    if i == s.len() {
        assert(s.take(i) =~= s);
        if s.len() > 0 {
            lemma_digits_value_grows(s.drop_last(), s.len() - 1);
            assert(s.drop_last().take(s.len() - 1) =~= s.drop_last());
        }
    } else {
        lemma_digits_value_grows(s.drop_last(), i);
        assert(s.drop_last().take(i) =~= s.take(i));
        assert(in_class(Class::Digit, s[s.len() - 1]));
    }
}

fn digit_of(c: char) -> (res: i32)
    requires
        in_class(Class::Digit, c),
    ensures
        res == c as int - '0' as int,
{
    (c as u32 - '0' as u32) as i32
}

/// The number that the digits from `p` to `q` write, if it fits.
fn number(s: &Vec<char>, p: usize, q: usize) -> (res: Option<i32>)
    requires
        p < q <= s@.len(),
        forall|i: int| p <= i < q ==> in_class(Class::Digit, #[trigger] s@[i]),
    ensures
        match res {
            Some(n) => n == digits_value(s@.subrange(p as int, q as int)),
            None => digits_value(s@.subrange(p as int, q as int)) > i32::MAX,
        },
{
    let ghost run = s@.subrange(p as int, q as int);
    let mut n: i32 = 0;
    let mut i: usize = p;
    while i < q
        invariant
            p <= i <= q <= s@.len(),
            run == s@.subrange(p as int, q as int),
            forall|k: int| p <= k < q ==> in_class(Class::Digit, #[trigger] s@[k]),
            n == digits_value(run.take(i - p)),
            n >= 0,
        decreases q - i,
    {
        assert(in_class(Class::Digit, s@[i as int]));
        let d = digit_of(s[i]);
        proof {
            assert(run.take(i + 1 - p).drop_last() =~= run.take(i - p));
            assert forall|k: int| 0 <= k < run.len() implies in_class(
                Class::Digit,
                #[trigger] run[k],
            ) by {
                assert(in_class(Class::Digit, s@[p + k]));
            }
            lemma_digits_value_grows(run, i + 1 - p);
        }
        if n > (i32::MAX - d) / 10 {
            return None;
        }
        n = n * 10 + d;
        i += 1;
    }
    assert(run.take(i - p) =~= run);
    Some(n)
}

/// The tokens of a text, or the position of the first character that starts no token. Names are
/// interned in the order in which they first occur.
#[verifier::rlimit(40)]
pub fn tokenize(input: &str, interner: &mut Interner) -> (res: Result<Vec<Token>, usize>)
    ensures
        final(interner)@ == lexed(input@, old(interner)@).names,
        res matches Ok(tokens) ==> names_known(types::views(tokens@), final(interner)@),
        match res {
            Ok(tokens) => lexed(input@, old(interner)@).tokens == Ok::<Seq<TokenV>, int>(
                types::views(tokens@),
            ),
            Err(p) => lexed(input@, old(interner)@).tokens == Err::<Seq<TokenV>, int>(p as int)
                && p < input@.len(),
        },
{
    let s = chars_of(input);
    let mut tokens: Vec<Token> = Vec::new();
    assert(types::views(tokens@) =~= Seq::<TokenV>::empty());
    let mut open: Vec<bool> = Vec::new();
    assert(open@ =~= open_after(Seq::empty(), types::views(tokens@)));
    let mut p: usize = 0;
    while p < s.len()
        invariant
            s@ == input@,
            p <= s@.len(),
            names_known(types::views(tokens@), interner@),
            open@ == open_after(Seq::empty(), types::views(tokens@)),
            lexed(input@, old(interner)@) == lex_from(
                s@,
                p as int,
                interner@,
                types::views(tokens@),
            ),
        decreases s@.len() - p,
    {
        let c = s[p];
        let page: bool = open.len() > 0 && open[open.len() - 1];
        let ghost before = types::views(tokens@);
        let token = if (c == '(' && p + 1 < s.len() && s[p + 1] == '<') || (c == '}' && page) {
            let q = end_of_markup(&s, p + 1);
            if q >= s.len() {
                return Err(p);
            }
            let last: bool = s[q] != '{';
            let end: usize = if last {
                q + 1
            } else {
                q
            };
            let text = input.substring_char(p + 1, end).to_owned();
            p = end + 1;
            Token::Markup(text, c == '(', last)
        } else if is_in_class(Class::Space, c) {
            p = end_of_run(&s, p, Class::Space);
            continue;
        } else if c == '/' && p + 1 < s.len() && s[p + 1] == '/' {
            p = end_of_run(&s, p + 2, Class::NotNewline);
            continue;
        } else if is_in_class(Class::Letter, c) {
            let q = end_of_run(&s, p, Class::NameChar);
            if q - p > MAX_IDENTIFIER_LENGTH {
                return Err(p);
            }
            let word = input.substring_char(p, q).to_owned();
            p = q;
            match keyword(&word) {
                Some(k) => Token::Word(k),
                None => Token::Ident(interner.insert(word.as_str())),
            }
        } else if is_in_class(Class::Digit, c) {
            let q = end_of_run(&s, p, Class::Digit);
            match number(&s, p, q) {
                Some(n) => {
                    p = q;
                    Token::Num(n)
                },
                None => {
                    return Err(p);
                },
            }
        } else if c == '"' {
            let q = end_of_run(&s, p + 1, Class::NotQuote);
            if q >= s.len() || q - p - 1 > MAX_STRING_LITERAL_LENGTH {
                return Err(p);
            }
            let text = input.substring_char(p + 1, q).to_owned();
            p = q + 1;
            Token::Str(text)
        } else if c == '@' {
            let q = end_of_run(&s, p + 1, Class::NameChar);
            let word = input.substring_char(p + 1, q).to_owned();
            if word != "test".to_owned() {
                return Err(p);
            }
            proof {
                reveal_strlit("test");
                assert(word@.len() == 4);
            }
            p = q;
            Token::Word(Keyword::Test)
        } else if p + 1 < s.len() && two_char_mark(c, s[p + 1]).is_some() {
            match two_char_mark(c, s[p + 1]) {
                Some(m) => {
                    p += 2;
                    Token::Mark(m)
                },
                None => {
                    return Err(p);
                },
            }
        } else {
            match one_char_mark(c) {
                Some(m) => {
                    p += 1;
                    Token::Mark(m)
                },
                None => {
                    return Err(p);
                },
            }
        };
        track(&mut open, &token);
        tokens.push(token);
        assert(types::views(tokens@).drop_last() =~= before);
    }
    Ok(tokens)
}

/// Reading a text keeps the symbols given before it, and the names distinct.
pub proof fn lexing_keeps_symbols(
    s: Seq<char>,
    p: int,
    names: Seq<Seq<char>>,
    found: Seq<TokenV>,
)
    ensures
        names.is_prefix_of(lex_from(s, p, names, found).names),
        interner::distinct_names(names) ==> interner::distinct_names(
            lex_from(s, p, names, found).names,
        ),
    decreases s.len() - p,
{
    if 0 <= p < s.len() {
        match lexeme(s, p, in_page(open_after(Seq::empty(), found))) {
            Lexeme::Blank(q) => if p < q <= s.len() {
                lexing_keeps_symbols(s, q, names, found);
            },
            Lexeme::Name(q) => if p < q <= s.len() {
                let word = s.subrange(p, q);
                match keyword_of(word) {
                    Some(k) => {
                        lexing_keeps_symbols(s, q, names, found.push(TokenV::Word(k)));
                    },
                    None => {
                        let grown = interner::interned(names, word);
                        lexing_keeps_symbols(
                            s,
                            q,
                            grown,
                            found.push(TokenV::Ident(interner::symbol_in(grown, word))),
                        );
                        let after = lex_from(
                            s,
                            q,
                            grown,
                            found.push(TokenV::Ident(interner::symbol_in(grown, word))),
                        ).names;
                        assert(names.is_prefix_of(grown));
                        assert(names =~= after.take(names.len() as int));
                    },
                }
            },
            Lexeme::Num(q) => if p < q <= s.len() {
                lexing_keeps_symbols(
                    s,
                    q,
                    names,
                    found.push(TokenV::Num(digits_value(s.subrange(p, q)))),
                );
            },
            Lexeme::Str(q) => if p < q <= s.len() {
                lexing_keeps_symbols(
                    s,
                    q,
                    names,
                    found.push(TokenV::Str(s.subrange(p + 1, q - 1))),
                );
            },
            Lexeme::Test => if p + 5 <= s.len() {
                lexing_keeps_symbols(s, p + 5, names, found.push(TokenV::Word(Keyword::Test)));
            },
            Lexeme::Mark(m, q) => if p < q <= s.len() {
                lexing_keeps_symbols(s, q, names, found.push(TokenV::Mark(m)));
            },
            Lexeme::Markup(q, first, last) => if p < q < s.len() {
                lexing_keeps_symbols(
                    s,
                    q + 1,
                    names,
                    found.push(TokenV::Markup(s.subrange(p + 1, q), first, last)),
                );
            },
            Lexeme::Bad => {},
        }
    }
}

} // verus!
