//! Pieces of written text, and the tokens that they are read as.

use vstd::prelude::*;

use crate::runtime::interner;
use crate::runtime::interner::Symbol;
use crate::runtime::limits::{MAX_IDENTIFIER_LENGTH, MAX_STRING_LITERAL_LENGTH};
use crate::runtime::parser::lex;
use crate::runtime::parser::lex::{Class, Keyword, Lexeme, Punct, TokenV};
use crate::runtime::text;
use crate::runtime::update::nesting;
use crate::runtime::update::tokens;

verus! {

/// Whether two neighbouring characters may belong to one token.
pub open spec fn glue(c: char, d: char) -> bool {
    ||| lex::in_class(Class::NameChar, c) && lex::in_class(Class::NameChar, d)
    ||| lex::mark_of_two(c, d) is Some
    ||| c == '/' && d == '/'
    ||| c == '(' && d == '<'
}

/// Whether a text ends with a token where another begins.
pub open spec fn parted(s: Seq<char>, b: Seq<char>) -> bool {
    s.len() > 0 && b.len() > 0 ==> !glue(s.last(), b[0])
}

/// Whether a text between two others is read as the tokens `t`, where these close what was opened
/// before.
pub open spec fn scanned_between(
    s: Seq<char>,
    t: Seq<TokenV>,
    names: Seq<Seq<char>>,
    a: Seq<char>,
    b: Seq<char>,
    found: Seq<TokenV>,
) -> bool {
    parted(s, b) && nesting::nests(lex::open_after(Seq::empty(), found), t) ==> {
        let u = a + s + b;
        lex::lex_from(u, a.len() as int, names, found) == lex::lex_from(
            u,
            (a.len() + s.len()) as int,
            names,
            found + t,
        )
    }
}

/// Whether a text is read as the tokens `t`, wherever it stands.
pub open spec fn scans(s: Seq<char>, t: Seq<TokenV>, names: Seq<Seq<char>>) -> bool {
    forall|a: Seq<char>, b: Seq<char>, found: Seq<TokenV>| #[trigger]
        scanned_between(s, t, names, a, b, found)
}

/// The tokens of a whole text.
pub proof fn lemma_scans_all(s: Seq<char>, t: Seq<TokenV>, names: Seq<Seq<char>>)
    requires
        scans(s, t, names),
        nesting::balanced(t),
    ensures
        lex::lexed(s, names) == (lex::Lexed { tokens: Ok(t), names }),
{
    let none = Seq::<char>::empty();
    assert(scanned_between(s, t, names, none, none, Seq::empty()));
    assert(nesting::nests(lex::open_after(Seq::empty(), Seq::empty()), t)) by {
        reveal(nesting::balanced);
    }
    assert(none + s + none =~= s);
    assert(Seq::<TokenV>::empty() + t =~= t);
}

/// Where two texts stand one behind the other.
pub proof fn lemma_behind(a: Seq<char>, s1: Seq<char>, s2: Seq<char>, b: Seq<char>)
    ensures
        a + (s1 + s2) + b == a + s1 + (s2 + b),
        a + (s1 + s2) + b == (a + s1) + s2 + b,
{
    assert(a + (s1 + s2) + b =~= a + s1 + (s2 + b));
    assert(a + (s1 + s2) + b =~= (a + s1) + s2 + b);
}

/// A text that ends where another does ends with a token where that one does.
pub proof fn lemma_parted(s1: Seq<char>, s2: Seq<char>, b: Seq<char>)
    requires
        parted(s1, s2),
        parted(s1 + s2, b),
    ensures
        parted(s1, s2 + b),
        parted(s2, b),
{
    if s2.len() == 0 {
        assert(s1 + s2 =~= s1);
        assert(s2 + b =~= b);
    } else {
        assert((s1 + s2).last() == s2.last());
        assert((s2 + b)[0] == s2[0]);
    }
}

/// Texts that do not grow together are read one after the other.
pub proof fn lemma_scan_join(
    s1: Seq<char>,
    t1: Seq<TokenV>,
    s2: Seq<char>,
    t2: Seq<TokenV>,
    names: Seq<Seq<char>>,
)
    requires
        scans(s1, t1, names),
        scans(s2, t2, names),
        parted(s1, s2),
    ensures
        scans(s1 + s2, t1 + t2, names),
{
    assert forall|a: Seq<char>, b: Seq<char>, found: Seq<TokenV>| #[trigger]
        scanned_between(s1 + s2, t1 + t2, names, a, b, found) by {
        let open = lex::open_after(Seq::empty(), found);
        if parted(s1 + s2, b) && nesting::nests(open, t1 + t2) {
            nesting::lemma_nests_join(open, t1, t2);
            nesting::lemma_nests_join(Seq::empty(), found, t1);
            lemma_parted(s1, s2, b);
            lemma_behind(a, s1, s2, b);
            assert(scanned_between(s1, t1, names, a, s2 + b, found));
            assert(scanned_between(s2, t2, names, a + s1, b, found + t1));
            assert(found + (t1 + t2) =~= (found + t1) + t2);
        }
    }
}

/// A run of characters of a class ends where it ends.
pub proof fn lemma_run_end(s: Seq<char>, p: int, q: int, k: Class)
    requires
        0 <= p <= q <= s.len(),
        forall|i: int| p <= i < q ==> lex::in_class(k, #[trigger] s[i]),
        q < s.len() ==> !lex::in_class(k, s[q]),
    ensures
        lex::run_end(s, p, k) == q,
    decreases q - p,
{
    if p < q {
        lemma_run_end(s, p + 1, q, k);
    }
}

/// A run of characters of a class does not end before it starts.
pub proof fn lemma_run_bounds(s: Seq<char>, p: int, k: Class)
    requires
        0 <= p <= s.len(),
    ensures
        p <= lex::run_end(s, p, k) <= s.len(),
    decreases s.len() - p,
{
    if p < s.len() && lex::in_class(k, s[p]) {
        lemma_run_bounds(s, p + 1, k);
    }
}

/// A blank is skipped.
pub proof fn lemma_scan_blank(c: char, names: Seq<Seq<char>>)
    requires
        lex::in_class(Class::Space, c),
    ensures
        scans(seq![c], Seq::empty(), names),
{
    let s = seq![c];
    assert forall|a: Seq<char>, b: Seq<char>, found: Seq<TokenV>| #[trigger]
        scanned_between(s, Seq::empty(), names, a, b, found) by {
        let u = a + s + b;
        let p = a.len() as int;
        assert(u[p] == c);
        assert(found + Seq::<TokenV>::empty() =~= found);
        lemma_run_bounds(u, p + 1, Class::Space);
        assert(lex::run_end(u, p, Class::Space) == lex::run_end(u, p + 1, Class::Space));
        if p + 1 < u.len() && lex::in_class(Class::Space, u[p + 1]) {
            lemma_run_bounds(u, p + 2, Class::Space);
            assert(lex::run_end(u, p + 1, Class::Space) == lex::run_end(u, p + 2, Class::Space));
        }
    }
}

/// A mark of one character.
pub proof fn lemma_scan_mark(c: char, names: Seq<Seq<char>>)
    requires
        lex::mark_of_one(c) is Some,
    ensures
        scans(seq![c], tokens::mark(lex::mark_of_one(c)->0), names),
{
    let s = seq![c];
    let m = lex::mark_of_one(c)->0;
    assert forall|a: Seq<char>, b: Seq<char>, found: Seq<TokenV>| #[trigger]
        scanned_between(s, tokens::mark(m), names, a, b, found) by {
        let open = lex::open_after(Seq::empty(), found);
        if parted(s, b) && nesting::nests(open, tokens::mark(m)) {
            nesting::lemma_one(open, TokenV::Mark(m));
            let u = a + s + b;
            let p = a.len() as int;
            assert(u[p] == c);
            assert(s.last() == c);
            if p + 1 < u.len() {
                assert(u[p + 1] == b[0]);
            }
            assert(lex::lexeme(u, p, lex::in_page(open)) == Lexeme::Mark(m, p + 1));
            assert(found + tokens::mark(m) =~= found.push(TokenV::Mark(m)));
        }
    }
}

/// A mark of two characters.
pub proof fn lemma_scan_pair(c: char, d: char, names: Seq<Seq<char>>)
    requires
        lex::mark_of_two(c, d) is Some,
    ensures
        scans(seq![c, d], tokens::mark(lex::mark_of_two(c, d)->0), names),
{
    let s = seq![c, d];
    let m = lex::mark_of_two(c, d)->0;
    assert forall|a: Seq<char>, b: Seq<char>, found: Seq<TokenV>| #[trigger]
        scanned_between(s, tokens::mark(m), names, a, b, found) by {
        let u = a + s + b;
        let p = a.len() as int;
        assert(u[p] == c);
        assert(u[p + 1] == d);
        let page = lex::in_page(lex::open_after(Seq::empty(), found));
        assert(lex::lexeme(u, p, page) == Lexeme::Mark(m, p + 2));
        assert(found + tokens::mark(m) =~= found.push(TokenV::Mark(m)));
    }
}

/// A run of letters and digits that starts with a letter.
pub proof fn lemma_name_lexeme(s: Seq<char>, a: Seq<char>, b: Seq<char>, page: bool)
    requires
        0 < s.len() <= MAX_IDENTIFIER_LENGTH,
        lex::in_class(Class::Letter, s[0]),
        forall|i: int| 0 <= i < s.len() ==> lex::in_class(Class::NameChar, #[trigger] s[i]),
        parted(s, b),
    ensures
        lex::lexeme(a + s + b, a.len() as int, page) == Lexeme::Name(
            (a.len() + s.len()) as int,
        ),
        (a + s + b).subrange(a.len() as int, (a.len() + s.len()) as int) == s,
{
    let u = a + s + b;
    let p = a.len() as int;
    let q = (a.len() + s.len()) as int;
    assert(u[p] == s[0]);
    assert forall|i: int| p <= i < q implies lex::in_class(Class::NameChar, #[trigger] u[i]) by {
        assert(u[i] == s[i - p]);
    }
    if q < u.len() {
        assert(u[q] == b[0]);
    }
    lemma_run_end(u, p, q, Class::NameChar);
    assert(u.subrange(p, q) =~= s);
}

/// A reserved word.
pub proof fn lemma_scan_word(s: Seq<char>, k: Keyword, names: Seq<Seq<char>>)
    requires
        0 < s.len() <= MAX_IDENTIFIER_LENGTH,
        lex::in_class(Class::Letter, s[0]),
        forall|i: int| 0 <= i < s.len() ==> lex::in_class(Class::NameChar, #[trigger] s[i]),
        lex::keyword_of(s) == Some(k),
    ensures
        scans(s, tokens::word(k), names),
{
    assert forall|a: Seq<char>, b: Seq<char>, found: Seq<TokenV>| #[trigger]
        scanned_between(s, tokens::word(k), names, a, b, found) by {
        if parted(s, b) {
            let page = lex::in_page(lex::open_after(Seq::empty(), found));
            lemma_name_lexeme(s, a, b, page);
            assert(found + tokens::word(k) =~= found.push(TokenV::Word(k)));
        }
    }
}

/// A name.
pub proof fn lemma_scan_name(x: Symbol, names: Seq<Seq<char>>)
    requires
        tokens::named(names, x),
        interner::distinct_names(names),
    ensures
        scans(names[x as int], tokens::ident(x), names),
{
    let s = names[x as int];
    assert(names.contains(s));
    interner::lemma_symbol_in(names, x, s);
    assert forall|a: Seq<char>, b: Seq<char>, found: Seq<TokenV>| #[trigger]
        scanned_between(s, tokens::ident(x), names, a, b, found) by {
        if parted(s, b) {
            let page = lex::in_page(lex::open_after(Seq::empty(), found));
            lemma_name_lexeme(s, a, b, page);
            assert(found + tokens::ident(x) =~= found.push(TokenV::Ident(x)));
        }
    }
}

/// The digits of a number write it.
pub proof fn lemma_digits(n: nat)
    ensures
        text::nat_text(n).len() > 0,
        forall|i: int|
            0 <= i < text::nat_text(n).len() ==> lex::in_class(
                Class::Digit,
                #[trigger] text::nat_text(n)[i],
            ),
        lex::digits_value(text::nat_text(n)) == n,
    decreases n,
{
    let s = text::nat_text(n);
    if n < 10 {
        assert(s.drop_last() =~= Seq::<char>::empty());
        assert(s.last() as int - '0' as int == n);
        assert(lex::digits_value(s.drop_last()) == 0);
    } else {
        lemma_digits(n / 10);
        assert(s.drop_last() =~= text::nat_text(n / 10));
        assert(s.last() as int - '0' as int == n % 10);
    }
}

/// A number.
pub proof fn lemma_scan_number(n: nat, names: Seq<Seq<char>>)
    requires
        n <= i32::MAX,
    ensures
        scans(text::nat_text(n), seq![TokenV::Num(n as int)], names),
{
    let s = text::nat_text(n);
    lemma_digits(n);
    let t = seq![TokenV::Num(n as int)];
    assert forall|a: Seq<char>, b: Seq<char>, found: Seq<TokenV>| #[trigger]
        scanned_between(s, t, names, a, b, found) by {
        if parted(s, b) {
            let u = a + s + b;
            let p = a.len() as int;
            let q = (a.len() + s.len()) as int;
            assert(u[p] == s[0]);
            assert forall|i: int| p <= i < q implies lex::in_class(
                Class::Digit,
                #[trigger] u[i],
            ) by {
                assert(u[i] == s[i - p]);
            }
            assert(lex::in_class(Class::Digit, s.last()));
            if q < u.len() {
                assert(u[q] == b[0]);
            }
            lemma_run_end(u, p, q, Class::Digit);
            assert(u.subrange(p, q) =~= s);
            let page = lex::in_page(lex::open_after(Seq::empty(), found));
            assert(lex::lexeme(u, p, page) == Lexeme::Num(q));
            assert(found + t =~= found.push(TokenV::Num(n as int)));
        }
    }
}

/// A text in quotes.
pub proof fn lemma_scan_string(v: Seq<char>, names: Seq<Seq<char>>)
    requires
        v.len() <= MAX_STRING_LITERAL_LENGTH,
        !v.contains('"'),
    ensures
        scans(seq!['"'] + v + seq!['"'], seq![TokenV::Str(v)], names),
{
    let s = seq!['"'] + v + seq!['"'];
    let t = seq![TokenV::Str(v)];
    assert forall|a: Seq<char>, b: Seq<char>, found: Seq<TokenV>| #[trigger]
        scanned_between(s, t, names, a, b, found) by {
        let u = a + s + b;
        let p = a.len() as int;
        let q = p + 1 + v.len();
        assert(u[p] == '"');
        assert forall|i: int| p + 1 <= i < q implies lex::in_class(
            Class::NotQuote,
            #[trigger] u[i],
        ) by {
            assert(u[i] == v[i - p - 1]);
            assert(v.contains(v[i - p - 1]));
        }
        assert(u[q] == '"');
        lemma_run_end(u, p + 1, q, Class::NotQuote);
        let page = lex::in_page(lex::open_after(Seq::empty(), found));
        assert(lex::lexeme(u, p, page) == Lexeme::Str(q + 1));
        assert(u.subrange(p + 1, q) =~= v);
        assert(found + t =~= found.push(TokenV::Str(v)));
    }
}

/// Where the text of a page ends.
proof fn lemma_markup_end(s: Seq<char>, p: int, q: int)
    requires
        0 <= p <= q < s.len(),
        forall|i: int|
            p <= i < q ==> (#[trigger] s[i]) != '{' && !(s[i] == '>' && i + 1 < s.len() && s[i + 1]
                == ')'),
        s[q] == '{' || (s[q] == '>' && q + 1 < s.len() && s[q + 1] == ')'),
    ensures
        lex::markup_end(s, p) == q,
    decreases q - p,
{
    if p < q {
        assert(s[p] != '{');
        lemma_markup_end(s, p + 1, q);
    }
}

/// The text of a page with what stands around it: a bracket or the brace of an expression.
pub open spec fn markup_text(v: Seq<char>, first: bool, last: bool) -> Seq<char> {
    seq![
        if first {
            '('
        } else {
            '}'
        },
    ] + v + seq![
        if last {
            ')'
        } else {
            '{'
        },
    ]
}

/// Text of a page.
pub proof fn lemma_scan_markup(v: Seq<char>, first: bool, last: bool, names: Seq<Seq<char>>)
    requires
        tokens::markup_fits(v),
        first ==> v.len() > 0 && v[0] == '<',
        last ==> v.len() > 0 && v.last() == '>',
    ensures
        scans(markup_text(v, first, last), seq![TokenV::Markup(v, first, last)], names),
{
    let s = markup_text(v, first, last);
    let x = TokenV::Markup(v, first, last);
    let t = seq![x];
    assert forall|a: Seq<char>, b: Seq<char>, found: Seq<TokenV>| #[trigger]
        scanned_between(s, t, names, a, b, found) by {
        let open = lex::open_after(Seq::empty(), found);
        if nesting::nests(open, t) {
            nesting::lemma_one(open, x);
            let u = a + s + b;
            let p = a.len() as int;
            let e = p + 1 + v.len();
            assert(u[p] == s[0]);
            assert(u[e] == s.last());
            assert forall|i: int| p + 1 <= i < e implies (#[trigger] u[i]) == v[i - p - 1] by {}
            if first {
                assert(u[p + 1] == v[0]);
            }
            let q = if last {
                e - 1
            } else {
                e
            };
            if last {
                assert(u[e - 1] == v.last());
            }
            assert forall|i: int| p + 1 <= i < q implies (#[trigger] u[i]) != '{' && !(u[i] == '>'
                && i + 1 < u.len() && u[i + 1] == ')') by {
                assert(u[i] == v[i - p - 1]);
                assert(v.contains(v[i - p - 1]));
                if i + 1 < e {
                    assert(u[i + 1] == v[i - p]);
                    assert(v[i - p - 1 + 1] == v[i - p]);
                }
            }
            if last {
                assert(u[q] == '>' && u[q + 1] == ')');
            } else {
                assert(u[q] == '{');
            }
            lemma_markup_end(u, p + 1, q);
            assert(lex::lexeme(u, p, lex::in_page(open)) == Lexeme::Markup(e, first, last));
            assert(u.subrange(p + 1, e) =~= v);
            assert(found + t =~= found.push(x));
        }
    }
}

/// Text of a page, as a piece.
pub proof fn piece_of_page(v: Seq<char>, first: bool, last: bool, names: Seq<Seq<char>>) -> (x:
    PieceV)
    requires
        tokens::markup_fits(v),
        first ==> v.len() > 0 && v[0] == '<',
        last ==> v.len() > 0 && v.last() == '>',
    ensures
        x == (PieceV {
            text: markup_text(v, first, last),
            tokens: seq![TokenV::Markup(v, first, last)],
            begins: first,
            closed: last,
        }),
        readable(x, names),
{
    lemma_scan_markup(v, first, last, names);
    PieceV {
        text: markup_text(v, first, last),
        tokens: seq![TokenV::Markup(v, first, last)],
        begins: first,
        closed: last,
    }
}

/// Whether a written construct can start with this character.
pub open spec fn opener(c: char) -> bool {
    lex::in_class(Class::NameChar, c) || c == '"' || c == '(' || c == '[' || c == '{' || c == '-'
        || c == '!'
}

/// Whether a written construct can end with this character.
pub open spec fn closer(c: char) -> bool {
    lex::in_class(Class::NameChar, c) || c == '"' || c == ')' || c == ']' || c == '}' || c == ';'
}

/// Whether what follows a written construct can start with this character.
pub open spec fn loose_start(c: char) -> bool {
    c == ' ' || c == ',' || c == ')' || c == ']' || c == '}' || c == ';' || c == ':' || c == '('
        || c == '.' || c == '\n'
}

/// Whether what comes before a written construct can end with this character.
pub open spec fn loose_end(c: char) -> bool {
    c == ' ' || c == '(' || c == '[' || c == '{' || c == '!' || c == '-' || c == '.' || c == '\n'
}

/// A piece of text and its tokens: at its start a construct begins or goes on, at its end one is
/// closed or still open.
pub struct PieceV {
    pub text: Seq<char>,
    pub tokens: Seq<TokenV>,
    pub begins: bool,
    pub closed: bool,
}

/// A construct: it begins and is closed.
pub open spec fn construct(text: Seq<char>, tokens: Seq<TokenV>) -> PieceV {
    PieceV { text, tokens, begins: true, closed: true }
}

/// What opens a construct.
pub open spec fn opening(text: Seq<char>, tokens: Seq<TokenV>) -> PieceV {
    PieceV { text, tokens, begins: true, closed: false }
}

/// What stands between two constructs.
pub open spec fn link(text: Seq<char>, tokens: Seq<TokenV>) -> PieceV {
    PieceV { text, tokens, begins: false, closed: false }
}

/// What closes a construct.
pub open spec fn closing(text: Seq<char>, tokens: Seq<TokenV>) -> PieceV {
    PieceV { text, tokens, begins: false, closed: true }
}

/// Whether a piece is read as its tokens.
pub open spec fn readable(x: PieceV, names: Seq<Seq<char>>) -> bool {
    &&& scans(x.text, x.tokens, names)
    &&& x.text.len() > 0
    &&& if x.begins {
        opener(x.text[0])
    } else {
        loose_start(x.text[0])
    }
    &&& if x.closed {
        closer(x.text.last())
    } else {
        loose_end(x.text.last())
    }
}

/// Two pieces, one behind the other.
pub open spec fn behind(x: PieceV, y: PieceV) -> PieceV {
    PieceV {
        text: x.text + y.text,
        tokens: x.tokens + y.tokens,
        begins: x.begins,
        closed: y.closed,
    }
}

/// What is open can go on or hold something; what is closed can go on.
pub proof fn join(x: PieceV, y: PieceV, names: Seq<Seq<char>>) -> (z: PieceV)
    requires
        readable(x, names),
        readable(y, names),
        !(x.closed && y.begins),
        !x.closed && !y.begins ==> x.text.last() != '.',
    ensures
        z == behind(x, y),
        readable(z, names),
{
    lemma_scan_join(x.text, x.tokens, y.text, y.tokens, names);
    assert((x.text + y.text)[0] == x.text[0]);
    assert((x.text + y.text).last() == y.text.last());
    behind(x, y)
}

/// The words that are written.
pub proof fn lemma_keywords()
    ensures
        lex::keyword_of("var"@) == Some(Keyword::Var),
        lex::keyword_of("def"@) == Some(Keyword::Def),
        lex::keyword_of("pub"@) == Some(Keyword::Pub),
        lex::keyword_of("table"@) == Some(Keyword::Table),
        lex::keyword_of("action"@) == Some(Keyword::Action),
        lex::keyword_of("let"@) == Some(Keyword::Let),
        lex::keyword_of("do"@) == Some(Keyword::Do),
        lex::keyword_of("assert"@) == Some(Keyword::Assert),
        lex::keyword_of("insert"@) == Some(Keyword::Insert),
        lex::keyword_of("into"@) == Some(Keyword::Into),
        lex::keyword_of("update"@) == Some(Keyword::Update),
        lex::keyword_of("if"@) == Some(Keyword::If),
        lex::keyword_of("then"@) == Some(Keyword::Then),
        lex::keyword_of("else"@) == Some(Keyword::Else),
        lex::keyword_of("fn"@) == Some(Keyword::Fn),
        lex::keyword_of("select"@) == Some(Keyword::Select),
        lex::keyword_of("from"@) == Some(Keyword::From),
        lex::keyword_of("where"@) == Some(Keyword::Where),
        lex::keyword_of("fold"@) == Some(Keyword::Fold),
        lex::keyword_of("true"@) == Some(Keyword::True),
        lex::keyword_of("false"@) == Some(Keyword::False),
        lex::keyword_of("int"@) == Some(Keyword::Int),
        lex::keyword_of("string"@) == Some(Keyword::String),
        lex::keyword_of("bool"@) == Some(Keyword::Bool),
        lex::keyword_of("unit"@) == Some(Keyword::Unit),
{
    reveal_strlit("service");
    reveal_strlit("import");
    reveal_strlit("var");
    reveal_strlit("def");
    reveal_strlit("pub");
    reveal_strlit("table");
    reveal_strlit("action");
    reveal_strlit("let");
    reveal_strlit("do");
    reveal_strlit("assert");
    reveal_strlit("insert");
    reveal_strlit("into");
    reveal_strlit("watch");
    reveal_strlit("update");
    reveal_strlit("atomic");
    reveal_strlit("if");
    reveal_strlit("then");
    reveal_strlit("else");
    reveal_strlit("fn");
    reveal_strlit("select");
    reveal_strlit("from");
    reveal_strlit("where");
    reveal_strlit("fold");
    reveal_strlit("true");
    reveal_strlit("false");
    reveal_strlit("int");
    reveal_strlit("string");
    reveal_strlit("bool");
    reveal_strlit("unit");
    assert("service"@.len() == 7 && "service"@[0] == 's' && "service"@[1] == 'e');
    assert("import"@.len() == 6 && "import"@[0] == 'i' && "import"@[1] == 'm');
    assert("var"@.len() == 3 && "var"@[0] == 'v' && "var"@[1] == 'a');
    assert("def"@.len() == 3 && "def"@[0] == 'd' && "def"@[1] == 'e');
    assert("pub"@.len() == 3 && "pub"@[0] == 'p' && "pub"@[1] == 'u');
    assert("table"@.len() == 5 && "table"@[0] == 't' && "table"@[1] == 'a');
    assert("action"@.len() == 6 && "action"@[0] == 'a' && "action"@[1] == 'c');
    assert("let"@.len() == 3 && "let"@[0] == 'l' && "let"@[1] == 'e');
    assert("do"@.len() == 2 && "do"@[0] == 'd' && "do"@[1] == 'o');
    assert("assert"@.len() == 6 && "assert"@[0] == 'a' && "assert"@[1] == 's');
    assert("insert"@.len() == 6 && "insert"@[0] == 'i' && "insert"@[1] == 'n');
    assert("into"@.len() == 4 && "into"@[0] == 'i' && "into"@[1] == 'n');
    assert("watch"@.len() == 5 && "watch"@[0] == 'w' && "watch"@[1] == 'a');
    assert("update"@.len() == 6 && "update"@[0] == 'u' && "update"@[1] == 'p');
    assert("atomic"@.len() == 6 && "atomic"@[0] == 'a' && "atomic"@[1] == 't');
    assert("if"@.len() == 2 && "if"@[0] == 'i' && "if"@[1] == 'f');
    assert("then"@.len() == 4 && "then"@[0] == 't' && "then"@[1] == 'h');
    assert("else"@.len() == 4 && "else"@[0] == 'e' && "else"@[1] == 'l');
    assert("fn"@.len() == 2 && "fn"@[0] == 'f' && "fn"@[1] == 'n');
    assert("select"@.len() == 6 && "select"@[0] == 's' && "select"@[1] == 'e');
    assert("from"@.len() == 4 && "from"@[0] == 'f' && "from"@[1] == 'r');
    assert("where"@.len() == 5 && "where"@[0] == 'w' && "where"@[1] == 'h');
    assert("fold"@.len() == 4 && "fold"@[0] == 'f' && "fold"@[1] == 'o');
    assert("true"@.len() == 4 && "true"@[0] == 't' && "true"@[1] == 'r');
    assert("false"@.len() == 5 && "false"@[0] == 'f' && "false"@[1] == 'a');
    assert("int"@.len() == 3 && "int"@[0] == 'i' && "int"@[1] == 'n');
    assert("string"@.len() == 6 && "string"@[0] == 's' && "string"@[1] == 't');
    assert("bool"@.len() == 4 && "bool"@[0] == 'b' && "bool"@[1] == 'o');
    assert("unit"@.len() == 4 && "unit"@[0] == 'u' && "unit"@[1] == 'n');
}

/// Whether a text is the spelling of a reserved word.
pub open spec fn spells(w: Seq<char>, k: Keyword) -> bool {
    &&& 0 < w.len() <= MAX_IDENTIFIER_LENGTH
    &&& lex::in_class(Class::Letter, w[0])
    &&& forall|i: int| 0 <= i < w.len() ==> lex::in_class(Class::NameChar, #[trigger] w[i])
    &&& lex::keyword_of(w) == Some(k)
}

/// A reserved word that is a construct of its own.
pub proof fn lemma_word_alone(w: Seq<char>, k: Keyword, names: Seq<Seq<char>>)
    requires
        spells(w, k),
    ensures
        readable(construct(w, tokens::word(k)), names),
{
    lemma_scan_word(w, k, names);
    assert(lex::in_class(Class::NameChar, w[0]));
    assert(lex::in_class(Class::NameChar, w[w.len() - 1]));
}

/// A reserved word and a blank.
pub proof fn lemma_word_blank(s: Seq<char>, w: Seq<char>, k: Keyword, names: Seq<Seq<char>>)
    requires
        spells(w, k),
        s == w + seq![' '],
    ensures
        readable(opening(s, tokens::word(k)), names),
{
    let none = Seq::<TokenV>::empty();
    lemma_word_alone(w, k, names);
    lemma_scan_blank(' ', names);
    lemma_scan_join(w, tokens::word(k), seq![' '], none, names);
    assert(tokens::word(k) + none =~= tokens::word(k));
}

/// A reserved word between blanks.
pub proof fn lemma_blank_word(s: Seq<char>, w: Seq<char>, k: Keyword, names: Seq<Seq<char>>)
    requires
        spells(w, k),
        s == seq![' '] + (w + seq![' ']),
    ensures
        readable(link(s, tokens::word(k)), names),
{
    let none = Seq::<TokenV>::empty();
    lemma_word_blank(w + seq![' '], w, k, names);
    lemma_scan_blank(' ', names);
    lemma_scan_join(seq![' '], none, w + seq![' '], tokens::word(k), names);
    assert(none + tokens::word(k) =~= tokens::word(k));
}

/// A reserved word and an opening bracket.
pub proof fn lemma_word_bracket(s: Seq<char>, w: Seq<char>, k: Keyword, names: Seq<Seq<char>>)
    requires
        spells(w, k),
        s == w + seq!['('],
    ensures
        readable(opening(s, tokens::word(k) + tokens::mark(Punct::LParen)), names),
{
    lemma_word_alone(w, k, names);
    lemma_scan_mark('(', names);
    lemma_scan_join(w, tokens::word(k), seq!['('], tokens::mark(Punct::LParen), names);
}

/// A mark and a blank.
pub proof fn lemma_mark_blank(s: Seq<char>, m: Punct, names: Seq<Seq<char>>)
    requires
        s.len() == 2,
        lex::mark_of_one(s[0]) == Some(m),
        loose_start(s[0]),
        s[1] == ' ',
    ensures
        readable(link(s, tokens::mark(m)), names),
{
    let none = Seq::<TokenV>::empty();
    lemma_scan_mark(s[0], names);
    lemma_scan_blank(' ', names);
    lemma_scan_join(seq![s[0]], tokens::mark(m), seq![' '], none, names);
    assert(s =~= seq![s[0]] + seq![' ']);
    assert(tokens::mark(m) + none =~= tokens::mark(m));
}

/// A mark alone.
pub proof fn lemma_mark_alone(s: Seq<char>, m: Punct, names: Seq<Seq<char>>)
    requires
        s.len() == 1,
        lex::mark_of_one(s[0]) == Some(m),
    ensures
        scans(s, tokens::mark(m), names),
{
    lemma_scan_mark(s[0], names);
    assert(s =~= seq![s[0]]);
}

/// The text `if `, which opens a construct.
pub proof fn text_if(names: Seq<Seq<char>>) -> (x: PieceV)
    ensures
        x == opening("if "@, tokens::word(Keyword::If)),
        readable(x, names),
{
    reveal_strlit("if ");
    reveal_strlit("if");
    lemma_keywords();
    assert("if "@ =~= "if"@ + seq![' ']);
    lemma_word_blank("if "@, "if"@, Keyword::If, names);
    opening("if "@, tokens::word(Keyword::If))
}

/// The text `select `, which opens a construct.
pub proof fn text_select(names: Seq<Seq<char>>) -> (x: PieceV)
    ensures
        x == opening("select "@, tokens::word(Keyword::Select)),
        readable(x, names),
{
    reveal_strlit("select ");
    reveal_strlit("select");
    lemma_keywords();
    assert("select "@ =~= "select"@ + seq![' ']);
    lemma_word_blank("select "@, "select"@, Keyword::Select, names);
    opening("select "@, tokens::word(Keyword::Select))
}

/// The text `let `, which opens a construct.
pub proof fn text_let(names: Seq<Seq<char>>) -> (x: PieceV)
    ensures
        x == opening("let "@, tokens::word(Keyword::Let)),
        readable(x, names),
{
    reveal_strlit("let ");
    reveal_strlit("let");
    lemma_keywords();
    assert("let "@ =~= "let"@ + seq![' ']);
    lemma_word_blank("let "@, "let"@, Keyword::Let, names);
    opening("let "@, tokens::word(Keyword::Let))
}

/// The text `do `, which opens a construct.
pub proof fn text_do(names: Seq<Seq<char>>) -> (x: PieceV)
    ensures
        x == opening("do "@, tokens::word(Keyword::Do)),
        readable(x, names),
{
    reveal_strlit("do ");
    reveal_strlit("do");
    lemma_keywords();
    assert("do "@ =~= "do"@ + seq![' ']);
    lemma_word_blank("do "@, "do"@, Keyword::Do, names);
    opening("do "@, tokens::word(Keyword::Do))
}

/// The text `insert `, which opens a construct.
pub proof fn text_insert(names: Seq<Seq<char>>) -> (x: PieceV)
    ensures
        x == opening("insert "@, tokens::word(Keyword::Insert)),
        readable(x, names),
{
    reveal_strlit("insert ");
    reveal_strlit("insert");
    lemma_keywords();
    assert("insert "@ =~= "insert"@ + seq![' ']);
    lemma_word_blank("insert "@, "insert"@, Keyword::Insert, names);
    opening("insert "@, tokens::word(Keyword::Insert))
}

/// The text `table `, which opens a construct.
pub proof fn text_table(names: Seq<Seq<char>>) -> (x: PieceV)
    ensures
        x == opening("table "@, tokens::word(Keyword::Table)),
        readable(x, names),
{
    reveal_strlit("table ");
    reveal_strlit("table");
    lemma_keywords();
    assert("table "@ =~= "table"@ + seq![' ']);
    lemma_word_blank("table "@, "table"@, Keyword::Table, names);
    opening("table "@, tokens::word(Keyword::Table))
}

/// The text `var `, which opens a construct.
pub proof fn text_var(names: Seq<Seq<char>>) -> (x: PieceV)
    ensures
        x == opening("var "@, tokens::word(Keyword::Var)),
        readable(x, names),
{
    reveal_strlit("var ");
    reveal_strlit("var");
    lemma_keywords();
    assert("var "@ =~= "var"@ + seq![' ']);
    lemma_word_blank("var "@, "var"@, Keyword::Var, names);
    opening("var "@, tokens::word(Keyword::Var))
}

/// The text `pub `, which opens a construct.
pub proof fn text_pub(names: Seq<Seq<char>>) -> (x: PieceV)
    ensures
        x == opening("pub "@, tokens::word(Keyword::Pub)),
        readable(x, names),
{
    reveal_strlit("pub ");
    reveal_strlit("pub");
    lemma_keywords();
    assert("pub "@ =~= "pub"@ + seq![' ']);
    lemma_word_blank("pub "@, "pub"@, Keyword::Pub, names);
    opening("pub "@, tokens::word(Keyword::Pub))
}

/// The text `def `, which opens a construct.
pub proof fn text_def(names: Seq<Seq<char>>) -> (x: PieceV)
    ensures
        x == opening("def "@, tokens::word(Keyword::Def)),
        readable(x, names),
{
    reveal_strlit("def ");
    reveal_strlit("def");
    lemma_keywords();
    assert("def "@ =~= "def"@ + seq![' ']);
    lemma_word_blank("def "@, "def"@, Keyword::Def, names);
    opening("def "@, tokens::word(Keyword::Def))
}

/// The text `update `, which opens a construct.
pub proof fn text_update(names: Seq<Seq<char>>) -> (x: PieceV)
    ensures
        x == opening("update "@, tokens::word(Keyword::Update)),
        readable(x, names),
{
    reveal_strlit("update ");
    reveal_strlit("update");
    lemma_keywords();
    assert("update "@ =~= "update"@ + seq![' ']);
    lemma_word_blank("update "@, "update"@, Keyword::Update, names);
    opening("update "@, tokens::word(Keyword::Update))
}

/// The text ` then `, which stands between two constructs.
pub proof fn text_then(names: Seq<Seq<char>>) -> (x: PieceV)
    ensures
        x == link(" then "@, tokens::word(Keyword::Then)),
        readable(x, names),
{
    reveal_strlit(" then ");
    reveal_strlit("then");
    lemma_keywords();
    assert(" then "@ =~= seq![' '] + ("then"@ + seq![' ']));
    lemma_blank_word(" then "@, "then"@, Keyword::Then, names);
    link(" then "@, tokens::word(Keyword::Then))
}

/// The text ` else `, which stands between two constructs.
pub proof fn text_else(names: Seq<Seq<char>>) -> (x: PieceV)
    ensures
        x == link(" else "@, tokens::word(Keyword::Else)),
        readable(x, names),
{
    reveal_strlit(" else ");
    reveal_strlit("else");
    lemma_keywords();
    assert(" else "@ =~= seq![' '] + ("else"@ + seq![' ']));
    lemma_blank_word(" else "@, "else"@, Keyword::Else, names);
    link(" else "@, tokens::word(Keyword::Else))
}

/// The text ` from `, which stands between two constructs.
pub proof fn text_from(names: Seq<Seq<char>>) -> (x: PieceV)
    ensures
        x == link(" from "@, tokens::word(Keyword::From)),
        readable(x, names),
{
    reveal_strlit(" from ");
    reveal_strlit("from");
    lemma_keywords();
    assert(" from "@ =~= seq![' '] + ("from"@ + seq![' ']));
    lemma_blank_word(" from "@, "from"@, Keyword::From, names);
    link(" from "@, tokens::word(Keyword::From))
}

/// The text ` where `, which stands between two constructs.
pub proof fn text_where(names: Seq<Seq<char>>) -> (x: PieceV)
    ensures
        x == link(" where "@, tokens::word(Keyword::Where)),
        readable(x, names),
{
    reveal_strlit(" where ");
    reveal_strlit("where");
    lemma_keywords();
    assert(" where "@ =~= seq![' '] + ("where"@ + seq![' ']));
    lemma_blank_word(" where "@, "where"@, Keyword::Where, names);
    link(" where "@, tokens::word(Keyword::Where))
}

/// The text ` into `, which stands between two constructs.
pub proof fn text_into(names: Seq<Seq<char>>) -> (x: PieceV)
    ensures
        x == link(" into "@, tokens::word(Keyword::Into)),
        readable(x, names),
{
    reveal_strlit(" into ");
    reveal_strlit("into");
    lemma_keywords();
    assert(" into "@ =~= seq![' '] + ("into"@ + seq![' ']));
    lemma_blank_word(" into "@, "into"@, Keyword::Into, names);
    link(" into "@, tokens::word(Keyword::Into))
}

/// The text `fold(`, which opens a construct.
pub proof fn text_fold(names: Seq<Seq<char>>) -> (x: PieceV)
    ensures
        x == opening("fold("@, tokens::word(Keyword::Fold) + tokens::mark(Punct::LParen)),
        readable(x, names),
{
    reveal_strlit("fold(");
    reveal_strlit("fold");
    lemma_keywords();
    assert("fold("@ =~= "fold"@ + seq!['(']);
    lemma_word_bracket("fold("@, "fold"@, Keyword::Fold, names);
    opening("fold("@, tokens::word(Keyword::Fold) + tokens::mark(Punct::LParen))
}

/// The text `assert(`, which opens a construct.
pub proof fn text_assert(names: Seq<Seq<char>>) -> (x: PieceV)
    ensures
        x == opening("assert("@, tokens::word(Keyword::Assert) + tokens::mark(Punct::LParen)),
        readable(x, names),
{
    reveal_strlit("assert(");
    reveal_strlit("assert");
    lemma_keywords();
    assert("assert("@ =~= "assert"@ + seq!['(']);
    lemma_word_bracket("assert("@, "assert"@, Keyword::Assert, names);
    opening("assert("@, tokens::word(Keyword::Assert) + tokens::mark(Punct::LParen))
}

/// The text `, `, which stands between two constructs.
pub proof fn text_comma(names: Seq<Seq<char>>) -> (x: PieceV)
    ensures
        x == link(", "@, tokens::mark(Punct::Comma)),
        readable(x, names),
{
    reveal_strlit(", ");
    lemma_mark_blank(", "@, Punct::Comma, names);
    link(", "@, tokens::mark(Punct::Comma))
}

/// The text `: `, which stands between two constructs.
pub proof fn text_colon(names: Seq<Seq<char>>) -> (x: PieceV)
    ensures
        x == link(": "@, tokens::mark(Punct::Colon)),
        readable(x, names),
{
    reveal_strlit(": ");
    lemma_mark_blank(": "@, Punct::Colon, names);
    link(": "@, tokens::mark(Punct::Colon))
}

/// The text `;`, which closes a construct.
pub proof fn text_semi(names: Seq<Seq<char>>) -> (x: PieceV)
    ensures
        x == closing(";"@, tokens::mark(Punct::Semi)),
        readable(x, names),
{
    reveal_strlit(";");
    lemma_mark_alone(";"@, Punct::Semi, names);
    closing(";"@, tokens::mark(Punct::Semi))
}

/// The text `.`, which stands between two constructs.
pub proof fn text_dot(names: Seq<Seq<char>>) -> (x: PieceV)
    ensures
        x == link("."@, tokens::mark(Punct::Dot)),
        readable(x, names),
{
    reveal_strlit(".");
    lemma_mark_alone("."@, Punct::Dot, names);
    link("."@, tokens::mark(Punct::Dot))
}

/// The text `(`, which opens a construct.
pub proof fn text_open(names: Seq<Seq<char>>) -> (x: PieceV)
    ensures
        x == opening("("@, tokens::mark(Punct::LParen)),
        readable(x, names),
{
    reveal_strlit("(");
    lemma_mark_alone("("@, Punct::LParen, names);
    opening("("@, tokens::mark(Punct::LParen))
}

/// The text `(`, which stands between two constructs.
pub proof fn text_open_args(names: Seq<Seq<char>>) -> (x: PieceV)
    ensures
        x == link("("@, tokens::mark(Punct::LParen)),
        readable(x, names),
{
    reveal_strlit("(");
    lemma_mark_alone("("@, Punct::LParen, names);
    link("("@, tokens::mark(Punct::LParen))
}

/// The text `)`, which closes a construct.
pub proof fn text_close(names: Seq<Seq<char>>) -> (x: PieceV)
    ensures
        x == closing(")"@, tokens::mark(Punct::RParen)),
        readable(x, names),
{
    reveal_strlit(")");
    lemma_mark_alone(")"@, Punct::RParen, names);
    closing(")"@, tokens::mark(Punct::RParen))
}

/// The text `[`, which opens a construct.
pub proof fn text_open_list(names: Seq<Seq<char>>) -> (x: PieceV)
    ensures
        x == opening("["@, tokens::mark(Punct::LBracket)),
        readable(x, names),
{
    reveal_strlit("[");
    lemma_mark_alone("["@, Punct::LBracket, names);
    opening("["@, tokens::mark(Punct::LBracket))
}

/// The text `]`, which closes a construct.
pub proof fn text_close_list(names: Seq<Seq<char>>) -> (x: PieceV)
    ensures
        x == closing("]"@, tokens::mark(Punct::RBracket)),
        readable(x, names),
{
    reveal_strlit("]");
    lemma_mark_alone("]"@, Punct::RBracket, names);
    closing("]"@, tokens::mark(Punct::RBracket))
}

/// The text `fn (`, which opens a construct.
pub proof fn text_fn(names: Seq<Seq<char>>) -> (x: PieceV)
    ensures
        x == opening("fn ("@, tokens::word(Keyword::Fn) + tokens::mark(Punct::LParen)),
        readable(x, names),
{
    reveal_strlit("fn (");
    reveal_strlit("fn");
    lemma_keywords();
    lemma_word_blank("fn"@ + seq![' '], "fn"@, Keyword::Fn, names);
    lemma_scan_mark('(', names);
    lemma_scan_join(
        "fn"@ + seq![' '],
        tokens::word(Keyword::Fn),
        seq!['('],
        tokens::mark(Punct::LParen),
        names,
    );
    assert("fn ("@ =~= "fn"@ + seq![' '] + seq!['(']);
    opening("fn ("@, tokens::word(Keyword::Fn) + tokens::mark(Punct::LParen))
}

/// The text `) => `, which stands between two constructs.
pub proof fn text_arrow_body(names: Seq<Seq<char>>) -> (x: PieceV)
    ensures
        x == link(") => "@, tokens::mark(Punct::RParen) + tokens::mark(Punct::FatArrow)),
        readable(x, names),
{
    reveal_strlit(") => ");
    let none = Seq::<TokenV>::empty();
    lemma_scan_mark(')', names);
    lemma_scan_blank(' ', names);
    lemma_scan_pair('=', '>', names);
    lemma_scan_join(seq![')'], tokens::mark(Punct::RParen), seq![' '], none, names);
    let s1 = seq![')'] + seq![' '];
    let t1 = tokens::mark(Punct::RParen) + none;
    lemma_scan_join(s1, t1, seq!['=', '>'], tokens::mark(Punct::FatArrow), names);
    let s2 = s1 + seq!['=', '>'];
    let t2 = t1 + tokens::mark(Punct::FatArrow);
    lemma_scan_join(s2, t2, seq![' '], none, names);
    assert(") => "@ =~= s2 + seq![' ']);
    assert(tokens::mark(Punct::RParen) + tokens::mark(Punct::FatArrow) =~= t2 + none);
    link(") => "@, tokens::mark(Punct::RParen) + tokens::mark(Punct::FatArrow))
}

/// The text `) -> `, which stands between two constructs.
pub proof fn text_arrow_type(names: Seq<Seq<char>>) -> (x: PieceV)
    ensures
        x == link(") -> "@, tokens::mark(Punct::RParen) + tokens::mark(Punct::Arrow)),
        readable(x, names),
{
    reveal_strlit(") -> ");
    let none = Seq::<TokenV>::empty();
    lemma_scan_mark(')', names);
    lemma_scan_blank(' ', names);
    lemma_scan_pair('-', '>', names);
    lemma_scan_join(seq![')'], tokens::mark(Punct::RParen), seq![' '], none, names);
    let s1 = seq![')'] + seq![' '];
    let t1 = tokens::mark(Punct::RParen) + none;
    lemma_scan_join(s1, t1, seq!['-', '>'], tokens::mark(Punct::Arrow), names);
    let s2 = s1 + seq!['-', '>'];
    let t2 = t1 + tokens::mark(Punct::Arrow);
    lemma_scan_join(s2, t2, seq![' '], none, names);
    assert(") -> "@ =~= s2 + seq![' ']);
    assert(tokens::mark(Punct::RParen) + tokens::mark(Punct::Arrow) =~= t2 + none);
    link(") -> "@, tokens::mark(Punct::RParen) + tokens::mark(Punct::Arrow))
}

/// The text `action { `, which opens a construct.
pub proof fn text_action(names: Seq<Seq<char>>) -> (x: PieceV)
    ensures
        x == opening("action { "@, tokens::word(Keyword::Action) + tokens::mark(Punct::LBrace)),
        readable(x, names),
{
    reveal_strlit("action { ");
    reveal_strlit("action");
    lemma_keywords();
    let none = Seq::<TokenV>::empty();
    lemma_word_blank("action"@ + seq![' '], "action"@, Keyword::Action, names);
    lemma_scan_mark('{', names);
    lemma_scan_blank(' ', names);
    lemma_scan_join(
        "action"@ + seq![' '],
        tokens::word(Keyword::Action),
        seq!['{'],
        tokens::mark(Punct::LBrace),
        names,
    );
    let s1 = "action"@ + seq![' '] + seq!['{'];
    let t1 = tokens::word(Keyword::Action) + tokens::mark(Punct::LBrace);
    lemma_scan_join(s1, t1, seq![' '], none, names);
    assert("action { "@ =~= s1 + seq![' ']);
    assert(tokens::word(Keyword::Action) + tokens::mark(Punct::LBrace) =~= t1 + none);
    opening("action { "@, tokens::word(Keyword::Action) + tokens::mark(Punct::LBrace))
}

/// The text `{ `, which opens a construct.
pub proof fn text_open_brace(names: Seq<Seq<char>>) -> (x: PieceV)
    ensures
        x == opening("{ "@, tokens::mark(Punct::LBrace)),
        readable(x, names),
{
    reveal_strlit("{ ");
    let none = Seq::<TokenV>::empty();
    lemma_scan_mark('{', names);
    lemma_scan_blank(' ', names);
    lemma_scan_join(seq!['{'], tokens::mark(Punct::LBrace), seq![' '], none, names);
    assert("{ "@ =~= seq!['{'] + seq![' ']);
    assert(tokens::mark(Punct::LBrace) =~= tokens::mark(Punct::LBrace) + none);
    opening("{ "@, tokens::mark(Punct::LBrace))
}

/// The text ` { `, which stands between two constructs.
pub proof fn text_brace(names: Seq<Seq<char>>) -> (x: PieceV)
    ensures
        x == link(" { "@, tokens::mark(Punct::LBrace)),
        readable(x, names),
        x.text.last() == ' ',
{
    reveal_strlit(" { ");
    let none = Seq::<TokenV>::empty();
    let y = text_open_brace(names);
    reveal_strlit("{ ");
    lemma_scan_blank(' ', names);
    lemma_scan_join(seq![' '], none, y.text, y.tokens, names);
    assert(" { "@ =~= seq![' '] + "{ "@);
    assert(tokens::mark(Punct::LBrace) =~= none + tokens::mark(Punct::LBrace));
    link(" { "@, tokens::mark(Punct::LBrace))
}

/// The text `};`, which closes a table.
pub proof fn text_end_table(names: Seq<Seq<char>>) -> (x: PieceV)
    ensures
        x == closing("};"@, tokens::mark(Punct::RBrace) + tokens::mark(Punct::Semi)),
        scans(x.text, x.tokens, names),
        x.text.len() == 2,
        x.text[0] == '}',
        x.text[1] == ';',
{
    reveal_strlit("};");
    lemma_scan_mark('}', names);
    lemma_scan_mark(';', names);
    lemma_scan_join(
        seq!['}'],
        tokens::mark(Punct::RBrace),
        seq![';'],
        tokens::mark(Punct::Semi),
        names,
    );
    assert("};"@ =~= seq!['}'] + seq![';']);
    closing("};"@, tokens::mark(Punct::RBrace) + tokens::mark(Punct::Semi))
}

/// The text ` }`, which closes a construct.
pub proof fn text_end_action(names: Seq<Seq<char>>) -> (x: PieceV)
    ensures
        x == closing(" }"@, tokens::mark(Punct::RBrace)),
        readable(x, names),
{
    reveal_strlit(" }");
    let none = Seq::<TokenV>::empty();
    lemma_scan_blank(' ', names);
    lemma_scan_mark('}', names);
    lemma_scan_join(seq![' '], none, seq!['}'], tokens::mark(Punct::RBrace), names);
    assert(" }"@ =~= seq![' '] + seq!['}']);
    assert(tokens::mark(Punct::RBrace) =~= none + tokens::mark(Punct::RBrace));
    closing(" }"@, tokens::mark(Punct::RBrace))
}

/// The text `);`, which closes a construct.
pub proof fn text_end_assert(names: Seq<Seq<char>>) -> (x: PieceV)
    ensures
        x == closing(");"@, tokens::mark(Punct::RParen) + tokens::mark(Punct::Semi)),
        readable(x, names),
{
    reveal_strlit(");");
    lemma_scan_mark(')', names);
    lemma_scan_mark(';', names);
    lemma_scan_join(
        seq![')'],
        tokens::mark(Punct::RParen),
        seq![';'],
        tokens::mark(Punct::Semi),
        names,
    );
    assert(");"@ =~= seq![')'] + seq![';']);
    closing(");"@, tokens::mark(Punct::RParen) + tokens::mark(Punct::Semi))
}

/// The text ` {\n  `, which stands between two constructs.
pub proof fn text_block(names: Seq<Seq<char>>) -> (x: PieceV)
    ensures
        x == link(" {\n  "@, tokens::mark(Punct::LBrace)),
        readable(x, names),
{
    reveal_strlit(" {\n  ");
    let none = Seq::<TokenV>::empty();
    lemma_scan_blank(' ', names);
    lemma_scan_mark('{', names);
    lemma_scan_blank('\n', names);
    lemma_scan_join(seq![' '], none, seq!['{'], tokens::mark(Punct::LBrace), names);
    let s1 = seq![' '] + seq!['{'];
    let t1 = none + tokens::mark(Punct::LBrace);
    lemma_scan_join(s1, t1, seq!['\n'], none, names);
    let s2 = s1 + seq!['\n'];
    let t2 = t1 + none;
    lemma_scan_join(s2, t2, seq![' '], none, names);
    let s3 = s2 + seq![' '];
    let t3 = t2 + none;
    lemma_scan_join(s3, t3, seq![' '], none, names);
    assert(" {\n  "@ =~= s3 + seq![' ']);
    assert(tokens::mark(Punct::LBrace) =~= t3 + none);
    link(" {\n  "@, tokens::mark(Punct::LBrace))
}

/// The start of a line, which stands between two constructs.
pub proof fn text_line(names: Seq<Seq<char>>) -> (x: PieceV)
    ensures
        x == link("\n  "@, Seq::empty()),
        readable(x, names),
{
    reveal_strlit("\n  ");
    let none = Seq::<TokenV>::empty();
    lemma_scan_blank('\n', names);
    lemma_scan_blank(' ', names);
    lemma_scan_join(seq!['\n'], none, seq![' '], none, names);
    let s1 = seq!['\n'] + seq![' '];
    let t1 = none + none;
    lemma_scan_join(s1, t1, seq![' '], none, names);
    assert("\n  "@ =~= s1 + seq![' ']);
    assert(none =~= t1 + none);
    link("\n  "@, Seq::empty())
}

/// The text `\n}`, which closes a construct.
pub proof fn text_end_block(names: Seq<Seq<char>>) -> (x: PieceV)
    ensures
        x == closing("\n}"@, tokens::mark(Punct::RBrace)),
        readable(x, names),
{
    reveal_strlit("\n}");
    let none = Seq::<TokenV>::empty();
    lemma_scan_blank('\n', names);
    lemma_scan_mark('}', names);
    lemma_scan_join(seq!['\n'], none, seq!['}'], tokens::mark(Punct::RBrace), names);
    assert("\n}"@ =~= seq!['\n'] + seq!['}']);
    assert(tokens::mark(Punct::RBrace) =~= none + tokens::mark(Punct::RBrace));
    closing("\n}"@, tokens::mark(Punct::RBrace))
}

/// The text ` = `, which stands between two constructs.
pub proof fn text_equals(names: Seq<Seq<char>>) -> (x: PieceV)
    ensures
        x == link(" = "@, tokens::mark(Punct::Eq)),
        readable(x, names),
{
    reveal_strlit(" = ");
    let none = Seq::<TokenV>::empty();
    lemma_scan_blank(' ', names);
    lemma_scan_mark('=', names);
    lemma_scan_join(seq![' '], none, seq!['='], tokens::mark(Punct::Eq), names);
    let s1 = seq![' '] + seq!['='];
    let t1 = none + tokens::mark(Punct::Eq);
    lemma_scan_join(s1, t1, seq![' '], none, names);
    assert(" = "@ =~= s1 + seq![' ']);
    assert(tokens::mark(Punct::Eq) =~= t1 + none);
    link(" = "@, tokens::mark(Punct::Eq))
}

/// The text `..`, which stands between two constructs.
pub proof fn text_dots(names: Seq<Seq<char>>) -> (x: PieceV)
    ensures
        x == link(".."@, tokens::mark(Punct::DotDot)),
        readable(x, names),
{
    reveal_strlit("..");
    lemma_scan_pair('.', '.', names);
    assert(".."@ =~= seq!['.', '.']);
    link(".."@, tokens::mark(Punct::DotDot))
}

/// A blank, which stands between two constructs.
pub proof fn text_space(names: Seq<Seq<char>>) -> (x: PieceV)
    ensures
        x == link(" "@, Seq::empty()),
        readable(x, names),
{
    reveal_strlit(" ");
    lemma_scan_blank(' ', names);
    assert(" "@ =~= seq![' ']);
    link(" "@, Seq::empty())
}

} // verus!
