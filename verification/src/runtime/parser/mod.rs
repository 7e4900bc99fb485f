//! The parser: source text to syntax trees.

use vstd::prelude::*;

use crate::runtime::ast::{Stmt, StmtV};
use crate::runtime::interner::Interner;
use crate::runtime::parser::grammar::parse_program;
use crate::runtime::parser::lex::tokenize;
use crate::runtime::text;
use crate::runtime::text::nat_to_string;
use crate::runtime::tt::types;

pub mod grammar;
pub mod lex;
pub mod precedence;

verus! {

/// What is reported of a character that starts no token.
pub open spec fn bad_character(p: int) -> Seq<char> {
    "Parse error: unexpected character at position "@ + text::nat_text(p as nat)
}

/// What is reported of a token that fits nothing.
pub open spec fn bad_token(p: int) -> Seq<char> {
    "Parse error: unexpected token at position "@ + text::nat_text(p as nat)
}

/// The program that a text writes, or what is wrong with it. `names` are the names interned
/// before.
pub open spec fn parsed(input: Seq<char>, names: Seq<Seq<char>>) -> Result<
    Seq<StmtV>,
    Seq<char>,
> {
    let l = lex::lexed(input, names);
    match l.tokens {
        Err(p) => Err(bad_character(p)),
        Ok(tokens) => match grammar::g_program(tokens, 0, l.names, Seq::empty()) {
            Err(p) => Err(bad_token(p)),
            Ok(stmts) => Ok(stmts),
        },
    }
}

/// Parse a program. Its names are interned.
pub fn parse_string(input: &str, interner: &mut Interner) -> (res: Result<Vec<Stmt>, String>)
    ensures
        final(interner)@ == lex::lexed(input@, old(interner)@).names,
        res matches Ok(stmts) ==> grammar::imports_known(
            types::views(stmts@),
            final(interner)@,
        ),
        match res {
            Ok(stmts) => parsed(input@, old(interner)@) == Ok::<Seq<StmtV>, Seq<char>>(
                types::views(stmts@),
            ),
            Err(e) => parsed(input@, old(interner)@) == Err::<Seq<StmtV>, Seq<char>>(e@),
        },
{
    match tokenize(input, interner) {
        Err(p) => {
            let mut msg = "Parse error: unexpected character at position ".to_owned();
            msg.append(nat_to_string(p as u64).as_str());
            Err(msg)
        },
        Ok(tokens) => match parse_program(&tokens, interner) {
            Err(p) => {
                let mut msg = "Parse error: unexpected token at position ".to_owned();
                msg.append(nat_to_string(p as u64).as_str());
                Err(msg)
            },
            Ok(stmts) => Ok(stmts),
        },
    }
}

} // verus!
