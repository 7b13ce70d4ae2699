//! Lexing/parsing front end of a command-line interpreter.
//!
//! Raw textual input (one logical statement, possibly several physical lines)
//! is tokenized into a stream that honors quoting, escaping, comments and
//! nested command substitutions, then run through a fixed pipeline of stages
//! (expansion resolution, field splitting, pathname expansion, final assembly)
//! to produce the list of words of the command, or an explicit failure.
//!
//! Every executable function is specified against a ghost mirror of itself:
//! a spec function over `Seq<char>` and ghost token values that defines, for
//! every input, exactly which outcome the function returns.
use vstd::prelude::*;

pub mod ast;
pub mod tokenize;
pub mod pipeline;
pub mod laws;

pub use ast::{DQToken, ExpToken, ParseOp, ParseRes, Parsed, Token};
pub use tokenize::{
    parse_comment, parse_double_quoted_expr, parse_dollar_expr, parse_single_quoted_expr,
    parse_subcommand, parse_unquoted, parse_arith_expr, parse_bracketed_param,
    parse_dollar_paren_expr, parse_unbracketed_param,
};
pub use pipeline::{
    expand_arith, expand_param, expr_expansion, field_splitting, pathname_expansion,
    process_and_exec, process_tokens, to_parsed_form,
};

use ast::{strings_view, SpecOutcome};
use tokenize::{spec_unquoted, str_chars};
use pipeline::spec_process_tokens;

verus! {

/// Ghost mirror of `parse_command`: tokenize the whole input from the start
/// (not in a sub-scope), then run the token stream through the pipeline.
pub open spec fn spec_parse_command(s: Seq<char>) -> SpecOutcome<Seq<Seq<char>>> {
    match spec_unquoted(s, 0, Seq::empty(), Seq::empty(), false) {
        SpecOutcome::Done((toks, _rest)) => spec_process_tokens(toks),
        SpecOutcome::More => SpecOutcome::More,
        SpecOutcome::Fail(m) => SpecOutcome::Fail(m),
    }
}

/// Parse one raw command line into its final word list.
///
/// The outcome is exactly what the ghost mirror `spec_parse_command` assigns
/// to the input text: `Success(Sentence(words))` when the statement is
/// complete and every stage succeeds, `Incomplete` when more input is needed,
/// and `Invalid(message)` on a syntax error or an unsupported construct.
pub fn parse_command(text: &str) -> (res: ParseRes<Parsed>)
    ensures
        ({
            let m = spec_parse_command(text@);
            match res {
                ParseRes::Success(p) => p matches Parsed::Sentence(ws)
                    && m == SpecOutcome::<Seq<Seq<char>>>::Done(strings_view(ws@)),
                ParseRes::Incomplete => m is More,
                ParseRes::Invalid(e) => m matches SpecOutcome::Fail(em) && e@ == em,
            }
        }),
{
    let chars = str_chars(text);
    match parse_unquoted(&chars, 0, String::new(), Vec::new(), false) {
        ParseRes::Success((ast, _rest)) => process_tokens(ast),
        ParseRes::Incomplete => ParseRes::Incomplete,
        ParseRes::Invalid(e) => ParseRes::Invalid(e),
    }
}

} // verus!
