use vstd::prelude::*;

mod compiler;
mod error;
mod extras;
mod laws;
mod lex;
mod rule;
mod template;
mod token;
mod tokenizer;
mod unit;

pub use compiler::AST;
pub use error::{Outcome, Response, SpecPartial, SpecResponse, TokenizerError, TokenizerErrorValue};
pub use extras::{
    is_alnum_char, is_alpha_char, is_digit_char, is_space_char, lower_of, spec_is_lowercase,
    spec_is_uppercase, spec_split_ws, upper_of, StringExtras,
};
pub use laws::{
    lemma_first_match_wins, lemma_indentation_depth, lemma_no_matching_rule_is_fatal,
    lemma_round_trip_capture, lemma_tokenize_deterministic,
};
pub use lex::{spec_tokenize, LexState};
pub use rule::{Alias, Rule, Segment, SpecAlias, SpecRule, SpecSegment, SpecVariant, Variant};
pub use template::{spec_parse_template, SpecTemplate, Template};
pub use token::{spec_token_matches, PartialToken, SpecToken, Token, TokenIterator, Type};
pub use tokenizer::{spec_comment_delims, spec_string_delims, Source, SpecSource};
pub use unit::{
    spec_build, spec_check_rule, spec_check_variant, spec_parse_loop, Node, Path, SpecNode,
    SpecPath, Unit, MATCH_DEPTH,
};

verus! {

} // verus!
