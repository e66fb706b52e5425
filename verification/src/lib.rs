pub mod balanced;
pub mod char_class;
pub mod expression_parser;
pub mod laws;
pub mod lex_spec;
pub mod lexical_analyzer;
pub mod node;
pub mod parse_spec;
pub mod text;
pub mod token;
