pub mod anre;
pub mod ast;
pub mod ast_text;
pub mod compile_check;
pub mod compiler;
pub mod error;
pub mod map_text;
pub mod match_length_calculator;
pub mod object_file;
pub mod peekable_iter;
pub mod range;
pub mod text;
pub mod traditional;
pub mod utf8_codepoint_reader;
