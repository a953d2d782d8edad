//! Shared variables, embedded Python commands and script preprocessing for a shell.

pub mod block_laws;
pub mod blocks;
pub mod cancel;
pub mod command_laws;
pub mod dedent;
pub mod dedent_laws;
pub mod effective;
pub mod env;
pub mod error;
pub mod family;
pub mod indexed;
pub mod journal;
pub mod layout;
pub mod name_map;
pub mod parser;
pub mod parser_laws;
pub mod py;
pub mod py_laws;
pub mod python;
pub mod results;
pub mod shared;
pub mod shared_memory;
pub mod shell;
pub mod shell_laws;
pub mod store_laws;
pub mod text;
pub mod text_laws;
pub mod tokenizer;
pub mod variables;
pub mod view_laws;
