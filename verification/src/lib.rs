pub mod domain;
pub mod engine;
pub mod infrastructure;
pub mod std_text;
pub mod strmap;
pub mod text;
pub mod tools;
pub mod utf8_len;
pub mod workspace;
pub mod pattern;
pub mod protocol;
pub mod ranking;
