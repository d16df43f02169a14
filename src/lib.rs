//! A small ECMAScript module flattener: resolves `import` specifiers, reads
//! `export` declarations out of module text, strips module syntax and
//! assembles one flat script that an engine without modules can run.

mod text;
pub mod declarations;
pub mod strip;
pub mod resolve;
pub mod bundle;
pub mod laws;
pub mod http;
pub mod console;
pub mod repl;
