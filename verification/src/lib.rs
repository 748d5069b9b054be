//! An in-memory database that speaks enough of Oracle's SQL, PL/SQL and wire
//! protocol to stand in for a server in tests.

pub mod amounts;
pub mod ast;
pub mod builtins;
pub mod catalog;
pub mod conditions;
pub mod dates;
pub mod datetime;
pub mod ddl;
pub mod definitions;
pub mod dml;
pub mod engine;
pub mod env;
pub mod error;
pub mod eval;
pub mod formats;
pub mod functions;
pub mod lexer;
pub mod literals;
pub mod number;
pub mod numfmt;
pub mod parser;
pub mod plsql;
pub mod replies;
pub mod rows;
pub mod script;
pub mod server;
pub mod session;
pub mod snapshot;
pub mod store;
pub mod strings;
pub mod text;
pub mod tree;
pub mod txn;
pub mod undoing;
pub mod value;
pub mod visibility;
