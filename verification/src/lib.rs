//! MonaDB: an embedded document store whose keys use an order-preserving
//! byte encoding, with the SQL front end's expression model, key encoders,
//! builtins and bytecode compiler.
pub mod order;
pub mod keys;
pub mod keycodec;
pub mod value;
pub mod ir;
pub mod error;
pub mod schema;
pub mod same;
pub mod f64bits;
pub mod params;
pub mod config;
pub mod query_options;
pub mod display;
pub mod ddl;
pub mod functions;
pub mod read;
pub mod read_options;
pub mod compiler;
pub mod cursor;
pub mod binder;
pub mod decimal;
pub mod doc;
pub mod lexer;
pub mod highlight;
pub mod rows;
pub mod tabular;
pub mod session;
pub mod cask;
pub mod catalog;
pub mod cache;
pub mod collection;
