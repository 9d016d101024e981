//! Static data-lineage analysis: lineage graph, scanners for SQL, dbt and
//! Python ETL sources, and the queries built on them.

pub mod text;
pub mod chars;
pub mod error;
pub mod node;
pub mod graph;
pub mod reach;
pub mod sql_ast;
pub mod sql_parse;
pub mod colmap;
pub mod pattern;
pub mod sql;
pub mod dbt;
pub mod python;
pub mod scanner;
pub mod lineage;
pub mod assemble;
pub mod query;
pub mod contract;
pub mod diff;
pub mod trace;
pub mod merge;
pub mod dot;
pub mod html;
pub mod output;
pub mod storage;
pub mod commands;
