//! Columns of values and the decisions an embedded analytical database takes around them.

pub mod answers;
pub mod appender;
pub mod bits;
pub mod cache;
pub mod checkpoint;
pub mod config;
pub mod data;
pub mod database;
pub mod execute;
pub mod facts;
pub mod fsst;
pub mod links;
pub mod meter;
pub mod naming;
pub mod native;
pub mod plan;
pub mod result;
pub mod route;
pub mod rows;
pub mod scan;
pub mod shape;
pub mod sink;
pub mod spelling;
pub mod statement;
pub mod steps;
pub mod strings;
pub mod tally;
pub mod text;
pub mod transaction;
pub mod types;
pub mod upsert;
pub mod validity;
pub mod vector;

pub use appender::{Appender, WAITING};
pub use bits::{below, extent, Packed, PACKED_WIDTH_MAX};
pub use config::{
    format_size, page_budget, parse_size, size_parts, size_scale, Config, Measured, Timeout,
};
pub use data::{Cell, Data};
pub use fsst::{Coded, SymbolTable};
pub use naming::directory_of;
pub use native::NativeExtremaValues;
pub use result::{single, Chunk, QueryResult};
pub use statement::{
    native_simple_average_statement, native_simple_distinct_statement,
    native_simple_extrema_statement, native_simple_group_count_names,
    native_simple_group_count_statement, native_simple_identifier, native_simple_nonzero_statement,
    native_simple_three_names, native_simple_three_statement, native_simple_unquoted_identifier,
};
pub use strings::{StringColumn, StringView};
pub use text::{search_below, Standing, TextRows, TextSource};
pub use types::{
    About, Datum, Error, ErrorCode, Failure, Field, LogicalType, PhysicalType, Subject, Value,
};
pub use validity::Validity;
pub use vector::{Body, Form, Vector, MAP_KEY, MAP_VALUE, NO_ROW, VECTOR_SIZE};
