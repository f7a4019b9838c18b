//! Infers, from a sample of the rows of a table, the narrowest Rust type each
//! column can hold and whether the column admits empty values, and gathers
//! what code generation needs besides: column names, the distinct values of
//! string columns, and documentation merged by column name.
pub mod column;
pub mod err;
pub mod generate_csv;
pub mod input_args;
pub mod literal;
mod text;
pub mod util;
