pub mod path;
pub mod array_index;
pub mod value;
pub mod ops;
pub mod formatter;
pub mod locate;
pub mod mutate;
pub mod resp;
pub mod compile;
pub mod engine;
pub mod literal;
