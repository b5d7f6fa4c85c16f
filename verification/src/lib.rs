//! A JSON decoding and encoding library: a recursive-descent parser with
//! positional error reporting, and a canonical serializer. Numbers keep
//! the literal text they were written with; parsing and serialization are
//! specified against a mathematical grammar, and serializing any
//! well-formed value and parsing the result is proved to return the value
//! again.

pub mod model;
pub mod parser;
pub mod round_trip;
pub mod text;

pub use model::JsonParseError;
pub use model::JsonParseOptions;
pub use model::JsonValue;
pub use parser::parse_array;
pub use parser::parse_bool;
pub use parser::parse_json;
pub use parser::parse_key_value_pair;
pub use parser::parse_null;
pub use parser::parse_number;
pub use parser::parse_object;
pub use parser::parse_string;
pub use parser::parse_value;
