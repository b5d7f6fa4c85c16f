pub mod json_parse_error;
pub mod json_parse_options;
pub mod json_value;
pub mod serialize;

pub use json_parse_error::ErrorKind;
pub use json_parse_error::JsonParseError;
pub use json_parse_options::JsonParseOptions;
pub use json_value::JsonValue;
