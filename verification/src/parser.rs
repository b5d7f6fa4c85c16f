pub(crate) mod raw;

pub mod array;
pub mod bool;
pub mod grammar;
pub mod json;
pub mod key_value;
pub mod object;
pub mod value;
pub mod null;
pub mod number;
pub mod string;

pub use array::parse_array;
pub use bool::parse_bool;
pub use json::parse_json;
pub use key_value::parse_key_value_pair;
pub use object::parse_object;
pub use value::parse_value;
pub use null::parse_null;
pub use number::parse_number;
pub use string::parse_string;
