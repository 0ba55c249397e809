//! Grouping and shape dispatch for `application/x-www-form-urlencoded`
//! pairs, and the one-level sequence emission rule of the encoder.

pub mod de;
pub mod encode;
pub mod error;
pub mod group;
pub mod laws;
pub mod ser;
pub mod val_or_vec;

pub use de::decode;
pub use encode::{encode, encode_value, Value};
pub use error::Error;
pub use group::group_pairs;
pub use de::strip_brackets;
pub use ser::ValueSink;
pub use val_or_vec::{Request, Route, RouteView, ValOrVec};
