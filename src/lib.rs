//! A vector whose length never exceeds a bound fixed in its type, together
//! with the length-prefixed encoding it is stored in and a way to append to
//! such a vector in storage without decoding what is already there.

pub mod bounded;
pub mod compact;
pub mod store;

pub use bounded::BoundedVec;
pub use compact::{decode_len, encode_counted, DecodeError};
pub use store::{
    count_from_head, double_map_key, map_key, may_append, stored_len, try_append_at,
    try_append_double_map, try_append_map, try_append_value,
};
