//! A verified reader for the TZif time zone format.

pub mod bytes;
pub mod calls;
pub mod error;
pub mod file_calls;
pub mod header;
pub mod laws;
pub mod layout;
pub mod model;
pub mod parse;
pub mod part_calls;
pub mod raw;
pub mod text;
pub mod zone;

pub use crate::bytes::{
    from_be_bytes_i32, from_be_bytes_i64, from_be_bytes_u32, from_be_bytes_u32_to_usize,
    try_split_at,
};
pub use crate::error::Error;
pub use crate::header::Header;
pub use crate::parse::check_posix_tz;
pub use crate::zone::{
    PosixDay, PosixDayTime, PosixDst, PosixRule, PosixTimeZone, TzifFixed, TzifIndicator,
    TzifLocalTimeType, TzifOwned, TzifTransition,
};
