//! Resolves one IPv4 address (given, random, or the caller's own public one),
//! validates it against the reserved and special-use ranges, and decides each
//! step of looking it up with a geolocation service.
pub mod address;
pub mod classify;
pub mod error;
pub mod output;
pub mod pipeline;
pub mod random;

pub use address::{format_ip, parse_ip};
pub use classify::is_special_use;
pub use error::RequestError;
pub use output::{Location, OutputJson};
pub use pipeline::{
    on_ip_info, on_public_ip, start, validate_resolved, IpInfo, ResolutionSource, Step,
};
pub use random::generate_random_ip;
