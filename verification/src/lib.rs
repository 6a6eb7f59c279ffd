pub mod error;
pub mod goojara;
pub mod hashing;
pub mod html;
pub mod pattern;
pub mod request_client;
pub mod text;
pub mod wootly;
