pub mod auth;
pub mod client;
pub mod encoding;
pub mod error;
pub mod multisets;
pub mod paging;
pub mod params;
pub mod text;
pub mod users;
