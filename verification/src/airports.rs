//! Airport data: airports and runways.

pub mod airports;
pub mod runways;
