//! What gadgets are composed against.
pub mod traits;
