pub mod error;
pub mod rational;
pub mod dimension;
pub mod registry;
pub mod unit;
pub mod quantity;
pub mod format;
pub mod power;
