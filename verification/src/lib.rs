pub mod capture;
pub mod envelope;
pub mod identity;
pub mod memory;
pub mod model;
pub mod scalar;
pub mod search;
pub mod text;
pub mod ui;
