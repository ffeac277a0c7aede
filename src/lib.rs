pub mod log;
pub mod text;
pub mod keys;
pub mod controller;

pub use controller::App;
