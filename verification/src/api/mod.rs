pub mod dcu;
pub mod guest;
pub mod launch;
