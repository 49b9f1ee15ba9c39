pub mod chars;
pub mod context;
pub mod desk;
pub mod diff;
pub mod sheet;
pub mod text;
