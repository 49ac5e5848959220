pub mod gui;
pub mod symbols;
pub mod translations;
