//! What the library does, said of inputs and results alone: how results relate to what went in and
//! to each other, without the definitions that the contracts are written with.
pub mod documents;
pub mod flights;
pub mod frontends;
pub mod geometry;
pub mod numbers;
pub mod settings;
pub mod spotting;
pub mod texts;
