//! GPU mode switching for NVIDIA Optimus laptops: the decisions and the
//! configuration text, verified.

pub mod config;
pub mod detector;
pub mod error;
pub mod num;
pub mod table;
pub mod text;
pub mod cache;
pub mod cli;
pub mod graphics;
pub mod helper;
pub mod power;
