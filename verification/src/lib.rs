//! Flat message buffers: types whose values occupy a single contiguous byte area.
#![allow(unused_imports)]

pub mod channel;
pub mod error;
pub mod flex;
pub mod iter;
pub mod mem;
pub mod portable;
pub mod primitive;
pub mod string;
pub mod traits;
pub mod utils;
pub mod vec;
pub mod wrap;
