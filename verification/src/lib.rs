//! Measuring the true bounding box of the Windows mouse pointer from its
//! bitmaps: the monochrome and colour masks that `GetIconInfo` hands out, and
//! the pointer shape that DXGI desktop duplication captures.
#![allow(non_camel_case_types)]

pub mod pixel;
pub mod bits;
pub mod geometry;
pub mod extent;
pub mod error;
pub mod scale;
pub mod bitmap;
pub mod shape;
pub mod text;
pub mod kinds;
pub mod ffi;
pub mod rows;
pub mod drawing;
