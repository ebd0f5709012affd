//! Verified building blocks for line-oriented text utilities.
//!
//! The centre of the crate is [`commr`], a comparator for two sorted streams
//! of lines; the other modules hold the text logic of smaller utilities.

pub mod calr;
pub mod catr;
pub mod commr;
pub mod cutr;
pub mod echor;
pub mod findr;
pub mod fortuner;
pub mod grepr;
pub mod headr;
pub mod lsr;
pub mod number;
pub mod order;
pub mod pattern;
pub mod tailr;
pub mod text;
pub mod uniqr;
pub mod wcr;
