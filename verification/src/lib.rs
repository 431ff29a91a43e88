//! Segmented-memory address translation practice: number conversions between
//! bases, random generation of a segmented memory layout, the translation of
//! virtual addresses to physical addresses, and the text of the questions,
//! worked solutions and answer checks that a student is shown.

pub mod digits;
pub mod lib_fns;
pub mod random;
pub mod segments;
pub mod questions;
pub mod solutions;
pub mod answers;
pub mod menus;
pub mod files;
pub mod problems;
pub mod laws;
