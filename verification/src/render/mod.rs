//! Writing a render tree out.

pub mod html;
