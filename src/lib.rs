//! Drives a bilevel pixel display over a one-way serial link: a rotating
//! view reorders decoded image samples, and the frame encoder turns the
//! ordered samples into the paced byte stream the display firmware expects.

pub mod rotate;
pub mod frame;
pub mod image;
pub mod transmit;
