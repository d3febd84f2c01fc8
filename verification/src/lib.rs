#![allow(non_snake_case)]
#![allow(non_camel_case_types)]

pub mod number;
pub mod owned;
pub mod pipeline;
pub mod rwlock;
pub mod single;
pub mod text;
