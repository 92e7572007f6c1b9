//! Verified core of a fixed-size vibe-field engine: the boundary scheme of the
//! discrete diffusion operator and the order decisions (extremum and dominant
//! bin selection) that the field and spectrum operations make.
#![allow(unused_imports)]

pub mod diffusion;
pub mod order;
pub mod spectrum;
