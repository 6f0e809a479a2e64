use vstd::prelude::*;

pub mod browser;
pub mod clock;
pub mod component;
pub mod ids;
pub mod json;
pub mod orchestration;
pub mod provider;
pub mod security;
pub mod session;
pub mod table;
pub mod terminal;
pub mod text;

verus! {
} // verus!
