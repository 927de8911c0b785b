//! Core logic of the TapCode language-learning app.
use vstd::prelude::*;

pub mod component_logic;
pub mod compose;
pub mod engine;
pub mod lesson;
pub mod models;
pub mod onboarding;
pub mod rust_pack;
pub mod services;
pub mod state;
pub mod text;
pub mod validator;
pub mod views;

verus! {

} // verus!
