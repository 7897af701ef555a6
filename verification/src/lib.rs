use vstd::prelude::*;

pub mod text;
pub mod types;
pub mod employee;
pub mod clock;
pub mod schedule;
pub mod random;
pub mod generator;
pub mod engine;
pub mod mentorship;
pub mod numbers;
pub mod records;
pub mod secrets;
pub mod attendance_table;
pub mod modals;
pub mod toasts;
pub mod top_bar;
pub mod ui;
pub mod roster;
pub mod controller;
pub mod excel;
pub mod pdf;
pub mod llm;
pub mod history;
pub mod storage;
pub mod laws;

verus! {
} // verus!
