//! Calculators and the SEML scenario parser for the Plants vs. Zombies
//! survival-endless toolkit, with their behaviour stated as Verus contracts.
use vstd::prelude::*;

pub mod calc;
pub mod emulator;
pub mod output;
pub mod printer;
pub mod reply;
pub mod seml;
pub mod tables;
pub mod text;
pub mod zmc;

verus! {

} // verus!
