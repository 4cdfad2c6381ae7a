//! Sudoku validity as an arithmetic circuit: the constraints that a witness of
//! a puzzle grid and a solution grid must meet, and their evaluation.

pub mod acceptance;
pub mod cells;
pub mod circuit;
pub mod gate;
pub mod grid;
pub mod region;
pub mod satisfaction;
pub mod sudoku;
