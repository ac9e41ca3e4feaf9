//! Bots on a grid, each driven by a small program.
//!
//! A bot program is line-based text over eight keywords. It is compiled once
//! into a flat list of instructions in which loops and conditionals have
//! become jumps, and then run one instruction per tick. The grid owns the
//! bots and the walls, tells each bot whether the cell ahead is free, and
//! applies the action the bot answers with.
//!
//! Every function states what it computes over the mathematical models in
//! [`program`], [`lexer`], [`compiler`] and [`grid`]. How the blocks of the
//! source lie in the compiled program is worked out in [`nesting`], the
//! crate's laws are proved in [`laws`], and [`patrol`] follows one program,
//! a bot that walks until it is blocked and then turns, through its run.
//!
//! Chance enters in three places: a bot's random turn, the cell and the
//! direction a new bot gets, and the cells that random walls go to. Beside
//! the functions that draw stand functions that take what was drawn as an
//! argument: [`Bot::do_step_with`], [`Field::do_bot_step_with`] and
//! [`Field::step_with`] take the coins, [`Field::nth_empty_cell`] takes the
//! number of the cell, and [`BotWrapper::with_color`], [`Field::place_bot`]
//! and [`Field::turn_wall`] put a bot or a wall where the caller says. With
//! them a run can be replayed from what was drawn.

pub mod bot;
pub mod compiler;
pub mod error;
pub mod field;
pub mod grid;
pub mod laws;
pub mod lexer;
pub mod nesting;
pub mod patrol;
pub mod program;
mod random;

pub use bot::Bot;
pub use error::{CompileError, CompileFailure};
pub use field::{BotWrapper, Field, FieldCellState};
pub use grid::{CellContent, DirectionEnum, FieldState, Placement};
pub use program::{BotActionEnum, BotState, CommandEnum, OpCodeEnum, ParserStateEnum};
