//! A small grid world and a tabular SARSA learner that walks it.
//!
//! The environment (`grid`) owns a fixed board and the agent's position and
//! computes transitions and rewards; the learner (`learner`) keeps the
//! action-value table, picks greedy actions and stores updated estimates.
//! Estimates are single-precision numbers held by their IEEE-754 bit
//! patterns; the arithmetic of an update is supplied by the caller.

pub mod board;
pub mod cell;
pub mod direction;
pub mod grid;
pub mod learner;
