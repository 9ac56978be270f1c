//! Small verified data structures and algorithms: a singly linked list,
//! counters, vector and pair arithmetic, slice helpers, string puzzles,
//! a toy account ledger and the text logic of a schedule bot.
pub mod linked_list;
pub mod text;
pub mod pets;
pub mod arith;
pub mod pairs;
pub mod vec3;
pub mod counters;
pub mod counters_by;
pub mod slices;
pub mod borrows;
pub mod items;
pub mod storage;
pub mod vec2;
pub mod matrix;
pub mod puzzles;
pub mod accounts;
pub mod func_names;
pub mod json;
pub mod schedule;
pub mod ids;
pub mod bank;
pub mod fizzbuzz;

