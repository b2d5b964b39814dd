//! A sparse simulation of Conway's Game of Life on the unbounded integer
//! lattice, together with a coarse chunk index that lets point queries reject
//! regions far from any live cell without scanning the population.

pub mod coord;
pub mod grid;
pub mod rules;
mod sorted;
