//! Grid and cell-graph logic of a maze game: directions, cells connected
//! through their faces, rooms, line-of-sight visibility, movement decisions
//! and the construction of the maze.

pub mod direction;
pub mod edge;
pub mod cell;
pub mod graph;
pub mod room;
pub mod movement;
pub mod visibility;
pub mod wall;
pub mod config;
pub mod maze;
