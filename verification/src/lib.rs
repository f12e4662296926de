//! A tick-driven simulation core for a text-driven creature world: an entity
//! store with hierarchical containment, a command parser and validator, and
//! the resolvers that change the world once per tick.

pub mod game;
