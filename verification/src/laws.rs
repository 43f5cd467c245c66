//! What holds of the operations, said of what goes in and what comes out.

pub mod aftermath;
pub mod answering;
pub mod applying;
pub mod arranging;
pub mod asking;
pub mod commands;
pub mod comparing;
pub mod entries;
pub mod extensions;
pub mod fields;
pub mod gathering;
pub mod groups;
pub mod inserting;
pub mod languages;
pub mod moving;
pub mod picking;
pub mod planning;
pub mod problems;
pub mod reach;
pub mod replacing;
pub mod repository;
pub mod restoring;
pub mod saving;
pub mod searching;
pub mod streams;
pub mod windows;
pub mod words;
