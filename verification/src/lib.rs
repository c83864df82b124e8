//! Skills, kept in one store and shared out to the agents that use them.
//!
//! A skill is a directory with a marker file, `SKILL.md`, at its top. The
//! library finds the skills that lie with the agents, decides which of two
//! copies of a skill is kept, copies and moves directory trees without
//! running in circles or into itself, and brings a skill from the store to
//! the agents it is enabled for, telling of its progress on the way.
//!
//! The library does not touch the disk. Where work on disk is to be done,
//! it says what is to be done, takes what came of it, and says what comes
//! next: see `copy`, `relocate`, `scan`, `collect`, `distribute` and
//! `fanout`. What such work leaves behind on the disk is shown on a model
//! of the disk in `copy_model` and `scan_model`.

pub mod clock;
pub mod collect;
pub mod contributors;
pub mod copy;
pub mod copy_model;
pub mod distribute;
pub mod error;
pub mod fanout;
pub mod frontmatter;
pub mod install;
pub mod lines;
pub mod listing;
pub mod models;
pub mod names;
pub mod order;
pub mod paths;
pub mod progress;
pub mod quality;
pub mod relocate;
pub mod scan;
pub mod scan_model;
pub mod text;
pub mod tree;
