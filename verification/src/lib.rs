//! A batch rename engine: naming templates, collision handling, a staged
//! two-phase executor with rollback, and an undo stack.
//!
//! The engine performs no I/O. Every operation that needs the filesystem is a
//! small state machine: it hands out a request (does this path exist? move this
//! file there), the caller carries it out and hands back the answer. A rename
//! pass goes through three of them:
//!
//! 1. [`engine::Renamer::execute_rename`] expands the template into the new
//!    names and sets up a [`plan::Planner`], which asks about the paths it
//!    needs to know about and yields the batch;
//! 2. an [`executor::Executor`] over that batch asks for the moves of both
//!    phases, and for the moves that put the files back if one fails;
//! 3. [`engine::Renamer::finish_rename`] keeps the record of a committed
//!    batch, from which [`engine::Renamer::undo`] later makes an
//!    [`undo::UndoRun`].
//!
//! What the machines do to a filesystem is stated over a model of it in
//! [`model`] and proved in [`laws`].

pub mod text;
pub mod decimal;
pub mod path;
pub mod template;
pub mod thumbnail;
pub mod batch;
pub mod resolve;
pub mod plan;
pub mod executor;
pub mod undo;
pub mod model;
pub mod laws;
pub mod engine;
