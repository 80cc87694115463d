//! An edit-completion engine for a code editor.
//!
//! The engine ([`zeta::Zeta`]) follows what the user does ([`event`], [`history`]), shows the model
//! the recent events ([`hunk`], [`path`]) and the text around the cursor ([`excerpt`]), and turns
//! the model's answer ([`chat`]) into edits ([`diff`], [`completion`]). A [`provider`] keeps the
//! completion that is on offer in an editor. [`buffer`], [`rows`], [`text`] and [`pattern`] hold
//! what is needed of buffers and strings. [`tasks`] and [`thread_history`] serve two panels of the
//! same editor. [`laws`] and [`trace`] state what holds of these parts together.
pub mod buffer;
pub mod chat;
pub mod completion;
pub mod diff;
pub mod event;
pub mod excerpt;
pub mod history;
pub mod hunk;
pub mod laws;
pub mod path;
pub mod pattern;
pub mod provider;
pub mod rows;
pub mod tasks;
pub mod text;
pub mod thread_history;
pub mod trace;
pub mod zeta;
