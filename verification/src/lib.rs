//! Ring-based window visibility for a two-column tiling window manager.
//!
//! Every tag shows at most two windows, one per column. A column is a
//! [`ring::Ring`]: a cyclic list of windows with a cursor on the one that is
//! shown. The two columns of a tag make a [`columns::ColumnPair`], and the
//! pairs of all tags, with the fullscreen marks and the scratchpad link,
//! make the [`manager::Rings`].
//!
//! * [`ring`], [`columns`], [`manager`]: the rings and what can be done to them.
//! * [`focus`]: moving the focus from column to column across the screens.
//! * [`sync`], [`rebuild`]: bringing the tags of the window system in line
//!   with what the rings display, and why doing so twice changes nothing.
//! * [`membership`]: a window is a member of exactly one ring.
//! * [`events`]: what each event does to the rings and which commands go out.
//! * [`layout`]: which windows of a tag's stack are shown, and on which side.
//! * [`runtime`]: all of this at work on a `penrose` stack set.

pub mod columns;
pub mod events;
pub mod focus;
pub mod layout;
pub mod manager;
pub mod membership;
pub mod rebuild;
pub mod ring;
pub mod runtime;
mod seqs;
pub mod sync;
