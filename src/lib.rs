//! Simple dynamic strings: binary-safe, length-prefixed byte buffers that
//! stay nul-terminated, so that their payload can be handed to code that
//! expects a plain terminated string.
//!
//! * [`layout`] describes how a buffer's header is encoded and how its
//!   capacity grows.
//! * [`raw`] holds the allocation primitives over one buffer block.
//! * [`utf8`] validates payload bytes as UTF-8.
//! * [`view`] is the borrowed view, [`owned`] the owned string, and
//!   [`handle`] the plain owning handle.

pub mod layout;
pub mod raw;
pub mod utf8;
pub mod view;
pub mod owned;
pub mod handle;
