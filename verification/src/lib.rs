//! Lazily join a sequence of displayable elements with a separator.
//!
//! A [`Joiner`] captures a sequence cursor and a separator and defers all
//! work until the caller picks a terminal operation: rendering to an owned
//! [`String`], writing incrementally into a text or byte sink, or replaying
//! a duplicable cursor to render without consuming the joiner.
//!
//! The central correctness property, proved for every consumption mode, is
//! that the separator appears exactly between two consecutive elements,
//! never leading and never trailing.

pub mod cursor;
pub mod joiner;
pub mod laws;
pub mod model;
pub mod render;
pub mod sink;

pub use cursor::Cursor;
pub use cursor::DisplayIter;
pub use cursor::DupCursor;
pub use cursor::SliceCursor;
pub use cursor::VecCursor;
pub use joiner::join;
pub use joiner::Join;
pub use joiner::join_str;
pub use joiner::Joiner;
pub use laws::elem_offset;
pub use laws::lemma_join_structure;
pub use laws::lemma_split_join_round_trip;
pub use laws::total_text_len;
pub use model::find_sep;
pub use model::join_seq;
pub use model::split_seq;
pub use model::tail_join;
pub use render::dec_str;
pub use render::DisplayWrapper;
pub use render::int_str;
pub use render::Render;
pub use render::StrLike;
pub use sink::ByteSink;
pub use sink::SinkError;
pub use sink::TextSink;

