//! A first-in, first-out queue, together with the song catalogue and
//! playlist text formats that a small song-recommendation program reads
//! and writes.
pub mod queue;
pub mod text;
pub mod song;
pub mod playlist;
