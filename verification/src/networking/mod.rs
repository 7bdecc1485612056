//! The network side of the jukebox: what it shows to find it.

pub mod qr;
