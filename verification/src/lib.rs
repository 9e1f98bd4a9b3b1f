use vstd::prelude::*;

pub mod text;
pub mod sort;
pub mod table;
pub mod session;
pub mod picker;
pub mod theme;
pub mod tray;
pub mod wheel;
pub mod player;
pub mod uri;
pub mod osd;
pub mod settings;
pub mod library;
pub mod nowplaying;
pub mod shortcuts;
pub mod inhibit;
pub mod placement;
pub mod artwork;

