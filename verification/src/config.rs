//! The host window's startup settings.
use vstd::prelude::*;

verus! {

/// What the host passes to the windowing layer at startup.
pub struct WindowConfig {
    pub title: String,
    pub width: i32,
    pub height: i32,
    pub sample_count: i32,
}

/// The game's window settings: a full-HD window with no multisampling.
pub fn window_conf() -> (c: WindowConfig)
    ensures
        c.title@ == "En game"@,
        c.width == 1920,
        c.height == 1080,
        c.sample_count == 0,
{
    WindowConfig { title: "En game".to_owned(), width: 1920, height: 1080, sample_count: 0 }
}

} // verus!
