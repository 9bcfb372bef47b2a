use vstd::prelude::*;

verus! {

// The sizes of Stik's windows, in logical pixels.

pub const COMMAND_PALETTE_WINDOW_WIDTH: u32 = 700;
pub const COMMAND_PALETTE_WINDOW_HEIGHT: u32 = 480;
pub const SETTINGS_WINDOW_WIDTH: u32 = 860;
pub const SETTINGS_WINDOW_HEIGHT: u32 = 720;
/// Wide enough for the whole menu bar of the settings window.
pub const SETTINGS_WINDOW_MIN_WIDTH: u32 = 760;
pub const SETTINGS_WINDOW_MIN_HEIGHT: u32 = 560;
pub const DEFAULT_CAPTURE_WINDOW_WIDTH: u32 = 400;
pub const DEFAULT_CAPTURE_WINDOW_HEIGHT: u32 = 280;
pub const DEFAULT_VIEWING_WINDOW_WIDTH: u32 = 450;
pub const DEFAULT_VIEWING_WINDOW_HEIGHT: u32 = 320;
pub const DEFAULT_STICKED_WINDOW_WIDTH: u32 = 400;
pub const DEFAULT_STICKED_WINDOW_HEIGHT: u32 = 280;
pub const STICKED_WINDOW_MIN_WIDTH: u32 = 320;
pub const STICKED_WINDOW_MIN_HEIGHT: u32 = 200;
pub const STICKED_WINDOW_MAX_WIDTH: u32 = 800;
pub const STICKED_WINDOW_MAX_HEIGHT: u32 = 600;
pub const APPLE_NOTES_PICKER_WINDOW_WIDTH: u32 = 550;
pub const APPLE_NOTES_PICKER_WINDOW_HEIGHT: u32 = 500;

} // verus!
