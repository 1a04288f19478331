//! Sound Link: choosing the Windows playback device and routing the sound of a
//! virtual cable to several devices at once, each with its own volume and delay.
//!
//! - [`devices`]: reading the device list the audio cmdlets print.
//! - [`router`]: the router's state and decisions, per-device delay lines and volumes.
//! - [`ui`]: accent color, theme, popup placement, tray icon and saved settings.
//! - [`text`]: character-level text handling the others use.
use vstd::prelude::*;

pub mod devices;
pub mod router;
pub mod text;
pub mod ui;

verus! {

} // verus!
