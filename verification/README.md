# Sound Link

A Windows tray tool that switches the default playback device and routes the
sound of the VB-Cable virtual device to several playback devices at once, each
with its own volume and delay.

Layout:

- `src/` — the library, verified with Verus: parsing the device list printed by
  the AudioDeviceCmdlets PowerShell module and naming each device
  (`devices`), the router's state machine, the per-device delay lines and the
  volume mixer (`router`), and what the tray window needs (`ui`).  Samples and
  volumes are carried as IEEE-754 binary32 bit patterns (`f32::to_bits`).
- `tests/` — tests of the library.
- `app/` — the Tauri program: PowerShell and COM calls, the capture thread,
  the registry, the settings files and the tray window.  It embeds the tray
  icons `icons/tray-white.png` and `icons/tray-black.png` from a directory
  beside `app/`; these image files are not part of this crate and must be
  supplied before `app/` builds.  `app/` targets Windows only.
