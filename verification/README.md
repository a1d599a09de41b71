# replaytrim

The logic of ReplayTrim, a companion app for OBS Studio that grabs the last
seconds of OBS's Replay Buffer, trims them and plays the trimmed clip back
through a Media Source or an overlay page, verified with Verus.

- `src/` is the verified library: the OBS WebSocket protocol messages and
  authentication, the byte-range replies of the clip server, the folder
  allow-list and listing, the clip library, the replay and reveal steps,
  and the reading of ffmpeg's output. Every public function states its
  result in `requires` / `ensures`; the `law_*` proof functions state the
  properties that span several functions.
- `tests/` runs the library on concrete values.
- `app/` is the Tauri application around it: windows, tray, hotkeys, the
  HTTP server, the WebSocket connection, files and the ffmpeg processes.
