# taurin

A Tauri runtime for RPG Maker MV projects, whose decisions are proved with
Verus.

`src/` is the verified library:

- `assets`, `response`: the `rpgmv://` protocol. Which file under `www/` a
  request path names, byte ranges, media types, and the complete HTTP
  responses. A decoded path that starts with `/` or has a `..` between `/`s is
  refused on every platform, and a path without `\` or a drive prefix is split
  exactly at `/`. Where `\` separates (Windows), refusing a `..` between
  backslashes rests on `Path::components` alone.
- `project`: the window title from `package.json` or the `<title>` of
  `index.html`, and the window icon's name.
- `audio`, `channels`: which channel an audio command addresses, the files
  that may hold a sound, the bounds of volume, pitch and pan, and the sound
  handles each channel holds.
- `bridge`: the answers of the bridge commands.
- `diagnostics`: what the startup log reads from `os-release`, `cpuinfo`,
  `meminfo` and command output.
- `startup`: the order of the start-up steps and how a failure ends it.
- `text`, `numbers`: character-level string operations and decimal numerals
  that the others share.

`app/` is the application around it: Tauri, kira, the file system, processes
and the floating-point window and audio settings.
