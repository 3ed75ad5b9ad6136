# voice_dictate

A push-to-talk dictation client: a hotkey starts and stops recording, the
audio goes to a speech server, and the transcript is pasted (in prompt mode,
first restructured into a prompt).

- `src/` is the verified library: the dictation state machine and what a
  transcript leads to (prompt mode, its word limit, the raw fallback), hotkey and
  shortcut parsing and formatting, the capture of a new shortcut, the tray's
  rows and icon colours, history lines, pruning and previews, the config
  file's hotkey line, the WAV encoding of a recording, the paste key sequence
  and what a paste reports,
  the speech request's URL and form fields, and the cleanup request's user
  message and the reading of its reply. The JSON bodies themselves are built
  and parsed in `app/`. Each public function states its result in
  `ensures`; the laws that span several calls are the `law_*` proof
  functions.
- `app/` is the program around it: audio capture and mixing, HTTP and JSON,
  the tray and dialog toolkits, the global hotkey loop, files and
  notifications.
- `tests/` runs the library on concrete values.
