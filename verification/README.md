# xemanh

An image viewer whose decisions are a verified library.

- `src/` is the library, verified with Verus: the gallery of a folder and its
  navigation (`gallery`, `sort`), keyboard shortcuts and toolbar buttons
  (`input`, `toolbar`), GIF frame timing
  (`animation`), what an opened image shows (`imaging`), names of written files
  (`crop`), the byte layouts handed to Windows (`platform`), the `UserChoice`
  hash that makes the viewer the default program (`assoc`), version comparison
  (`version`) and the update check's state machine (`updater`). Path operations,
  MD5, JSON parsing and the image crate's decoding, RGBA conversion, rotation, cropping and
  PNG encoding are called through a few trusted wrappers (`paths`, `assoc`,
  `updater`, `imaging`), whose contracts name their results or state how the
  pixels move.
- `tests/` runs the library on concrete inputs.
- `app/` is the program around it: the macroquad window, reading and writing files, the
  clipboard, the registry and the network. Screen geometry is floating point and
  stays there.
