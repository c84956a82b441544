# toolshot

The verified core of Toolshot, a menu-bar screenshot and colour-picker
tool, written in Verus.

`src/` is the library. Every function in it is proved against its
contract except eleven small trusted wrappers around outside crates, whose
contracts are taken on trust and whose doc comments say what they claim:
`key_code`, `modifiers_from_bits`, `modifier_flag`, `modifiers_union` and
`new_hotkey` in `accel` (global-hotkey and keyboard-types); `hotkey_id`,
`register_hotkey` and `json_string_at` in `daemon` (global-hotkey, serde_json); and
`write_png_rgba`, `image_error_text` and `decode_png_frame` in `imaging`
(the `image` and `png` codecs).

- `payload`: the editor's raw canvas payload (little-endian width and
  height, then RGBA bytes) and its parser.
- `crop`: clamping a selection to the frozen screen frame and cutting the
  selected pixels out of it.
- `windows`: which windows the overlay offers for click-to-capture, topmost
  first.
- `accel`: parsing recorded shortcuts such as `Cmd+Shift+KeyC` into global
  hotkeys.
- `imaging`: PNG encoding of captures and decoding of the tray icon.
- `session`, `settings`, `daemon`: the state of a UI session, the shortcut
  settings, and the tray daemon's decisions (which shortcuts to register,
  what a menu click or hotkey does to the running sessions).
- `text`: character-level string comparisons the others use.

`app/` holds the two programs around it: the Tauri UI process and the
resident tray daemon, with the window, capture, clipboard, file and
process work.

`tests/` exercises the library on concrete values.
