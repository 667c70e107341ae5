# mega-win-alt-tab

A keyboard-driven window switcher and launcher for Windows. Typing filters
open windows, browser tabs, installed apps and favorite folders; the overlay
ranks, numbers and activates them.

## Layout

- `src/` is the library, written in Verus: query matching and ranking (`search`,
  `launcher`, `sort`), the result and entry types (`entries`), overlay
  decisions and texts (`overlay`, `geometry`), app discovery rules (`apps`,
  `winpath`), favorite folders (`folders`), monitor numbering (`monitors`),
  the Run-key rules (`startup`), the tray (`tray`), version comparison
  (`updates`), the icon bitmap (`icons`), and the request parsing, routing
  and tab store of the browser-extension bridge (`bridge`). `laws` states
  properties that span several functions. Its functions carry contracts
  that Verus proves, except seven small wrappers around std (Unicode case
  mapping, `char::is_alphanumeric`, `char::from_u32`, lossy UTF-8 decoding
  and `String::push`) whose contracts are trusted.
- `app/` is the Windows program around it: the Win32 overlay window, GDI
  painting, UI Automation, registry, file and network I/O, and the bridge's
  socket threads. What a key press or typed character does to the overlay's
  query, mode and selection, and every ranking, filtering and parsing rule,
  comes from the library.
- `tests/` runs the library on concrete values.
