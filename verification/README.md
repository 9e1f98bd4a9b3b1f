# tunante

The decisions of Tunante's desktop and phone shell, as a verified library:
what the table keeps and in which order, the folder chooser, the tray icon's
mailbox and looks, the volume panel's placement and life, the crossfade and
the queue's list edits, the library grid's lines and the bulk cover run's
games, the portals' answers, the settings rows, the
interface language and the keyboard shortcuts. Every function states what it
returns in its contract, and Verus proves it.

- `src/` — the library (Verus). `text.rs` and `sort.rs` hold the string and
  stable-sort groundwork the other modules are proved against.
- `tests/` — ordinary tests of the library on concrete values.
- `app/` — the desktop-integration program around it: the StatusNotifierItem,
  the portal conversations, the theme watch, the sleep lock, the KWin script,
  and the panel's floating-point drawing.
