# blur_autoclicker

The decision logic of an auto-clicker for macOS, verified with Verus, and the system code around it.

- `src/text.rs`: strings as sequences of characters.
- `src/hotkeys/`: hotkey texts and bindings, the keys that are down, registering and listening.
- `src/engine/`: screen rectangles, click runs and the plan of smooth movements.
- `app/`: Core Graphics and Carbon calls, threads, floating-point curves and the shared state.

The library takes what the system reports as plain values and returns what is to be done next; `app/`
asks the system and performs it.

## Permissions on macOS

- **Accessibility**: for the event tap behind wheel hotkeys and for synthetic clicks.
- **Input Monitoring**: may also be required on macOS 14 and later.
