# elm-win32

An Elm-style declarative GUI library for Win32: an application describes its
view as a widget tree, and the runtime keeps native controls in step with it.

- `src/` is the verified core (Verus):
  - `tree` — the shape of a view (kinds, sibling-scoped keys, handlers) and
    duplicate-key detection;
  - `reconciler` — keyed reconciliation of the retained preorder node tree:
    a pure plan of destroy/create/update operations, and the commit that
    installs created windows and names the parents whose z-order changes;
  - `reconcile_laws` — what reconciliation guarantees across calls;
  - `window_laws` — the same guarantees counted window by window;
  - `routing` — which handler a control notification reaches and what the
    runtime reads from the control;
  - `messages` — decoding of the top-level window's messages;
  - `controls` — what to send to a control when its widget changes;
  - `style`, `program` — style bits, colours, commands.
- `app/` is the Win32 side: widget descriptions with layout numbers and
  callbacks, taffy layout, control creation, the window procedure and the
  message loop. It performs what the core decides.
- `tests/` exercise the core through a fake native backend.
