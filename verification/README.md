# nexxus

The core of the Nexxus desktop environment as a verified library: module
registry and lifecycle, window management, workspaces, tiling, snapping,
session orchestration, the control protocol's framing, shortcut recognition,
window decoration policy, the workspace bar's model, colours and X11
surface decisions, and the visual-asset policies. Every function in `src/`
with a body carries a contract proved by Verus. Two traits are there for
code outside the library to implement: `NexxusModule`, whose methods promise
to record each lifecycle call they receive (the lifecycle's contracts are
stated over that record), and `GraphicsBackend`, whose methods promise
nothing, as no verified code calls them.

Layout:

- `src/` — the verified library, one module per concern (`registry`,
  `lifecycle`, `wm_manager`, `workspaces`, `tiling`, `session_runtime`, ...);
  `registry_laws` holds the proof that the start order lists every module
  once, after its dependencies; `ui_keys` is what keyboard input does to the
  focused widget.
- `tests/` — tests of the library on concrete values.
- `app/` — the programs around it: the session launcher, configuration files
  (TOML), the control socket (JSON over a Unix socket), the X11 backend and
  the floating-point UI layer, and the workspace bar's painter and window. They hand the library plain values and act on
  its answers.

The visual-asset catalog (`src/assets.rs`) lists the symbolic icons the
desktop's code refers to by name: the category icons that applications
without an icon of their own fall back to, and the workspace-settings icon of
the workspace bar, each stored as `categories/<name>.svg` under the icon
root. It carries no wallpaper; `wallpaper` finds none.
