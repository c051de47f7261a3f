# januas

Core logic of the Januas ADE, a GPU-rendered terminal multiplexer, written
in Verus.

- `src/` is the verified library:
  - `modules`: the module registry and the ordered set of running module
    instances behind the subway tab strip (spawn, close, select, reorder),
    with its invariants and the laws relating its operations.
  - `terminal`: grid size, the bytes a key press sends to the shell, and the
    trimmed text snapshot of the visible grid.
  - `text`: the line structure of a label, used to estimate its extent.
  - `layout`: stack axes, cross-axis policy and gradient-table indices.
  - `gpu`: buffer growth, per-image draw batching, surface mode choice.
  - `image`: PNG decoding (through the `png` crate) into RGBA8 texels.
- `app/` is the program: the `winit` event loop, the PTY, the
  `alacritty_terminal` screen model, the `wgpu` renderer and shaders, and the
  `f32` layout pass, which call into the library for the steps above.
- `tests/` run the library on concrete values.
