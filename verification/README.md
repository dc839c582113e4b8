# tui-breadcrumb

A hierarchical breadcrumb trail for terminal user interfaces built on
`ratatui`, with its layout engine, render planner and interaction state
specified and proved with Verus.

## Layout

- `src/` — the verified library:
  - `strategy` — the overflow strategies (`Middle`, `Start`, `End`,
    `ShortenNames`, `Clip`);
  - `item`, `separator` — segments and separators and the columns they take;
  - `text`, `geometry` — column widths (through `unicode-width`), label spans
    (through `ratatui`), rectangles, alignment and styles;
  - `layout_spec` — the mathematical model of the layout each strategy
    produces;
  - `truncate` — the layout engine, proved equal to that model;
  - `render` — the render planner: the cells drawn, each character at its
    display-width column and clipped at the area's edge, and the cells of
    every label, dropdown indicator and ellipsis;
  - `state` — selection movement and mouse hit-testing;
  - `path` — segments from filesystem paths;
  - `widget` — the widget configuration and its builder;
  - `properties` — laws of the library as a whole (layouts fit their width
    under every strategy, keep segment order, keep the root and leaf
    segments, abbreviate before collapsing; renders stay inside their area
    and hit-testing finds the segment drawn; selection stays in range).
- `app/` — the `ratatui` `Widget` and `StatefulWidget` impls, an optional
  surrounding `Block`, and conversions from `ratatui` text values.
- `tests/` — tests of the library on concrete values.
