# data_browser

The browser of a desktop application for satellite snapshots: folders of a
catalogue, search, the library of downloads, a globe with outlines and layers,
and the screen of tabs and panes that shows them.

- `src/` is the logic, verified with Verus. Handlers change a `State` and leave
  requests to other modules behind in `State::calls`; components turn the state
  into rows, cells, menus and labels. Laws that relate several functions are
  public proof functions beside the functions they speak of.
- `app/` is what stands around it: the clock, the file format of the remembered
  layout and of notes, floating-point geometry, the handing of messages and answers
  to handlers, and the requests with their numbers worked out.
- `tests/` runs the library on concrete values.

Coordinates, shares and opacities pass through the library as the bits of their
floating-point numbers. Widths are whole points, tenths or twentieths of points.
