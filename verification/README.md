# tobyscope-x11

An overview of the windows of an i3 session: a fullscreen overlay shows each visible window as a
thumbnail in a grid, and the picked one gets the focus.

- Arrow keys or `h/j/k/l` move the selection, Enter or a left click picks a window, hovering
  selects one, Escape closes the overview without changing the focus.
- `--list-windows` prints the windows, `--debug` tells more.

## Layout

- `src/` is the library, proved with Verus: what the program decides and computes, on plain values.
  - `layout`, `single`: the grid, in single-precision arithmetic.
  - `pixels`, `capture`: decoding, encoding and scaling images; capturing windows one by one over
    the workspaces.
  - `windows`, `i3`, `x11`, `atoms`: which windows there are, how one is brought to the front, what
    the display has to offer, and the commands that i3 takes.
  - `cache`: which files hold thumbnails, and when one is taken again.
  - `render`, `overlay`: what a frame is made of, and what is set up on the server and given back.
  - `app`, `input`, `cli`, `config`, `daemon`: the overview's state, keys, arguments, settings
    and background service.
  - `text`: strings.
- `app/` is the program around it: the display, i3's socket, files and threads. It performs the
  actions that the library asks for and hands back what came of them. It also holds the order of
  start-up, the reading of settings and metadata files into values, and the upload of thumbnails.
- `tests/` runs the library on concrete values.

Work that goes back and forth with the X server (capturing a window, setting up the overlay or a
thumbnail, inspecting or focusing a window, checking the extensions) is a state machine in the
library: `action` or `question` says what to ask for, with all its arguments, and `handle` takes in
the answer.
