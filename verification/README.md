# bezier_emporium

A small program that draws a "world" of line segments, Bézier curves and
cubic splines, read from a JSON file, into a 400×400 window, and saves the
image as PPM or BMP.

- `src/` is the verified library (Verus): colors, the pixel grid and its
  plain-PPM encoding, the bookkeeping of cubic splines, the texts of alerts
  and questions, and the decisions of the front end (which output path is
  kept, in which format an image is saved, when to ask before quitting, what
  happens after a world fails to load).
- `app/` is the program around it: command-line parsing, the SDL window and
  its event loop, file dialogs, reading world files with serde, and the
  floating-point geometry that turns curves into pixels.
- `tests/` exercises the library on concrete values.
