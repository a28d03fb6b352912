# aquatui

A terminal aquarium: fish swim across the screen, bubbles rise, seaweed sways above a sea
floor of weed, and a house stands at the bottom right. Press `q` to leave.

- `src/` is the verified library: the creatures and how they move (`entities`,
  `classic`), the text handling for their drawings (`text`), the painting of a frame into a
  grid of coloured cells (`canvas`, `renderer`, `classic::scene`), drawing order by depth
  (`layers`) and the random draws, made through the `rand` crate (`chance`).
  `classic::scene` also states what a running aquarium keeps from frame to frame
  (`scene_ready`): the spawning functions set it up, `tick` and `compose` keep it, and it
  gives what `tick` and `compose` ask of their input.
- `app/main.rs` is the terminal program: it turns each frame's cells into terminal lines,
  reads the clock and the keyboard, and asks the library when to move and when to stop.
- `tests/` runs the library on concrete cases.
