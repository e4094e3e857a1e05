# kamplud

The rules of Kamplud', a small marble platformer in Esperanto, as a
verified library, with the Bevy program around it.

- `src/` — the library, proved with Verus:
  - `text`: decimal numbers and the score line;
  - `levels`: the level menu (which files are levels, their titles, the
    asset path of a chosen level), specified over the UTF-8 bytes of paths;
  - `presence`: the rich-presence texts;
  - `score`: the player file record and the steps of loading the saved score;
  - `components`: points, lives and the ground flag;
  - `play`: contacts with ground, goal and hazards, coin pickup, key pushes;
  - `flow`: pausing, leaving a level, the splash screen;
  - `scene`: meshes of a level scene and what node metadata makes of them.
- `tests/` — tests of the library on concrete values.
- `app/` — the game itself: Bevy systems that read the world, call the
  library and apply its answers (rendering, physics, audio, UI, files).
