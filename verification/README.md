# planespotter

Watch geographic regions and report the aircraft inside them, with route and delay.

- `src/` is the library, verified with Verus.
  - `double` carries floating-point numbers by their bits and orders them.
  - `text`, `time` hold the pieces of display lines, and instants.
  - `model` has the shared data types; merging flight information is defined there.
  - `geo` decides which points lie in a region; `document` reads regions from GeoJSON.
  - `config` resolves a configuration into watched regions.
  - `source` builds position requests and reads the records that come back.
  - `enrich` reads what flight-info APIs say, merges the answers and caches them.
  - `engine` tells who entered, stayed and left between polls.
  - `board`, `console` turn events into a split-flap board and into lines of text.
- `tests/` runs the library on concrete values.
- `app/` is the program around it: HTTP, files, the terminal, the web server, and the
  floating-point arithmetic of distances and edge crossings. Started as `planespotter-web` it serves
  the board; under any other name it prints to the terminal.
