# meteo

Terminal weather forecast for France (Météo-France AROME and ARPEGE through
Open-Meteo), with a verified core.

- `src/` — the library, verified with Verus: the model cascade and the
  grouping of hours into days (`forecast`), calendar labels (`calendar`), the
  forecast table (`display`), the braille temperature graph (`graph`),
  terminal text measurement (`text`), colours and the terminal check
  (`color`), command-line choices and request URLs (`cli`), the fake-data
  decisions (`fake`) and the weather vocabulary (`weather`).
- `app/` — the program around it: network and file I/O, configuration,
  environment, terminal size, and every floating-point computation.
- `tests/` — tests of the library on concrete values.
