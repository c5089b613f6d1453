# rex_player

A media-centre front end for X11 whose screens come from view files, whose
looks come from style sheets and whose behaviour comes from Rhai scripts.

- `src/` is the verified library (Verus): settings files, view and style
  markup, the layer tree and its layout, animations between style states,
  the script protocol and the application of script results, click
  handling, the window tree and its layout, bit planes and pictures, bitmap
  fonts, choice-list layout, the X request queue and event decoding, and the
  arithmetic of seeking in a stream.
- `app/` is the program around it: the X connection, files, the script
  engine, the event loop, painting with fonts, and the media players.
- `tests/` holds the library's tests.
