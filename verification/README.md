# wakew

The verified core of an embedded wake-word recogniser for the micro:bit v2.

- `src/` is the library, checked by Verus:
  - `ring`: index arithmetic of ring buffers (reading in ring order, writing
    runs of items) and its lemmas;
  - `wakew_microbit::utils`: the sliding-window ring buffer of the firmware,
    modelled as a FIFO queue of unread items;
  - `wakew_microbit::recording`: capturing a clip and its hex dump;
  - `wakew_microbit::celebration`: the LED matrix pattern and the jingle
    steps played on a detection;
  - `embedded_wakew`: the two ring buffers of the first firmware;
  - `dtw`: the band round the diagonal that the template matcher visits;
  - `features`: frame sizes, frame counts and delta neighbours.
- `tests/` runs the library on concrete values.
- `app/` is the firmware around it: microphone and timer set-up, the
  floating-point MFCC extraction and DTW matching, and the async tasks.
