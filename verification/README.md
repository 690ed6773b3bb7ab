# stereo_link

Plays stereo sound on two devices: the left channel goes to a tablet over RTP,
the right channel to the local speakers. The local playback is delayed until
both are heard together.

- `src/` is the verified library: splitting the channels, the sample rings, RTP
  and RTCP packets, the reports of the tablet, the shared clock reading, the
  schedule of the clock comparison and the smoothing of the delay. Public
  functions state their results. Where a result rests on the clock, the function
  states what holds of every reading. What atomics hold cannot be named in a
  contract, so `ClockSnapshot` leaves its decisions to functions on plain values
  that state theirs. Public proof functions state what holds of several functions
  together.
- `tests/` runs the library on concrete values.
- `app/` is the program: audio devices, sockets, threads, and the floating-point
  formulas.

Samples are 16-bit throughout the library. The program converts them where they
enter from the capture device and where they leave for the speakers.
