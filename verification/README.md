# voip_lan

A voice chat for a local network, without a server: every participant broadcasts
small announcements, keeps a table of those it has heard, and sends Opus frames
to each of them directly.

- `src/` is the library, verified with Verus: the packet formats, the tables and
  their ageing, the log, the mixer and the framing of sound, the choice of names
  and devices, the steps in which a voice session is started, what each thread
  does about what it receives, and what the window does about each click.
- `app/` is the program around it: sockets, threads, sound devices, the codec, the
  window, and everything that is floating point. `voip_lan` opens the window;
  `voip_lan console [NAME [BROADCAST]]` runs in the console, and asks for a name
  where none is given.
- `tests/` holds the tests of the library.

Gains are carried through the library as the bit patterns of single-precision
numbers, and moments as nanoseconds of a monotonic clock.
