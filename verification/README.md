# Stereo Mix

A recorder for system audio: it captures what is playing, or an input device, and
writes WAV, FLAC or MP3 files. It can be driven by its window, over a local IPC
protocol, or by an agent over TCP.

- `src/` is the library, verified with Verus: FLAC encoding and the three containers,
  negotiation of device formats, mapping of samples, configuration, output names,
  sessions, commands, telemetry and the window's controls. It does no I/O: it takes and
  gives plain values.
- `app/` is the program around it: files, sockets, threads, devices and drawing.
- `tests/` runs the library.

Among what is proved: a FLAC file decodes to the recorded samples, a WAV file holds all
packets and the right sizes, an MP3 file is what LAME gave for all samples, and a
recording that an agent asks for stays below its root.
