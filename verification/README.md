# Showtime

Cue marker for **GrandMA2** lighting consoles: cues placed on a music
timeline with SMPTE timecode (24, 25, 30 and 29.97 drop-frame, with an
offset), exported as CSV, XML, a GrandMA2 macro or a Standard MIDI File,
and fired live as MIDI Timecode, MIDI notes and console commands over TCP.

## Layout

- `src/` is the verified library (Verus):
  - `timecode/`: the `HH:MM:SS:FF` value, its text form, and the
    conversions between positions (nanoseconds) and timecodes, drop-frame
    counting included;
  - `markers/`: markers and the marker manager (ids, time order, lookup);
  - `export/`: CSV, XML, GrandMA2 macro and MIDI file (written with
    `midly`);
  - `live/`: MTC quarter-frames, MIDI note events and the console link;
  - `audio/`: the transport clock of decoded audio;
  - `project/`: the project record;
  - `ui/`: the editor's logic (marker drafts, colors, settings, adding
    markers, recomputing timecodes, live events);
  - `text.rs`: character-level helpers shared by the parsers and exporters.
- `tests/` exercises the library on concrete values.
- `app/` is the desktop program around the library (eframe/egui): windows
  and dialogs, project files, audio decoding and playback, MIDI devices,
  sockets and threads.

Positions are integer nanoseconds and frame rates integer milli-frames per
second (29.97 fps is `29970`); the program converts the seconds and frame
rates of project files.
