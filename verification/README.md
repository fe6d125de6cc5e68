# Rekordbox Link

Follows Rekordbox from outside: reads tempo, position, tracks and beat grids of its decks from its
memory, and tells output modules whatever changes.

- `src/` is the library. It is written in Verus: every function states in its contract what it
  does, and the verifier proves it. The library touches nothing outside itself. It hands out
  requests (read this address, convert this number, wait this long) and goes on when it is given
  the replies; what there is to print, to log or to tell the modules it collects in a list.
- `app/` is the program around it: it answers the requests, with the memory of the other process,
  files, the network, the clock and floating point numbers, and runs the output modules.
- `tests/` runs the library against simulated surroundings.

Proof functions whose names start with `lemma_` and that are public state what holds of the library
as a whole: what an update, a connection or a look for updates comes to from beginning to end
(`updated`, `whole`, `routine`), and what follows from that (`repeat`, `slow`, `master`,
`rounds`, `counting`).

Three things are believed rather than proved: that `String::from_utf8` decodes UTF-8, that the
parser of analysis files gives the same sections for the same bytes and does not panic on files
that are framed as they should be, and that an HTTP status is written with its code in front.
