# balloons

A game of balloons for several players, played in rooms over web sockets. Players claim the cells
that their balloons fly over, place emitters on cells of their own, and wear down each other's
bases; who has the last base wins.

- `src/` is the library: the rooms, the rules, the messages and the connections, verified with
  Verus. `src/laws/` states what holds of them as a whole.
- `tests/` runs the library.
- `app/` is the server around it: sockets, timers, JSON, and the single precision arithmetic that
  moves the balloons and measures distances.

Coordinates are held by their binary32 bit patterns (`src/single.rs`), so that the library can
compare them. Time is counted in nanoseconds on a clock of the caller's. Ids are random UUIDs; that
is the one thing the library takes on trust.
