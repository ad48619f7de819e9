# eevee_eval

Scenarios for evolving neural networks: board games played against earlier champions, Tetris on
two engines, and a platform game. Each scenario scores a genome by what its network does.

- `src/` is the library, verified with Verus. It holds the rules: how a match goes on, what a
  network is shown and how its reply is read, which opponents are drawn, when an evolution
  reports and stops, and what a terminal shows.
- `tests/` runs the library, with the `board-game` and `rand` crates linked in.
- `app/` is the program around the library: it steps networks, runs the console and the Tetris
  engine, reads configuration files and prints.

Numbers that are not whole cross into the library as binary64 bit patterns (`src/bits.rs`) and
leave it as quotients (`src/ratio.rs`).

What the library takes on trust is what the doc comments say of the functions marked
`external_body`: the boards of `board-game` and `random_range` of `rand`, besides `String::push`
of the standard library, whose `AtomicPtr` is named as a marker.
