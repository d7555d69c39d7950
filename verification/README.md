# lightyear_interpolation

The confirmed values of replicated components, and how snapshot interpolation samples them.
Every item of the library is verified with Verus, and none of it is trusted, besides vstd's
specifications of std and the derived impls.

- `src/tick.rs`: simulation ticks and the saturating distance between them
- `src/timeline.rs`: the mathematical model, a sequence of dated states in order of their ticks
- `src/history_buffer.rs`: a queue of dated states
- `src/interpolation_history.rs`: `ConfirmedHistory`, with pushes, pops, sampling and interpolation
- `src/laws.rs`: what holds of histories as a whole
- `app/`: histories as Bevy components; the interpolation fraction, which is a float, is taken there
