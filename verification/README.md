# myriad

The rules of a personal site with an agent on it, written and proved in Verus.

- `src/api`, `src/http_error.rs`: sessions, permissions, login providers, apps, errors
- `src/federation`: what is published to other sites, to whom, and how it is taken back
- `src/db`: merging duplicate feeds without losing what readers did
- `src/agent`: what the agent may do, how it runs the steps of a task, what it
  remembers, how the persona is and speaks, what it tells
- `src/persona`: signed calls between the persona process and the web process
- `src/text.rs`, `src/json.rs`, `src/sort.rs`, `src/ids.rs`, `src/refusal.rs`: the ground
  the rest stands on
- `tests`: the library from outside
- `app`: databases, HTTP, clocks, random numbers, and what is weighed in floating point

Public proof functions state what holds across functions: that a private memory stays
private, that an accepted call is not accepted again, that a deletion reaches whoever
got the post, that a saved recipe has no cycle.
