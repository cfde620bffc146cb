# flotilla_core

The decisions of a flotilla daemon, verified with Verus. A daemon serves one
host of a fleet. It tracks repositories, starts convoys of agents for issues and
change requests, keeps standing convoys alive, and tells everyone how the fleet
fares.

- `src/` holds what the daemon decides: addresses and names, admission and
  placement, the life of convoys and crews, standing convoys, projects and
  repositories, attaching, replicas, resource watches and explanations. Each
  function has a contract over plain values. What has to be found out elsewhere
  comes in as a reading, and a decision that needs more says what to ask next.
  Proof functions named `law_...` state what holds across functions.
- `tests/` runs the library on concrete values.
- `app/` is the daemon around the library: it asks, reads, writes, sends and
  waits, through traits that its user implements for their store and hosts.

Calls into `chrono`, `sha2`, `serde_json` and `uuid` stand behind small wrappers
whose contracts say what is relied on.
