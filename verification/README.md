# shellfleet_agent

The logic of a host agent and of its approval broker, verified with Verus.

The agent takes requests from a server over a WebSocket: list and control
services, manage containers, stream logs, open terminals, read and write
configuration files, run backups, watch package upgrades and health probes. The
approval broker runs as root on the same host and carries out only what an
enrolled approver has signed.

## Layout

- `src/` is the library. It decides: what is refused, which arguments a program
  gets, what is made of its output, and what happens next in a course of
  several steps. Every function states what it returns, and the `law_*` proofs
  state what holds across functions.
- `src/privileged/` is the broker's side: the policy, the encrypted transport,
  frames, approvals, and the way of a request through the broker.
- `app/` does what the library decides: processes, files, sockets, S3, the
  database and the terminals. Called as `shellfleet-approval-gate` it is the
  broker, else the agent.
- `tests/` runs the library on concrete values.

Where several steps with outside work between them make one request, the
library holds the course as a state machine (`backup_run`, `exec::ExecRun`,
`apt::watch`, `privileged::broker`, `privileged::gate::pty_step`) and `app/`
runs the loop.

A log is cut down by bytes, from the front. Where the cut would fall inside a
character there is no such log; the functions that cut return `None` there.
