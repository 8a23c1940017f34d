# factory_sim

The verified core of a factory simulator backend: plants of PLCs and
devices, resolved against device type definitions, simulated tick by tick,
polled by connectors, wired together by an orchestration tick, and deployed
as simulator pods on Kubernetes.

- `src/` — the library, verified with Verus: the plant model and its
  resolution (`schema`, `resolve`, `plant`, `handle`), the tick order and
  one device's tick step (`tick`, `physics`), the connector state machine
  and ingested state (`connector`, `scada`, `endpoints`, `wiring`,
  `server`), database row assembly (`loader`), the reconciler's decisions
  (`k8s`), the per-device compose file (`compose`), the HTTP API's decisions (`api`), configuration (`config`), and
  text helpers (`text`, `split`, `naming`, `strmap`, `lookup`).
- `tests/` — tests of the library on concrete plants and inputs.
- `app/` — the program around it: environment, files, JSON, the Rhai
  physics engine, the HTTP and WebSocket routes, `kubectl`, timers and
  tasks; `gen-compose-device` as its first argument prints the compose
  file for the device named by `DEVICE`.
