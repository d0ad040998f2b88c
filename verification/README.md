# replica_scaler

A web switch that starts (one replica) and stops (zero replicas) Kubernetes
Deployments and StatefulSets carrying a selector label, with the desired state
persisted in a ConfigMap and re-applied on startup.

- `src/` is the verified library (Verus): configuration, request paths and
  headers, the retry policy, permission probes, discovery and ordering of
  targets, the desired-state store and its JSON document, the API answers and
  the static-file routing. Laws are public proof functions named `law_*` and
  `lemma_*` next to the functions they speak of.
- `app/` is the program around it: environment and file reads, the HTTP
  client (reqwest), the HTTP server (axum), logging, and serializable copies
  of the API values.
- `tests/` runs the library on concrete values.
