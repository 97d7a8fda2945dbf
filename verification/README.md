# sidekick

Follows Tekton pipeline runs: it lists the runs that carry given labels, puts a
run together from the cluster or from the archive, and streams its logs and
changes of status to a client.

`src/` holds the decisions of the service, verified with Verus:

- `handlers/label_selector.rs`: the `labels` query parameter.
- `handlers/run_discovery.rs`: a run, from its live PipelineRun and TaskRuns.
- `handlers/run_archive.rs`: a run and its logs, from tekton-results and Loki.
- `handlers/runs_by_label.rs`: the runs of both sources, merged.
- `handlers/step_log_stream.rs`: the log of a step's container.
- `handlers/run_event_stream.rs`: what is sent to a client, and when.
- `routes/`: the answers to requests.
- `models/`: what is sent to clients.
- `db/`: what follows a refused request, and the settings of the database.
- `json.rs`, `text.rs`, `order.rs`, `lookup.rs`: documents, strings, sorting,
  and work that has to ask for something before it can go on.

`app/` is the program around it: HTTP, and the connections to the cluster, to
Postgres, to Loki and to Redis. It asks for what the library wants to know and
hands back what came of it.

What the library takes from outside crates it takes through a few wrappers whose
contracts are believed: reading JSON and telling its values apart (`serde_json`),
writing a moment in RFC 3339 (`jiff`, through `k8s-openapi`), and writing an HTTP
status (`reqwest`).
