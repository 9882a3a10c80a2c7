# cluster_agent

The library behind a Kubernetes node agent that serves container log metadata and log records
over gRPC. The library (`src/`) is verified with Verus; `app/` is the program around it.

- `config`: defaults, `key:value` parameters, environment overrides, load order, validation.
- `log_file_name`: the `{pod}_{namespace}_{container}-{containerID}.log` file name grammar.
- `file_watcher`: raw file system events, the debouncer, and log file events.
- `kubernetes`: the client configuration source and the per-namespace permission check.
- `log_metadata`: log file metadata, listing, and watch events.
- `log_records`: finding a container's log file, reading stream requests, converting records.
- `rgkl_integration`: turning the search engine's output into log records sent to a channel.
- `proto`: the messages of the gRPC services.
- `text`: character-level string helpers.
