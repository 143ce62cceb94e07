# klag-exporter

Exports the lag of Kafka consumer groups, in messages and in time, to Prometheus and
OpenTelemetry.

`src/` is a library verified with Verus. It holds the rules of the service:

- `kafka`: what is asked of a cluster, what its answers mean, and what is asked again;
- `collector`: collection cycles, what is remembered between them, timestamps and rates, lag;
- `metrics`: metric points, the registry that stores them, and the Prometheus text format;
- `export`, `http`, `leadership`, `cluster`, `retry`, `config`: the decisions of the service.

Numbers are kept exactly, as integers and pairs of integers. Times are passed in.

`app/` is the program around it: the configuration file, the Kafka client, the HTTP server, the
OpenTelemetry exporter, the clocks, and floating-point numbers.

`tests/` runs the library on concrete values.
