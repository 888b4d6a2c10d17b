# keck

Power observability for Kubernetes clusters. A node agent reads hardware power sources and shares
the power out to processes and pods; a controller gathers what the nodes of a cluster report; a
fleet manager gathers what clusters report, holds it against policies and writes daily reports.

The library in `src/` is verified with Verus. It holds everything that computes or decides:

- `hardware`: power sources (RAPL, hwmon, DCGM, Redfish), their discovery out of what files and
  services say, tiers and reconciliation
- `ebpf`: what the kernel programs account on task switches, frequency changes and TCP calls, and
  performance counters
- `attribution`: models, the engine that attributes energy to processes, and the tuner of the
  model's coefficients
- `agent`: process files, pods' shares, source selection and the node's report
- `k8s`, `store`, `output`: naming, keeping and serving a node's power
- `controller`: aggregation, queries, reports, scheduling, classification, carbon, Kepler metrics
- `fleet`: registry, policies and reporting across clusters

Amounts are integers. Power is in microwatts, energy in microjoules, time in nanoseconds, ratios in
units of 10⁻¹⁸; shares are rounded down, and the laws in the modules say what that conserves.
Clocks, files, environment and replies of services are handed in as plain values.

`app/` is the programs around the library: `keck agent`, `keck controller` and `keck fleet`. It
reads files, calls services, loads the eBPF object and serves HTTP.
