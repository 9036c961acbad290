# ebpf-xdp-program

Detects anomalies in the traffic of a network interface. A kernel program counts frames per
protocol and connection attempts per source address; three pipelines turn the counters into
rates, hold the rates against adaptive baselines or fixed thresholds, and drive the state
machines of alerts.

`src/` is the library. All of it is verified with Verus:

- `binary64`: correctly rounded double-precision arithmetic, as IEEE 754 defines it. The
  baselines, distances and confidences are computed with it, so contracts can say which number
  comes out.
- `packet`: what a frame adds to the counters.
- `rate`: counters to rates, and the top source addresses.
- `baseline`, `anomaly`: averages, readiness, distances, levels and detectors.
- `alert`: the state machine `Inactive -> Pending -> Firing`, and the managers that run it per
  protocol and kind or per source address.
- `pipeline`: one tick of each pipeline, and the traffic mix.
- `config`: configuration with defaults.
- `alertmanager`, `api`, `metrics`, `report`, `text`: what the outside is told.
- `stats`: a self-contained analysis with averages that gate themselves.

Proof functions named `law_...` state what holds across functions.

Clocks, sockets, files and the kernel's maps are in `app/`, which hands the library plain values:
the current time is an argument, metrics are a list of operations, and a double is its bits.
