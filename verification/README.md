# rpcperf

Verified building blocks of an RPC load generator, written in Verus.

The library under `src/` holds the data structures and rules of the load
generator, each with a contract that Verus proves:

- counters and flags (`counter`, `flag`, `wrapper`, `saturating`);
- histograms: the fixed-size `latched` histogram and its `latched::simple`
  variant, the bucket layout they share (`bucketing`, `bucket`), histograms
  over a sliding window of time (`moving`, `moving::simple`, `circular`), a
  histogram that forgets by window or capacity (`histogram`), heatmaps of
  histograms over slices of time (`heatmap`, `heatmap::simple`), and the
  integer part of the quantile sketches (`ddsketch`);
- a bounded ring buffer (`buffer`);
- parsers that classify protocol responses (`protocol`) and builders for
  memcache and thrift requests (`request`, `wire`, `text`);
- the workload generator that picks and fills requests (`workload`);
- metric values: percentiles, instants and intervals, metadata, metric
  errors (`metrics`, `stats`), and a registry of named metrics that refuses
  a name registered twice and the removal of an unknown name
  (`metrics::registry`). The registry decides each recording to a named
  metric: nothing for an unknown name, otherwise the action for the
  metric's kind or the error for a value that does not convert or a kind
  that does not take the operation (`metrics::value` converts the values).
  The registry is a value the caller owns: there is no process-wide
  registry and no shutdown state, and the caller performs the action on
  its own metric objects.

Calls into the `byteorder`, `crc`, `pad`, `rand` and `time` crates go
through the small trusted layer in `src/trusted.rs`, whose contracts are
assumed rather than proved.

`app/` holds what stays outside the proofs: the parts that compute with
floating point (percentiles given as fractions, means, standard deviations,
the logarithmic layout of the sketches, the float-stepped outer bucket) and
the loop that paces a workload.

`tests/` runs the library on concrete values.
