# seer

A terminal system monitor. The readings it shows come from `/proc`, `/sys` and a few
system commands; what it makes of them is a verified library.

- `src/` — the library, verified with Verus: the parsers of the kernel's and the
  tools' reports (socket tables, status and stat files, `/proc/diskstats`, memory maps,
  `systemctl`, `loginctl`, `who`, `nmap`, `df`, `nvidia-smi`, `sensors`, `ipmitool`,
  MySQL status, syslog lines), process grouping, the process tree and the
  breadth-first dependency chains, the movement of disk counters, backup alerts (failed
  and missed jobs, full and unreachable storage), the hardware-sensor cache, CPU affinity masks, resource usage,
  export formats and destinations, the metric history, memory statistics, leak
  patterns, security scoring, the stores of the log, file-system and security
  monitors (what they take in, the alerts they raise, what they keep), and the state of
  the interface and what each key does.
  Contracts are stated over `Seq`, `Map` and spec functions; laws that relate several
  functions are public proof functions.
- `tests/` — tests of the library on concrete values.
- `app/` — the program: command line, configuration file, terminal drawing, the
  sysinfo sampler, file export, the probes that run commands and read files for the
  library, and the parts that reckon in floating point (behaviour profiles, resource
  warnings, disk rates, queries per second, sensor values and averages, container
  sizes, application anomalies).
