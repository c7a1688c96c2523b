# rust_py_scheduler

The verified core of a small job scheduler for Python: interval texts
(`"10s"`, `"5m"`, `"1h"`), five-field cron expressions, job records, the job
registry that decides which jobs are due and records their runs, the retry
rule of a tick, and the decisions of the run loop.

- `src/` is the library, checked by Verus: `text` (whitespace, tokens,
  decimal numbers), `interval`, `cron`, `job`, `registry`, `executor`,
  `scheduler`, `error` and `time_utils`.
- `tests/` exercises the library on concrete values.
- `app/` is the Python extension module (PyO3): the `Scheduler` class, its
  decorator, the stop signal and the run loop, built on the library.

Times inside the library are plain numbers: monotonic deadlines in
nanoseconds on the registry's clock, wall-clock times in milliseconds or
seconds since the Unix epoch. Local calendar fields come from chrono.
