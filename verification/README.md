# task_maker

The decisions of a task-maker worker and of the IOI batch task format, proved with Verus.

- `src/worker.rs`: the worker as a state machine, from state and event to next state and
  actions (`WorkerCurrentJob::step`), with its invariant; `src/worker_laws.rs`: what holds of
  every answer (each file asked once, a job starts only when complete and only once, ...).
- `src/execution.rs`: the result reported for a run and the sources of its output files.
- `src/job.rs`: jobs, executions and file store keys. `src/identity.rs`: a worker's
  identifier and how it is shown. `src/batch.rs`: the batch format. `src/text.rs`: strings.
- `app/`: the worker process around the library: channels, file store, sandbox, threads.
