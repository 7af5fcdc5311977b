# tiny_workers

A small job queue with leasing, retries and terminal success or failure
states, whose functions carry contracts that are proved.

- `src/jobs.rs`: job states and their stored codes, the claimed job.
- `src/job_repo.rs`: the job table (`JobRepo`) and its operations: enqueue,
  claim the next job under a lease, mark succeeded or failed, requeue.
- `src/queue_laws.rs`: properties of the queue across operations (leases
  block a second claim, expired leases free a job, attempt limits, terminal
  states, a new job can be claimed, a claim over the open rows or a
  settlement over the job's own row does what it does over the whole table).
- `src/handlers.rs`: the handler trait, its answers, and three fixed handlers.
- `src/worker.rs`: how a worker settles a job from its handler's answer, one
  worker round on the table, how long it waits after a round, and the
  properties of settling.
- `src/round_laws.rs`: properties of a run of rounds (a handler runs on a job
  at most the attempt limit times; a settled job stays settled).
- `app/`: the SQLite-backed table, the async handler trait and the tokio
  worker pool, which read and write the database and let the library decide
  every change.

The default worker configuration is three attempts per job, a 100 ms idle poll
and 10 s leases.
