# glommio

The verified core of a thread-per-core runtime, written in Verus: its timers,
the life of its tasks, cells that are initialised once, and the decisions its
reactor takes around the kernel's submission and completion rings.

What is proved, in short:

- `timer`: a hierarchical timing wheel with stable handles. Nothing fires
  early or late beyond what its policy rounds, a handle names its entry for the
  entry's whole life and never another one, the answer to "what is due next" is
  never past the earliest deadline, and moving time forward costs what there is
  to do on the way.
- `task`: the steps a task takes between its executor, its wakers and its join
  handle. Every counted reference is accounted for, a future is dropped once
  and never polled after, a task is freed when nothing of it is left, and running
  one says whether it was scheduled again, whatever happened in between.
- `sync`: a cell that one initialiser at a time fills, even where initialisers
  suspend.
- `sys`: what is queued for each of three rings, which entries it becomes, what
  completions mean, and when the reactor may sleep.
- `executor`, `future`, `io`, `macros`: task queues and where a runnable task
  goes, races against a deadline, directory records, and what an entry point's
  attribute asks for.

Each module keeps its model and its contracts beside the code. Statements that
span several functions are public proof functions whose names begin with
`law_`.

`tests/` runs the library on concrete values. `app/` is ordinary Rust around
it: it talks to the kernel, holds memory and futures, and makes the calls that
the library asks for.
