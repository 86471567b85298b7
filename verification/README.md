# aggregate

A small build pipeline: a configuration names modules, each handled by a processor
(`clone`, `concat`, `htmlpages`); processors add tasks to a task graph, and running a
task runs the tasks it depends on first.

- `src/` is the verified library (Verus): paths, in-memory file sets and their
  revisioning, the page-template command syntax and its expansion, the task graph,
  what each processor plans, and the tasks it adds to the graph. Every function there is pure; reading and writing
  files is left to the caller.
- `app/` is the program around it: reading `config.json`, globbing, file I/O,
  watching directories, logging, and running tasks in parallel.
- `tests/` holds the tests of the library.
