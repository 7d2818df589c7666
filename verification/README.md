# turbo_go

Go module workspaces, verified with Verus: what `go.work` and `go.mod` say, which
modules a repository has, what they depend on, which tasks they come with, and
what a part of a workspace needs to stand on its own.

A Go module is the package-graph boundary. A root `go.work` supplies the module
list; without one, a root `go.mod` is treated as a single module.

- `src/text`, `src/order`, `src/collections`: characters, words and lines; orders;
  sorted sets and maps from names.
- `src/path`, `src/error`, `src/names`: paths by their components, what can go
  wrong, and the files of a workspace.
- `src/syntax`: comments, quotes, directives, `go.work` and `go.mod`.
- `src/workspace`: the modules of a workspace, replacements and requirements, and
  which changes matter.
- `src/listing`, `src/command`: what `go list` tells, and runs of the `go` tool.
- `src/discovery`: from listings to packages, step by step.
- `src/tasks`, `src/prune`: the tasks of a module, and pruning.
- `src/laws`: what holds of all of this together. A written `go.work` is read back
  as it was; pruning keeps exactly what is needed and does nothing the second time;
  the modules of a workspace have names and directories of their own; what a module
  has from outside follows from its requirements and replacements.

Every function states its result over a model of its arguments: `deep_view` gives
the model of a value, and `outcome` that of a result. Reading files, looking up
directories and running the `go` tool is left to `app`, which hands what it finds
to the library as plain values.

Five things are believed rather than proved: that `String::push` appends, that
`serde_json` reads a string that JSON wrote back and refuses one that is never
closed, that `String::from_utf8_lossy` decodes valid UTF-8, that an absolute path
begins as one, and that an input or output error can be carried along unread.
