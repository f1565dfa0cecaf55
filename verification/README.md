# cuet

`cuet` evaluates CUE modules that describe OpenTofu/Terraform deployments,
writes `.cuet/<env>/main.tf.json` for a module environment, and runs CUE,
OpenTofu and tfmigrate on it.

Layout:

- `src/` is the library, verified with Verus: environment names and targets,
  the CUE expressions and argument lists, which OpenTofu commands read remote
  state and get a default time limit, the automatic `init`, provider addresses
  of historical state, backend replacement in generated configurations, module
  migration checks, shell completion rendering, and the reports of
  `modules check`.
- `app/` is the command-line program around it: argument parsing, the file
  system, processes and their time limits, terminal prompts and progress.
- `tests/` exercises the library on concrete values.
