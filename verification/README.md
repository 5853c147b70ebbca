# blast

A config-driven API load tester and traffic generator, verified with Verus.

- `src/` is the library, verified except for a few small wrappers around
  calls into `fake`, `uuid`, `serde_json` and std, whose contracts say what
  those calls return: configuration
  checking (`config`), placeholder templating with captured values and fake
  data (`template`), value extraction from JSON responses by dot path
  (`extractor`), building a request and judging its response, JSON body included (`runner`,
  `json`),
  latency statistics (`stats`), the decisions of the `check`, `run`, `seed`
  and `stress` commands (`commands`), and the shapes of the JavaScript
  bindings (`napi_bindings`). `laws` proves properties that relate several
  of these operations.
- `app/` is the program around it: the command line, reading and writing the
  configuration file, sending HTTP requests, the asynchronous loops that run
  the commands, printing, and the NAPI bindings.
- `tests/` exercises the library on concrete values.
