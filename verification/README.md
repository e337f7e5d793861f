# effy

An interpreter for Effy, a small scripting language, written in Verus: the tokenizer,
the parser, the interpreter and the diagnostics it reports are verified against
mathematical specifications.

## Layout

- `src/` — the verified library.
  - `text`, `span`, `source`: characters, byte offsets and source files.
  - `message`: diagnostics (`SourceMessage`, snippets, labels) and the library's errors.
  - `token`, `tokenize`: the tokenizer, specified by a scanner over the text's characters.
  - `ast`, `parser`: the syntax tree and a recursive-descent parser, specified by a grammar
    over the tokens of a text.
  - `print`: a textual dump of syntax trees.
  - `value`, `runtime`, `environment`: values, native and coded functions, scopes.
  - `semantics`: what evaluating statements and expressions means, including calls of
    native functions, read from a trace of interactions.
  - `interpreter`: the interpreter, proved to follow `semantics`. Native functions and test
    sinks are the host's: each native call is recorded in the interpreter's trace with
    the index of the function the callee names, the very arguments and spans it was
    handed and the result it gave back, and that function's own contract
    (`NativeFunctionTrait::invoked`) holds of them (`calls_made_by`); a function written
    in plain Rust states nothing there. A sink
    that keeps its reports (`keeps_reports()`, as the verified `TestEventLog` does)
    receives exactly the reports in the trace. Of sinks written in plain Rust nothing is
    stated; the command line program collects reports in a `TestEventLog`.
  - `test_event`, `cli`: test reports and the decisions of the command line program.
- `app/` — the command line program (`effy test`, `effy version`): files, terminal output,
  colors and logging.
- `tests/` — tests of the library.
