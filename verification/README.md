# zkbench

Reproducible proof-generation benchmarks for [Noir](https://noir-lang.org/) circuits.

zkbench takes a circuit through compilation, key generation, witness generation and proving, keeps
the median time and memory of the repeated stages, and shows them as tables, bar charts and an HTML
page.

- `src/` is the library, verified with Verus. It decides everything: the stages and their order
  (`bench`), the course of an invocation (`campaign`), medians (`measure`, `pipeline`), circuit
  folders (`circuit`, `path`), circuit size (`gates`), the text of every report (`report`, `chart`,
  `paint`, `text`) and the HTML report (`report_html`, `page`). Ratios and bar lengths are computed
  in double precision on integers (`double`), with their laws in `precision`.
- `app/` is the program: command-line arguments, processes, files and the terminal.
  The library separates the components of a path by `/`; where the system does otherwise, the
  program rewrites a path before it hands it over.
- `tests/` runs the library on concrete values.

Measuring memory takes GNU time at `/usr/bin/time`; `nargo` and `bb` have to be on the `PATH`.

```bash
zkbench run ./path/to/circuit
zkbench compare ./circuit_a ./circuit_b ./circuit_c
zkbench report --open
```
