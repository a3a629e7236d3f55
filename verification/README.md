# Solhunt

Solhunt is a static analyzer for Solidity sources: it compiles a project,
walks the syntax tree of each source with a set of detection modules, and
reports what each module finds, with the line, column and surrounding code of
every finding.

The analysis logic is a library written in Verus and verified: every public
function carries a contract that states what it returns or changes.

## Layout

- `src/` — the verified library.
  - `source.rs`: source maps (line ends of a file), byte offsets turned into
    line and column, and the excerpts shown around a finding.
  - `findings.rs`: severities, findings, their formatting, and the set of
    findings of each module, with filtering and sorting.
  - `walker.rs`: a module's state while walking, and how the findings of
    each file are located and gathered.
  - `ast.rs`: the parts of the Solidity syntax tree that the modules read.
  - `detectors/`: the detection modules, one per file.
  - `tight_pack.rs`: storage slots of struct members and a tighter order.
  - `version.rs`: compiler versions read from pragmas, and the version
    requirement of a source read through `ethers-solc`.
  - `project.rs`, `solidity.rs`: which files are compiled and with what
    settings.
  - `text.rs`, `names.rs`, `paint.rs`, `loader.rs`: helpers.
- `tests/` — tests of the library.
- `app/` — the `solhunt` program: command line, compiling with
  `ethers-solc`, reading the compiler's JSON syntax tree into the library's
  model, and printing the report.

## Usage

```sh
solhunt analyze [PATH] [-v <SEVERITY>...]
```
