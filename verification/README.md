# foundry-compilers

Compiling Solidity and Yul projects with `zksolc`, with the decisions proved in
[Verus](https://github.com/verus-lang/verus).

- `src/` is the library. Every function states in its contract what it returns, and Verus proves
  it. It holds no I/O: what a program printed, which files exist or what a server answered is
  handed in as plain values.
  - `compilers/zksolc`: finding, installing and calling `zksolc` and the ZKsync fork of `solc`
  - `zksync/compilers/zksolc`: the input of `zksolc` and its settings
  - `zksync/compile`: the stages of compiling a project, what is run, and what is made of the
    outputs
  - `zksync/artifact_output`: the artifacts of contracts and the files that they are written to
  - `text`, `path`, `version`, `maps`: texts, paths, versions and ordered maps
- Functions whose names begin with `law_` state what holds of several functions together.
- Functions marked `external_body`, and `assume_specification` items, are trusted: their doc
  comments say what is believed of which outside function.
- `app/` starts programs, downloads compilers, reads and writes files and JSON around the library.
- `tests/` runs the library on concrete values.
