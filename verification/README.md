# hokori

Hokori means dust in Japanese. It is a cautious disk cleaner for developers'
machines: it walks the file system by rules, asks the tools that own data what
they still refer to, and removes only what was selected.

The decisions of the cleaner are a library verified with
[Verus](https://github.com/verus-lang/verus). Each function states in its
contract what it returns for every input, and what the cleaner promises as a
whole is stated as laws, proof functions whose names begin with `law_`.

## Layout

- `src/` is the verified library.
  - `rules`, `compiler`, `config`, `matcher`: rule files, what is compiled of
    them, and which rule holds of a path.
  - `walk`, `discovery`, `engine`, `scanner`, `gitignore`: what happens to each
    entry that a walk meets, and what is found.
  - `report`, `taxonomy`, `selection`, `action`, `execution`, `cli`: findings,
    what may be selected, plans, the funnel that every deletion passes, the
    journal, and the steps in which a plan is carried out.
  - `providers/`: Homebrew, Docker, Xcode, Git, toolchains, virtual machines and
    others: what their tools print, what is offered, and the commands that may
    run.
  - `globs`, `hashing`, `json`: the calls of other crates, each with the contract
    that the rest relies on.
  - `text`, `paths`, `sizes`, `sorting`, `seqs`: texts, paths, sizes and orders.
- `app/` is the program around it: arguments, files, child processes and the
  terminal.
- `tests/` runs the library.

## Safety model

- Scans change nothing.
- Files go to the Trash unless permanent deletion is switched on.
- Bulk selection takes safe findings only; recent ones and those for the user's
  own hand are picked one by one.
- Protected findings and those that are only reported are never carried out.
- What a tool does itself is checked again right before, and confirmed with
  Shift+Y.
- Only commands of fixed forms run, with bounded time and output.

Attempts are written to `~/.local/state/hokori/journal.jsonl`; the configuration
is read from `~/.config/hokori/config.toml`.
