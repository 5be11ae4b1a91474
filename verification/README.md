# cph_tools

Helpers for competitive programming, with their logic verified by Verus.

- `src/` is the verified library:
  - `text`, `pattern`: character-level primitives and the character classes
    the address patterns use;
  - `platform`, `problem`, `template`, `vscode`, `frame`, `service`,
    `config`: the problem proxy — reading problem addresses, where a
    problem's files go and what they hold, the clipboard frames and the
    problem counter, which configuration is in force;
  - `walk`, `bundle`: the bundler — the depth-first walk over quoted includes
    and the bundle it writes;
  - `checker`, `source`, `schedule`, `thread_manager`: the comparison tool —
    judging outputs, what gets built, handing runs to workers and cores to
    processes.
- `app/` holds the programs around it: command lines, files, sockets, the
  terminal interface and the configuration files.
- `tests/` runs the library on concrete inputs.
