# nxmproxy

Hands `nxm://` links to the mod manager that is responsible for the game in the link. A manager takes
links through a named pipe, or is started with the link as an argument.

- `src/` is the library. Every function in it has a contract that Verus proves. The contracts of two
  functions of the standard library, `String::push` and `char::from_u32`, are believed and not proved.
  - `text`: strings as sequences of characters
  - `entries`: a map from strings to strings, in the order of its keys
  - `config_file`, `config_laws`: the configuration, its file format, and what holds of both
  - `url`: the links
  - `download`: how a link goes to its manager
  - `pipe`: names and paths of pipes
  - `options`: the commands of the program
  - `install`: becoming the handler of links
  - `win32`: wide strings, registry values
  - `logger`: the lines of the log
- `app/` is the program: files, processes, the registry, the log file.
- `tests/` runs the library.

The configuration has three sections, `[games]`, `[managers]` and `[pipes]`, with lines of the form
`"key" = "value"`. The game `_` stands for all games without an entry of their own. A key cannot hold
an equals sign: such a key is written, and then not read back. A file of more than 1 MiB is written
like any other, and then refused.
