# elx

A directory lister in the manner of `ls`, with grid, long and tree views,
Git status, Nerd Font icons, terminal hyperlinks and a layered configuration.

The library under `src/` holds the logic, with contracts proved by Verus:

- `display/`: cell formatting (`formatter`), the grid, long and tree
  layouts, file sizes, and the display options that combine configuration,
  terminal and command line;
- `config_updater`: migration of configuration files to the current schema;
- `git`: status summaries of directories and lookup of a listed path;
- `fs/`: the listed entry and the choices of the directory walk;
- `theme/`: icons and colors; `config`, `cli`: settings and their defaults;
- `text`, `path`, `toml`: text and path helpers, and the TOML document model.

The program under `app/` reads the command line, the configuration file, the
file system and the repository, and prints what the library lays out.
