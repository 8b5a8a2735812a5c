# cx_manager

CX-Manager keeps a managed section in the user's PowerShell profile (proxy
address, project roots, tool paths and a few terminal helper functions), and
checks and installs Node.js, npm and the Codex CLI.

The library in `src/` is verified with Verus. It holds every decision the
application takes, each with a contract:

- `settings`: the settings and their normalisation (project roots trimmed and
  deduplicated ignoring ASCII case, the default proxy address).
- `paths`: profile, candidate and backup paths, joined as `Path::join` does on
  Windows or Unix, drive and UNC prefixes included, apart from the cases its
  documentation names (verbatim and device prefixes, incomplete UNC prefixes,
  and the normalisation of a verbatim base).
- `shell`: which PowerShell is managed and how it is started.
- `text`, `pattern`, `decode`, `version`: text helpers, the regular
  expressions of the `regex` crate, command output decoding (UTF-8, else GBK
  through `encoding_rs`) and Codex version parsing and comparison.
- `profile`, `profile_shape`: building, stripping and inspecting the profile
  content. Stripping a built profile removes exactly its managed block,
  rebuilding it replaces the block, and a built profile is complete, whether
  the user's text is blank or not.
- `profile_write`: replacing the profile on disk safely, as a step function
  from the stage reached and the outcome of the last file operation to the
  next operation (syntax checks first, backup before removal, restore after
  a failed rename).
- `commands`: the commands that are run, with their proxy environment, and
  how their results are read.
- `status`: executable lookup results, tool and Codex status, and the results
  shown to the user.

`app/` is the desktop application around it: files, environment variables,
processes and the Tauri commands. It performs the operations the library
asks for and hands the outcomes back; the order of the file operations when a
profile is replaced is decided by `profile_write`.
