# codesearch

Semantic and literal search over the code of one or several repositories, with
its rules verified in [Verus](https://github.com/verus-lang/verus).

- `src/` is the library. Every function states in its contract what it returns
  or changes, and Verus proves it. Public proof functions named `law_..` state
  what holds across functions.
- `tests/` runs the library on concrete values.
- `app/` is the program: arguments, files, the network, the terminal, and the
  arithmetic of floating point scores.

## The library

| Modules | What they hold |
| --- | --- |
| `text`, `chars`, `numbers`, `sorting`, `score` | characters, numbers, stable sorting, scores ordered as floats by their bits |
| `paths`, `glob`, `pattern`, `regexes` | paths and aliases, globs, what a pattern looks like |
| `query`, `fusion`, `semantic`, `pipeline`, `search` | what a query asks for, rank fusion, semantic search in its steps and as a whole, the search of the command line |
| `literal`, `symbols`, `imports`, `chunks` | literal search, definitions and usages, imports and dependents, single chunks |
| `types`, `tools`, `routing`, `status`, `json`, `metadata` | requests and responses, dispatch, repositories, status, documents |
| `indexing`, `filetable`, `manager`, `placement` | index runs, recorded files, file events, where databases lie |
| `proxy`, `server`, `delegate` | the client of a server, how a server starts, commands that a server does |
| `lmdb_registry`, `logger`, `output`, `commands`, `cli` | open environments, log files, quiet mode, commands |

Calls into other crates stand behind small functions whose contracts are stated
and not proved; each says in its comment what it takes for granted.
