# polyresearch

State middleware for distributed research on a shared code base. A lead proposes theses as issues
of a repository, contributors claim them, run experiments and offer candidates as pull requests,
and the lead decides what is merged. All of this is said in comments that hold a small structured
block; the state of the project is derived from them and from nothing else.

- `src/` is the library, verified with Verus: the grammar of the comments, the rules that a
  discussion is held against, the state of theses and candidates, the ledger of results, the
  configuration, the surface that may be edited, and what each command decides.
  - `comments`, `block`, `read_back`: comments, the block inside them, and that what was written
    reads back.
  - `validation`, `discussion`: what a discussion amounts to, and what holds of every discussion.
  - `state`, `standing`, `labels`: the state of theses and of the repository, and what holds of it.
  - `ledger`, `config`, `editable_surface`, `globs`: the files of a project.
  - `github`, `github_debug`, `throttle`: requests to the host, their retries and their pace.
  - `agent`, `worker`, `preflight`, `cycle_guard`, `hardware`: runs of agents.
  - `commands`: the decisions behind each command.
  - `tui`: the state and the texts of the dashboard.
  - `text`, `text_set`, `sort`, `metric`, `time`, `paths`, `json`: what the others are built of.
- `app/` is the program around it: arguments, files, processes, the network and the terminal.
- `tests/` runs the library on concrete values.

Where no command for the agent is configured, its program is the one that the environment names in
`POLYRESEARCH_AGENT_PROGRAM`.

Numbers with a fraction are held as their bits and their text; arithmetic on them is done in
`app/`. Points of time, logins and the contents of files are handed to the library as arguments.
