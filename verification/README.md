# git_trano

`git trano` deploys a branch or a tag of the current git repository into a
Capistrano-style layout (`releases/<timestamp>`, a `current` link, and
`shared/`), keeps the newest N releases, and can point `current` back at the
previous release.

- `src/` is the verified library:
  - `target.rs`: what a run does (`--branch`, `--tag`, `--revert`).
  - `git.rs`: reading `git rev-parse --is-inside-work-tree` and command output.
  - `deploy.rs`: the deploy as a state machine, from the fetch and the
    checkout of the target to the cleanup of old releases.
  - `releases.rs`: release order, the revert target and the cleanup.
  - `copy.rs`: which entries of the working tree a release copies, and how
    paths in the way are cleared.
  - `paths.rs`: `--shared` paths, their canonical form and de-duplication.
  - `calendar.rs`: the UTC date and time of a release name, and the proof
    that names of later releases sort later.
  - `text.rs`: comparisons of texts by their characters.
- `app/main.rs` is the command-line program: it parses the arguments, runs
  `git`, walks and changes the filesystem, and asks the library what to do.
- `tests/` exercises the library on concrete values.
