# git-bulk-clean

Maintenance of many Git repositories at once: fetch and prune, pack refs and
objects, expire reflogs, collect garbage, write the commit graph, see to
submodules and large files, and, if asked to, delete merged branches and remove
worktrees that are merged or idle.

The decisions are made in a library that is verified with
[Verus](https://github.com/verus-lang/verus); the program around it runs the
processes, reads the environment and writes the log.

| Part | Content |
|------|---------|
| `src/text.rs` | texts as sequences of characters |
| `src/report.rs` | log lines |
| `src/config.rs` | settings from environment variables |
| `src/shell.rs`, `src/cli.rs` | completion scripts, arguments, usage |
| `src/call.rs` | Git invocations, their environment, their results |
| `src/repo.rs` | finding repositories, each of them once |
| `src/branches.rs` | the mainline, and the branches merged into it |
| `src/worktrees.rs` | linked worktrees, and which of them may go |
| `src/phases.rs` | the phases of a cleanup |
| `src/clean.rs` | the cleanup of one repository, as actions and replies |
| `src/clean_laws.rs` | what holds of every cleanup |
| `src/dry_run.rs` | what a dry run says of the run that it stands for |
| `src/cycle.rs` | one cycle over all repositories |
| `app/` | the program |
| `tests/` | tests of the library |

A cleanup does nothing by itself. `clean_repo` begins one; `CleanJob::action`
says what is to be done next, and `CleanJob::reply` takes what came of it. So
what holds of a cleanup is proved for every reply that Git and the file system
may give: that all phases get their turn whatever fails, that a dry run changes
nothing and names what the run would do, that a bare repository is not asked for
a working tree, that only what is merged or idle is removed, and that it comes
to an end.
