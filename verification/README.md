# hk

Git hooks: putting unstaged changes aside while hooks run, restoring them
afterwards, choosing what a hook runs on, and carrying out the jobs of its
steps.

* `src/` is the library. It decides; it runs no program and touches no file.
  Each operation is a value that asks for one piece of outside work at a time
  and goes on when it is told the outcome. The contract of `resume` gives the
  step that is taken for every reply, and proof functions named `law_...` state
  what holds of an operation as a whole.
* `app/` performs that work with git, libgit2, the file system and processes.
* `tests/` run the library on concrete replies.
