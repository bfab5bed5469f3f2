# tulok

A terminal dashboard for university courses, split in two:

- `src/` is the verified library: course records, their quarter numbers and
  their ordering by quarter, the course table's selection state and how keys
  move it, which tasks are pending or blocked, and the shell command lines the
  dashboard issues. Each public function carries a contract that Verus proves.
- `app/` is the program around it: reading course files, running shell
  commands, importing tasks and drawing the screen.
