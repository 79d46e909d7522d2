# Stalker

Stalker reruns one command when relevant files change. `src/` is its verified
core, written in Verus: every decision that Stalker takes is a function there
with a contract, and the promises that span functions are public proof functions
next to them. `app/` is the program around it: arguments, the file watcher, child
processes and the terminal.

| Module | What it decides |
| --- | --- |
| `config` | durations, globs, and the validated configuration |
| `path` | how paths are read, compared and joined |
| `globs` | glob patterns and sets of them, matched by `globset` |
| `gitignore` | which repository rules apply to a path, matched by `ignore` |
| `filter` | whether an event for a path should make a run |
| `watcher` | what a notification of `notify` means |
| `scheduler` | when a run is due: debounce, follow-up, no overlap |
| `runner` | process slots, the life of one run, shutdown |
| `output` | what is written for run events, with or without markers |
| `session` | the event loop: what to do next, and when to stop |
| `text`, `time` | decimal numbers and trimming; points and spans of time |

A step that needs the operating system is asked for by value and answered by
value. The session says, for instance, which run to start, which signals to send
and how long to wait; the program does so and reports what happened.

What is believed rather than proved is marked `external_body`,
`external_type_specification` or `assume_specification`, with the function it
speaks of named above it.
