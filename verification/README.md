# lview

A terminal viewer for the logs of a remote Linux machine, reached over SSH.

- `src/` is the verified library: the text handling it needs (`text`), the
  configuration defaults (`config`), finding and labelling log sources
  (`discovery`), the remote commands that follow a log (`log_stream`), the
  search over log lines (`search`), the ssh target (`ssh`), the application
  state with its log viewer (`app`), the key bindings (`events`), the
  helpers of the drawing code (`ui`), and the laws the library keeps
  (`laws`).
- `app/` is the program around it: command line, settings file, ssh
  processes, the terminal and the drawing.
