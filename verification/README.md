# agentbridge

A bridge between chat platforms (Discord, Feishu, Telegram) and coding agents.

- `src/` is the verified library: sessions and their locks, the way of a message
  into the engine and through an agent, the turns, the slash commands, what an
  agent program or a tmux pane tells, and what the platforms send and take.
  Machines such as `Intake`, `Work`, `Turn`, `Poll` and the Discord gateway take
  inputs and answer with actions; they do no input or output themselves.
- `app/` performs those actions: it holds the connections, the processes and the
  files.
- `tests/` run the library.

The host names the agent program, the banner by which it tells that it is up, and
the agent type of sessions that record none.
