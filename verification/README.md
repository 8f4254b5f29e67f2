# zellij_agent_threads

The logic of a Zellij sidebar that lists LLM agents reporting over Zellij pipes, written in
Verus and proved against its contracts.

- `src/` is the verified library: the agent database and its leases (`runtime`), native
  session and tab tracking (`sessions`), the remote session summary polls (`polls`), the
  render model (`model`), the timer that multiplexes Zellij's single timeout (`timer`), the
  template layout helpers, colour filters and click targets (`layout`, `filters`, `click`),
  the sidebar width protocol (`pane_size`), plugin glue decisions (`plugin`, `template`), the
  plugin's step from state and host event to next state and host actions (`plugin_step`), and
  the first, smaller plugin that listed Pi sessions (`pi_sessions`). `laws` states the
  properties that span calls.
- `app/` is the Zellij plugin around the library: it turns host events into steps, performs
  the actions, and holds MiniJinja and the shared template host.
- `tests/` runs the library on concrete values.
