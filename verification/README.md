# agent_message_board

Host-local mailboxes that let independent agent sessions in the same repository, or in a group
the user picks, find each other and exchange short coordination messages.

- `src/` is the verified library. `store` holds the shared rows (sessions and queued messages)
  and their invariant; `mailbox` holds one session's operations (open, heartbeat, list, send,
  pending, acknowledge, close, group, set_group) with contracts over the store's value; `laws`
  proves properties that span operations; `tools`, `fragment`, `session`, `protocol` and `tui`
  hold the model-facing tools, the context fragment, session start and delivery decisions, the
  group request, and the `/group` command.
- `app/` keeps the rows in SQLite so that separate processes share them, and runs the async
  parts: every operation loads the rows in an immediate transaction, applies the library's
  operation at the database's clock, and writes the rows back.
