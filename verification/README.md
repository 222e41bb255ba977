# llm-box

`llm-box` runs an assistant in a container whose way to the network is approved by an operator,
destination by destination, while the assistant runs.

- `src/` is the library: what a destination is, what a session may reach, how a decision changes
  that, what the broker does with a request, and how containers are run. Every function there is
  verified with Verus against its contract. What is taken on trust stands in `src/outside.rs`, for
  other crates and the decoding of UTF-8, and in `src/text.rs`, for the one other function of the
  standard library.
- `src/decisions.rs`, `src/approvals.rs` and `src/canonical.rs` state and prove what holds of the
  library as a whole: an approved destination is let through, a rejected one is cut off, no
  approval is lost, a destination that was decided about is not shown again until it is tried again, and the canonical
  text of a destination names that destination.
- `app/` is the program: commands, files and their locks, sockets, processes and JSON.
- `tests/` runs the library on concrete values.
