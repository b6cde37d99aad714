# zeron

The logic of a desktop coding client, verified with Verus: syncing a chat room, supervising the
engine connection, reviewing diffs and history, the message queue, pull requests, settings,
localization, and captures of other applications' windows.

- `src/` is the library. Every function states what it returns or changes, and Verus proves it.
  Public proof functions named `law_*` state what holds across functions. Calls into other crates
  stand behind small wrappers whose contracts say what is relied on.
- `tests/` runs the library on concrete values.
- `app/` is ordinary Rust around the library: sockets, clocks, files, the environment and the
  desktop. It reports what happened, and does what the library answers.

| Area | Modules |
|---|---|
| Chat rooms | `chat_client`, `session`, `wake` |
| Engine connection | `link` |
| Changes pane | `patch`, `rows`, `folds`, `changes`, `pane`, `pane_view`, `drafts`, `comments`, `badges`, `highlights` |
| History pane | `graph`, `history` |
| Pull requests | `pull_requests`, `pull_request_menu` |
| Captures | `appshots`, `semantic`, `portal`, `x11`, `windows`, `macos` |
| The rest | `queue`, `settings`, `i18n`, `i18n_zh`, `proto`, `requests`, `ids`, `search`, `text` |

## What stays in English

The Chinese table (`i18n_zh::lookup_zh`) holds 439 texts. Not in the table are twelve texts, which
stay in English: those that name the assistant of one vendor, in English or in Chinese. With `…` for
the name they are "Add … account", "Authentication failed — sign in to … again.", "Billing error —
check your … plan or payment method.", "This organization isn't allowed to use … here.", "The
request was rejected as invalid.", the vendor's line about its own coding agent ("… coding agent,
driven through the … CLI."), and six that begin with the name: "… error: {other}", "… had a server
error — try again.", "… is overloaded right now — try again shortly.", "… returned an unspecified
error.", "… usage limit reached — try again after the limit resets." and "… {window} limit reached —
the turn was blocked. Try again after it resets."
