# Beckon

Summon an AI chat service from a system-wide shortcut.

Beckon runs in the background. A shortcut brings up a small prompt; the reply
streams in below it, rendered as markdown. A second shortcut attaches a
screenshot. The model may be given tools that read and change the user's
calendars.

## Layout

- `src/` is the library: the logic of the application, written in Rust and
  verified with [Verus](https://github.com/verus-lang/verus). Each function states
  in its contract what it returns or changes; public proof functions whose names
  start with `law_` state what holds across functions.
- `tests/` runs the library.
- `app/` is the program around it: the GTK windows, HTTP, D-Bus and the settings
  file. It hands plain values to the library and does what the library decides.

## What is proved, and what is trusted

Text is modelled as a sequence of characters, JSON as a tree, and each type of the
library by a view made of these. Some of the laws:

- Markup that is shown is well formed, however a reply is cut off
  (`markdown`, `fade`, `conversation`).
- The agent loop gives the model a bounded number of turns, every call is followed
  by its own output, arguments that are no JSON are reported back to the model, and
  the conversation is what was reported (`agent`, `conversation`).
- An event that is written is read back, and changing an event changes only the
  fields that are given (`ical_laws`, `ical_changes`, `requests`).
- Events are listed in the order of time (`ical_order`, `listing`).

The library relies on `serde_json` for reading, holding and writing JSON (see
`json`), and on three functions of the standard library: appending a character to
a string, lower case, and the system clock.

## Settings

Settings live in `~/.config/com.github.breitburg.beckon/config.toml`:

```toml
api_base_url = "https://api.openai.com/v1"
api_key = "sk-..."
model = "gpt-4o-mini"
system_prompt = "You're a helpful assistant called El. You aim to respond in 1-2 sentences, straight to the point."
shortcut = "<Control><Shift>space"
screenshot_shortcut = "<Control><Shift>s"
```

The file holds the API key, so it is written with `0600` permissions.
