# MeetClaw

A desktop meeting assistant. It records a meeting, transcribes it while it
lasts, suggests questions, and lets an agent run shell commands and searches,
each of which the user allows, once or by a rule.

- `src/` is the core, verified with Verus: what is cut, transcribed, kept,
  asked, allowed and exported, and what the replies of the language model mean.
- `app/` is the program around it: windows, files, devices, processes, network,
  and the arithmetic on samples.
- `tests/` runs the core with the crates that it calls.

## What is proved

Each public function states what it returns. The `law_` functions state what
holds of the core as a whole, among other things:

- Outside of auto mode nothing runs that no rule covers and the user has not
  allowed, and no rule covers a shell command with a metacharacter
  (`src/approval.rs`).
- An agent run answers every tool call that it works off, under the call's own
  id, and works off a bounded number of them (`src/agent_run.rs`).
- No audio is lost, repeated or reordered when it is cut into chunks
  (`src/chunker.rs`), and the final transcription covers the whole recording
  (`src/final_pass.rs`).
- A language is followed once it is heard twice in a row, and not before
  (`src/language.rs`).
- What is appended to a recording or to the file of suggestions is read back
  (`src/wav.rs`, `src/suggestions.rs`).
- A changed setting outlives the program (`src/settings.rs`).

## What is trusted

A few functions of the standard library, `serde_json` and `hound` are called
behind functions marked `external_body`. Above each stands what is claimed of
the function that it calls.
