# fragr

The rules, parsers and state machines behind the fragr arena tools, verified
with Verus, and the ordinary Rust around them.

- `src/` is the verified library `fragr`:
  - `text`: trimming, splitting, ASCII case folding and decimal numbers over
    characters, each stated as the std operation it mirrors.
  - `dotenv`: reading `KEY=VALUE` key files and choosing between a key file,
    the environment and a `.env` file.
  - `protocol`: the wire vocabulary (weapons, roles, actions, defaults).
  - `arena`: the round clock (warmup, active round, pause), the combat
    bookkeeping of one fighter (health, cooldown, respawn timer) and the
    rule-bot roster.
  - `brain`: which brain failures back off, which switch the paid brain off,
    the backoff interval and the token estimate.
  - `mcp`: the MCP adapter's request dispatch, the `act` argument checks and
    the bounded buffer of recent events.
  - `audiogen`: output formats, asset names, music parameters, retry
    decisions, WAV headers, error texts and batch selection for the audio
    generator.
  - `playtest`: the event tally, frag timeline and presence counters a
    playtest report is built from.
  - `foreign`: the outside types the library carries without looking inside.
- `tests/` runs the library on concrete inputs.
- `app/` holds what the verifier does not take: serde wire types, WebSocket
  and stdin loops, HTTP, files, the command lines, and the floating-point
  movement, combat geometry, statistics and spend caps.
