# rustwave-bot

A Discord bot that keeps a social credit score per community member, written
as a Verus library (`src/`) and the bot program around it (`app/`).

- `src/config.rs` — the configuration and the store that hands out the one in
  force; `reload` puts a freshly loaded one in force or keeps the old one.
- `src/commands/social_credit.rs` — role based limits, the amount check, the
  `/social_credit target` command as a step function from event to action, the
  announcement embed, the credit image plan, the RCON scoreboard command and
  the leaderboard text.
- `src/members.rs` — the `members.init` seed file parser.
- `src/text.rs`, `src/discord.rs` — decimal rendering, joining lines, mentions.
- `app/` — Discord, database, RCON, file and image work, driving the library.
