# mafia_bot

Game logic of a Discord bot that runs Mafia games in Rocket League, with
contracts proved by Verus.

- `src/` is the verified library: team split and Mafia draw (`game`), the
  keycap and diamond emoji (`emoji`), the vote (`voting`), the game's
  announcement message (`game_message`) and the routing of reactions
  (`event_handler`). Randomness comes from `rand` through the wrappers in
  `random`.
- `app/` is the bot itself: Discord commands and events through `poise`,
  which call the library with plain ids and emoji text and perform what it
  decides.
- `tests/` runs the library on concrete games and votes.
