# minebox_bot

The rules and texts of a Discord bot for the Minecraft server Minebox
(creatures and loots, recipes, market, players, guilds, equipment sets and a
live stats dashboard), verified with Verus.

- `src/` is the verified library: what each command computes and shows
  (embeds, messages, rankings, parsing of settings), the model of the API's
  data, and the helpers they use (number formatting, identifiers, rarity,
  skill levels). Each public function states its result in its contract;
  the laws of the library are public proof functions next to the functions
  they speak of.
- `app/` is the bot itself: Discord (Poise/Serenity), HTTP calls to the
  Minebox API (reqwest), JSON decoding (serde) and the background loops.
- `tests/` runs the library on concrete values.
