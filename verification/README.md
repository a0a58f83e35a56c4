# Game Information Counter

The logic behind a stream HUD for Elden Ring, verified with Verus: counters and a list of
bosses on the screen, names of viewers over enemies, and effects that viewers buy with channel
points.

`src/` is the library. Every function in it states what it does and is proved to do it, but
for what it takes from the standard library: the contracts of `String::push` and
`char::from_u32`, and of the two functions round `str::to_lowercase` and
`str::to_uppercase`, are believed.

| modules | what they hold |
| --- | --- |
| `text`, `utf16`, `order`, `scalar` | characters and lines, UTF-16, sorting, numbers by their encoding |
| `ini`, `config`, `values` | the settings file, the settings, and what is written back |
| `i18n` | language files, translation, the letters a font needs |
| `msg` | texts out of the game's message buffers |
| `bosses`, `registry`, `boss_list`, `learned`, `probe` | who the bosses are, where, and what is known of them |
| `damage`, `effects`, `effect_state`, `timed_effects` | effects on the player and their target |
| `nicknames`, `tags`, `viewers` | who is named over which enemy |
| `till`, `rewards`, `outcomes`, `hud` | purchases, refunds, cooldowns and what Twitch is asked |
| `labels`, `panel`, `layout`, `frame`, `input` | what a frame shows and decides, and the input it keeps |
| `*_laws` | what holds across functions: what is saved is read back, names never repeat |

`app/` is the DLL around it: files, the game's memory, input hooks, drawing, and all
arithmetic on fractions. Its Windows parts are compiled for Windows only.

`tests/` runs the library on concrete values.
