# temty

A small real-time strategy game played in the browser by many players on one endless map. The
library holds the rules of the game, and Verus proves that each function does what its contract
says. Two functions in `chance` are believed instead: `fresh_token`, which asks the `uuid` crate
for a random token, and `random_number`, which asks the `rand` crate for any number.

## The library

Numbers. The game is played in single precision. `single` does that arithmetic exactly, on bit
patterns; `rounding` and `exact` say when a result is rounded and when it is not.

The land. `space` relates points, tiles and chunks; `terrain` is what grows where; `tile_map` and
`table` hold what is known of it; `line` and `path` (with its `frontier`) draw lines and find ways;
`spiral` hands each new player a chunk of their own.

The server. `economy` has the prices, `world` the state of the game, `tick` and `battle` what
happens in a tick, `requests` what players ask for, `session` how they come and go, `version` which
clients are let in, `chance` what is drawn by lot, and `admin` the commands of the operator.

The client. `game` has the state; `input`, `click` and `command` say what the hands of the player
do; `wall` plans walls; `march` moves the units; `news` takes what the server tells; `render`,
`draw` and `pixel` make the picture.

`accord` shows that the server and the client count alike, and `text` reads and writes numbers.

## Around it

`app/` is the program: the sockets, the database, the browser, the clock, and the double precision
noise from which the land is made. It hands the library plain values and carries out what comes
back.

`tests/` runs the library on examples, and holds its arithmetic, its marches and its pictures
against the machine's own.
