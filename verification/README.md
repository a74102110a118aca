# puc

Calculators for Plants vs. Zombies survival-endless setups, and a reader for
SEML, the scenario language those setups are written in. Times are in
centiseconds (cs); columns are in tiles (1 tile = 80 px), measured at the cob
landing point.

The library (`src/`) is verified with Verus: the SEML parser, the cannon-reuse
scheduler, the emulator request checks, the text of the printers and the integer layout of the result tables and CSV exports (pogo
ranges, the explode tick span and its least-loss marker, the pos cumulative
counts and count rows, the refresh preamble, the smash CSV with its row
lookups) each carry a contract, and `src/seml/laws.rs`
states what holds of every document. The program (`app/`) reads files and the
position tables, calls the emulator, turns its JSON into the library's plain
values, and writes the fractional rates and means.

The program offers `extreme`, `ipp`, `seml` and `mcp-server`. The landing
(`coord`), timing (`time`) and interception calculators are not part of it:
they need per-zombie defence geometry and intercept data that this source
tree does not carry. The library still holds the zombie variant rows and the
selection those calculators read (`tables`), but nothing builds the table.

## SEML

SEML (Survival Endless Markup Language) describes a scene, its waves, and the
cobs, fodder and cards used in each wave.

```sh
puc seml [--compact] [--strict] [--csv <target>] <pos|smash|explode|refresh|pogo|survive|reuse> <file>
```

- `#` starts a comment; spaces and tabs collapse.
- `scene:` names the ground: `DE` `NE` `PE` `FE` `RE` `ME`, in any case
  (`FE` where none is given).
- Waves, rows and columns count from 1.
- Times may be expressions over variables, such as `445+200` or `x+266`;
  `+N` means `N` cs after the previous action of the wave.
- Unknown header lines (a first token with `:`) are skipped, or refused
  under `--strict`.

### Headers

| header | meaning |
| --- | --- |
| `scene:` | the ground |
| `protect:` | positions to protect; a cob by default, `'` for an ordinary plant |
| `repeat:` | number of runs |
| `std:` | `true` shows standard errors |
| `avzTime:` | `true` reads times on the AvZ base (ice and instant cards one tick later) |
| `cobDelay:` | `true` models the cob fuse delay |
| `types:` | zombie types of `pos` |
| `targetPos:` | turns `pos` into arrival times at this x |
| `require:` / `ban:` | zombie types that must / must not spawn (`refresh`) |
| `huge:` `activate:` `dance:` `natural:` | `refresh` switches |
| `ncobs:` / `loop:` | cannon count and endless repetition (`reuse`) |
| `hitThres:` | damage that counts as a hit (`survive`) |

Zombie types are written as single Chinese glyphs (`红白`) or four-letter
English abbreviations (`giga garg`).

### Waves

```text
w[N] [ice times...] [start~]length
w1~4 0 1672
```

`w` alone is the next wave. `wA~B` repeats this line and the lines up to the
next wave line for each wave from `A` to `B`.

### Cobs, fodder, cards

```text
P 318 2 9        one cob: time, row, column
PP 318 25 9      two cobs, rows 2 and 5
P3 318 2 9       roof: cob tail column 3
C 446~601 1256 9 fodder, shovelled at 601; rows may end in ' (puff) or " (pot)
C_POS 446 1"2'56 9 choose:3 waves:1,2
A 225 2 9        cherry; J jalapeno, N doom, a / W squash, G garlic
A_NUM 225 25 9   smart card by gargantuar count
SET x 776        variable (a name that is not all digits, an integer expression)
```

### Cannon reuse

With `ncobs:` cannons used first in, first out, the shot at position `i` of
the document's absolute timeline reuses the cannon of shot `i - ncobs`; a gap
below 3475 cs is marked `(!)`. Without `loop:` the report ends with each
cannon's recharge still to go when the last wave ends (`-inf` for a cannon
that never fired).
