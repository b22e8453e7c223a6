# iris

Screenshots of live websites, with the decisions behind them verified.

`src/` is the library. It says what is captured and how: which URLs a batch holds, which scheme a
bare host gets, what a size or a request means, how a page is approached and framed, which files
the captures go to, and what is reported of them. Its functions carry contracts that Verus proves,
from the few in `outside` that are believed of other crates and of the standard library.

| Module | What it settles |
| --- | --- |
| `double`, `double_laws` | page geometry in IEEE 754 arithmetic, on bit patterns |
| `text`, `json` | characters, numbers, lines; JSON objects |
| `image`, `mode`, `viewport`, `clip` | formats, capture modes, viewports, frames around elements |
| `address`, `paths`, `output` | URLs of a batch, paths, names of its files |
| `request`, `reply`, `report` | capture requests, replies to them, reports |
| `scripts`, `plan`, `course`, `session` | what runs in a page, and in which order |
| `outside` | what is taken on trust of other crates and of the standard library |

`app/` is the program around it: the command line, the browser and the server for coding agents.
It performs the tasks that a `course::Course` asks for and hands back what came of them.
