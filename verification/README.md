# asitop

Performance monitoring for Apple Silicon Macs in the terminal: load and frequency of the processor
clusters, their cores and the graphics, memory and swap, and power with its history, average and
peak. The figures come from the sampler `powermetrics`, which needs `sudo`.

The library under `src/` is written in Verus: every function states in its contract what it
returns or changes, and the contracts are proved. The program around it under `app/` reads files,
runs commands, draws on the terminal, and does the floating-point arithmetic.

## Modules of the library

| Module     | What it holds                                                                     |
|------------|-----------------------------------------------------------------------------------|
| `text`     | numerals, trimming, searching, the order of texts                                 |
| `rounding` | scaling by a ratio with the roundings of floating point, carried out on integers   |
| `watts`    | power measurements by their bit patterns, and the larger of two                   |
| `literals` | what integers, reals, data and dates of property lists are spelled like            |
| `markup`   | the XML text of property lists, as far as it takes to find the dates in it         |
| `document` | the stream of property lists that the sampler writes, and its newest readable list |
| `readings` | what a property list tells of a sample, and what is wrong with one that does not   |
| `snapshot` | one sample, put together from the figures of its clusters                         |
| `memory`   | memory and swap                                                                   |
| `soc`      | the chip, from what commands print                                                |
| `state`    | histories, averages and peaks over the samples                                    |
| `session`  | when to sample, when to start the sampler anew, when to stop                      |
| `area`     | rectangles of the screen and how they are divided                                 |
| `canvas`   | the grid of cells, its colors, text and frames                                    |
| `meter`    | meters and history plots                                                          |
| `screen`   | the panels and the screen                                                         |

Laws that relate several functions are public proof functions whose names begin with `law_`.

## What is taken on trust

The calls into `plist` (reading a property list, taking a value apart, writing a date) and into
`ratatui` (dividing an area, setting a cell, writing text, rendering a frame, the size of a buffer)
stand behind functions marked `external_body` in `document`, `area` and `canvas`. Their doc comments
say what is claimed of each call.

The reader of `plist` panics on a date that lies in the year 10000 once its offset is taken off,
such as `9999-12-31T23:59:59-01:00`. A property list in which it would come to such a date is not
handed to it and counts as one that cannot be read. `markup` follows the reader through the text to
tell; it goes by the length of the pieces in which the standard library's buffered reader takes a
text in.

## Usage

```shell
asitop --interval 1 --avg 30 --show-cores
```

```text
--interval <SECONDS>   Display and sampling interval
--color <0-8>          Gauge color index
--avg <SECONDS>        Averaging window for power metrics
--show-cores           Show per-core details
--max-count <N>        Restart powermetrics after N refreshes
```

Press `q` or `Esc` to quit.
