# hockeyscraper

Scrapes the game information and the game results (give-aways, take-aways, face-offs,
goals, empty nets, power plays, shots per period) of an NHL regular season and stores them
as JSON files under `DIR/assets/db`.

```bash
hockeyscraper --dir ./scraped -y 2020 --games 868 --jobs 12
```

## Layout

- `src/` is the library, verified with Verus:
  - `decimal`, `text`: numerals, lines, splitting, trimming and searching on characters,
    with the semantics of the corresponding `str` methods;
  - `calendar_date`: dates, their order, `yyyymmdd` parsing and display;
  - `gameinfo`: game information, its order, report addresses, reading game center addresses;
  - `command_line`, `scrape_config`: the program's options, and the configuration, job
    count and benchmarks that an argument list gives;
  - `scrape`: errors, sorting and splitting scrape results, dropping duplicate results;
  - `jobs`: how games are shared out among worker threads;
  - `html`, `report`: reading the statistics of a game out of its HTML reports;
  - `timing`: the slowest, fastest and total time of benchmark runs.
- `tests/` runs the library on concrete values.
- `app/` is the program around it: the usage text, HTTP requests, threads, progress bars,
  JSON files and benchmark timing.

## What is trusted

Each `#[verifier::external_body]` function in `src/` makes one outside call and states what
it assumes of it in its contract: `String::push`, `str::to_uppercase`, the clock (`SystemTime::now` read through
`chrono::DateTime::from_timestamp`),
the `getopts` parse of the argument list and the queries of the `select` crate. The results
of `str::to_uppercase`, of the parse and of the `select` queries are named by
`uninterp spec fn`s, so the contracts that use them say exactly which call was made, not
what it returns.
