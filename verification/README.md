# local-ham-dashboard

A terminal and web dashboard for amateur radio operators (time, weather, solar
indices and HF band conditions, satellite passes, a news ticker and a day/night
map), with its logic verified in Verus.

- `src/` is the verified library:
  - `text`: text as character sequences: trimming, substring search, line splitting,
    decimal numerals.
  - `solar`: reading indices and band conditions out of the solar feed, tag by tag.
  - `news`: headlines from RSS feeds (read with the `rss` crate).
  - `satellite`: element sets of the satellite feed and the choice of the five
    earliest passes.
  - `weather`: the weather panel and the humidity reading.
  - `display`: what each panel shows, before its data has come and after: band
    condition levels, the callsign and grid-square banners (the lines of the standard
    `figlet-rs` font's figure, taken as a named result of that crate), the news
    ticker, the day/night map text, the solar panel and the satellite list.
  - `tui`: the decisions of the running loops: scrolling, tick timing, quitting,
    refresh periods and what a refresh keeps.
- `app/` is the program around it: configuration, HTTP fetching, orbit propagation
  and sun position (floating point), the ratatui terminal and the axum web server.
- `tests/` exercises the library on concrete inputs.
