# x8

Hidden parameter discovery for web applications: requests are sent with many
parameter names at once, and a parameter is found when it changes the status code,
the page, or how often its value is reflected.

The library in `src/` is written in Verus and proved against its contracts:

- `text`: the string operations the rest is specified with (search, split, lines,
  replace, join, trim, decimal digits, sorting).
- `matching`, `diff`, `utils`: regular expressions, line diffs of pages (Myers' edit
  script of the `diffs` crate turned into hunk headers), random words and colors.
- `network`: request defaults from a url, requests with their parameters filled in
  (templates, joiners, percent-encoding, injection points), and responses compared
  with the page, reflections counted, words of the page collected.
- `config`: the settings, raw request files, default headers and the values given on
  the command line.
- `runner`: found parameters and their deduplication, the output formats, and the
  decisions of a search: how many parameters go into one request, when the page is
  stable, which chunks are checked again, which fixed values are tried next.

`app/` is the command line program around it: argument parsing, the HTTP client,
progress bars, files and the JSON output. `tests/` runs the library on examples.
