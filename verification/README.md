# servofetch

Python bindings for servo-fetch, with the decisions they make proved in Verus.

- `src/` is the verified library:
  - `policy` — the process-wide network policy (strict or permissive), fixed by the
    first browser of a process;
  - `request` — how a browser's defaults and a call's overrides settle a fetch, a
    site map or a crawl;
  - `page` — a fetched page, its metrics, the input of content extraction and the
    screenshot-file decision;
  - `results` — mapped URLs and crawl results;
  - `onion` — a browser's onion options and the process-wide onion transport they
    configure;
  - `wire` — the wire format of the onion transport in servo's patched networking:
    request building, head/body splitting, status lines, response heads, chunked
    bodies and response assembly, header sanitising. The Python layer does not call it;
    servo's networking runs its own copy of this logic;
  - `error` — failures as the Python exceptions they are raised as.
- `app/` is the PyO3 extension module: Python classes, process-wide locks,
  floating-point timeouts, and the calls into servo-fetch.
- `tests/` runs the library on concrete values.
