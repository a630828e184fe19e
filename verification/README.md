# cloud_torrent

A torrent server that keeps its torrents in a session of `librqbit`, follows RSS and Atom
feeds and loads what is new in them, and searches the sites that its configuration names.
It is driven from a browser.

What the server decides is a library that Verus proves:

- `src/text.rs`, `src/order.rs`, `src/textmap.rs`: texts, stable sorting, values under names;
- `src/outside/`: what comes from other crates and from the machine, each call with the
  contract that is believed of it;
- `src/rss/`: reading a feed, what is kept of it, and what a refresh loads;
- `src/engine/`: rates, disk space, which torrents run, trackers, commands, the list;
- `src/server/`: who is let in, files and assets, search results, answers to failures;
- `src/ui.rs`: what the page in the browser decides.

The functions named `law_..` state what holds across functions and are proved like the rest.

`app/` is the program around the library: arguments, HTTP, the database, the session, and
the page in the browser, which is compiled for WebAssembly. `tests/` runs the library with
the crates that it calls.
