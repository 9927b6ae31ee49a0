# Shuffle

The core of a keyboard-driven file manager for macOS, with its contracts proved
by Verus.

`src/` is the library. It holds everything that decides: listings and their
order, fuzzy search and its ranking, tabs and panes, the command palette, text
fields and key bindings, menus, the sidebar, settings and their files, icons and
dates, and the installation of updates. Every function states what it returns
and how it changes what it is given; `law_…` functions state what holds of
several of them together.

What the library takes from other crates (image decoding and scaling, the
formatting of dates, parallel ranking) stands behind small functions whose
contracts are believed; each says so in its comment.

`app/` draws what the library lays out, reads and writes files, and calls the
programs that the library names. `tests/` runs the library on examples.
