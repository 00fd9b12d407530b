# captain_calc

A production calculator for *Captain of Industry*, with its planning logic
verified by Verus.

## Layout

- `src/` — the verified library.
  - `text` — whitespace, tokenising, integer parsing, trimming, tag lists,
    code-point order, stable sorting.
  - `model` — identifiers, resources, buildings, research, balance-sheet
    entries (`BalanceIndex`), island population needs and their defaults.
  - `engine` — recipe selection under research and preferences (`solver`),
    the shape of a solved chain or its first error (`plan`), balance-sheet
    ordering and bookings (`balance`), and gap-suggestion choices (`gap`).
  - `calculator` — the shape of a recipe chain for the recipe calculator.
  - `cli` — the command language of the prompt.
  - `gui`, `ui` — the island ledger, the recipe editor form and the recipe
    browser's filters.
  - `error`, `i18n`, `data` — errors, locales, the calculator's data model.
- `tests/` — tests of the library, run against the compiled crate.
- `app/` — the command-line program: loading the JSON game data, laying
  rates per minute (floating point) over the plans the library makes,
  printing tables, and the interactive prompt.

The library never handles floating point: wherever a rate, a multiplier or
a machine count enters, the library decides the structure (which recipe,
which building, which entry, in which order) and the program computes the
numbers over it.

There is no graphical interface: the program is the command-line prompt
only. The state and filters that a desktop front end would show (the island
ledger, the recipe editor form, the data and recipe browsers) are in the
library, verified, but nothing draws them.
