# monzo_finops

A command-line tool for Monzo accounts: list accounts, pots and transactions,
deposit into pots (one at a time or from a CSV batch file), and repair and
filter Virgin credit card statements.

- `src/` is the verified library: amounts of money (`currency`), account types
  (`accounts`), batch rows and counts (`batch`), deposit destinations
  (`config`), pot and deposit lookup (`pots`), account lookup
  (`transactions`), statement repair and filtering (`parsers`), and the
  text helpers they share (`text`).
- `app/` is the program around it: the command line, the calls to the Monzo
  API, reading and writing files, and the serde forms of the library's types.
- `tests/` exercises the library on concrete values.
