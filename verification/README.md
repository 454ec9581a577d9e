# mls

A colourful `ls`: it lists the files and directories named on its command
line in a grid that fits the terminal, in a long listing (permissions,
owner, date, size, extended attributes) or as a tree.

- `src/` is the library, verified with Verus: the command-line parser
  (`ext::flarg`) and the flags it yields (`args`), the calendar
  (`datetime`), the columns of an entry (`file` and its modules), the
  orders of a listing (`sort`), the three layouts (`display`) and what is
  printed for a group of entries (`listing`).
- `app/` is the program around it: reading the command line, the file
  system and the terminal, and printing.
- `tests/` runs the library on concrete values.
