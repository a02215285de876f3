# navdata

Conversion of navigation data into the databases of flight simulators, and comparison of such
databases, with the logic verified in Verus.

## Layout

- `src/`: the verified library. It parses the source files, decides what is written and lays it
  out, builds every SQL statement, matches the legs of procedures with their fixes, merges airways,
  and compares tables.
- `tests/`: tests of the library, among them tests on databases in memory.
- `app/`: the command line around the library: files, databases, logging, and everything that is
  computed in floating point (distances, bearings, the magnetic model).

A real number is carried through the library as a checked literal, or as the bit pattern of a
double-precision value.

## Use

```
navdata --config config.ini                     # all steps, then the indexes are dropped
navdata --config config.ini --step airways      # one step
navdata --dataset inibuilds --step ndbs         # the other table layout
navdata compare --db-a a.s3db --db-b b.s3db     # compare two databases
```

The paths stand in the section `[paths]` of the settings file. The coefficients of the magnetic
model are read from `magcof/WMMHR.COF` next to the executable.
