# pratmo_core

The verified core of the PRATMO stratospheric photochemical box model: the
integer and text logic of the model, each function with a contract that
Verus proves.

- `src/` is the library:
  - `text`, `lines`, `blocks`: fixed-format fields, Unicode trimming, integer
    parsing and line-by-line reading of the input files;
  - `rates`, `control`, `spectral`, `densities`, `runconfig`, `profiles`,
    `newatm`: the readers of the rate file, the run control file, the layout
    of the spectral-data file (header, band numbers, J-value titles and the
    iodine cross-section slots), the initial densities, the run
    configuration, the atmosphere and ozone profiles and the
    atmosphere-change records;
  - `species`, `iodine`, `stoich`, `placement`: the implicit-species slot
    layout, the iodine reaction table, the stoichiometry of the production,
    loss and Jacobian terms, and the scatter and gather of species values
    through the slot map;
  - `hunt`, `climatology`, `model`: bracket search, the climatology grid and
    the small decisions of the model drivers;
  - `format`, `report`, `pathreport`, `listing`, `columns`, `roundtrip`: the
    `I5`/`A8` output lines, the report headers, the layout of the climatology
    output table, and the laws that `I5` and `A8` lines read back.
- `tests/` runs the library on concrete values.
- `app/` is the command-line runner: it reads the input files and hands
  their bytes to the library.

The floating-point integration of the chemistry is not part of this crate.
