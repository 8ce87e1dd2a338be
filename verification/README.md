# prmn

A terminal project manager: projects live in category directories, a menu
lists categories and their projects, a fuzzy search covers all of them, and
the chosen project opens in an editor (or its path is printed).

- `src/` is the verified library (Verus): the configuration model and its
  loading and saving decisions (`data`), the file layout (`paths`), the
  command-line grammar (`cmd`), the listings and label order (`listing`),
  the fuzzy ranking (`rank`), the interface decisions (`ui`) and the
  string helpers they rest on (`text`).
- `app/` is the program around it: terminal interface (cursive), file
  access, and the RON configuration file (serde).
- `tests/` exercises the library on concrete values.
