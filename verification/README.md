# gaia_maker

The rules of Gaia Maker, a planet terraforming game, as a library verified
with Verus, and a small command line front around it.

## Layout

- `src/` — the verified library.
  - `defs.rs`: biomes, structures, animal sizes and habitats, civilization
    ages, gases, buildings.
  - `animal_id.rs`: animal ids, short texts held in an `arrayvec::ArrayString`.
  - `geom.rs`: coordinates on a map that wraps around in x.
  - `tile_events.rs`: the events of a tile (fire, black dust, plague, war, …),
    one per kind, kept in a `smallvec::SmallVec`.
  - `planet.rs`: the map, tiles, structures, space buildings, civilizations,
    counting tiles, and a tile's events going on through a cycle.
  - `requirement.rs`, `achivement.rs`, `tutorial.rs`: what the planet must
    meet for the tutorial and for each achievement, and unlocking them.
  - `achivement_save.rs`: the unlocked achievements as MessagePack in base64.
  - `events.rs`, `reports.rs`: planet events, wars, notices and warnings.
  - `war.rs`: a cycle of the nuclear war, with the random draws given.
  - `exodus.rs`: a cycle of a civilization's exodus, with the random draws
    given.
  - `plague.rs`: a cycle of a plague over the map, with the cures given.
  - `start_planet.rs`: the order in which start planets are offered.
  - `savefile.rs`: the save file format, save file names and listings.
  - `platform.rs`: window size, save directories among storage keys, and the
    messages to the game launcher.
  - `assets.rs`: PNG images with a grey copy, gzip data, texture pieces.
  - `sim_control.rs`: game speed and which frames advance or save the planet.
  - `text.rs`: languages, lists of random names, and filling in the
    `{$name}` placeholders of a text.
- `tests/` — tests of the library on concrete values.
- `app/` — the program: arguments, files under the data directory, the
  launcher connection, the debug log of a tile, and the serialized forms of
  the library's values.

The simulation of climate, biomass and populations runs on floating-point
numbers and stays outside the library; where a rule depends on such a
measure, the library takes the outcome of the comparison as a `bool`.
