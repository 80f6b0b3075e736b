# loa_sim

The verified core of a combat simulator for two classes (arcana and berserker): the
event queue, cooldowns and combo phases, buffs, the arcana card hand, the action-priority
list and its scheduler, and the builder pipelines that turn a character into profiles.

- `src/` is the library, written in Verus. Every function states in `requires` / `ensures`
  what it does, and the public `law_*` proof functions state properties that span several
  calls (an expiry event from before a refresh never removes the refreshed buff, a hand
  never holds more than two cards, phases and not registration order decide when a build
  step runs, and so on).
  - `engine/`: events, cooldowns, buffs, cards, random numbers, trigger rules and
    effects (sequences, chances, random choices and schedules among them), the bookkeeping
    of a cast, the scheduler of the action list and what a trace shows.
  - `builder/`: the action-priority list compiler, the skill and stat pipelines, the card
    pool, engraving rows and the names used by effect data.
  - `collections.rs`: the `hashbrown` tables, each behind small trusted wrappers whose
    contracts say what the call does to the table's contents.
- `app/` is ordinary Rust around the library: reading action-list documents with
  `serde_yaml`, and the parts that work on floating-point numbers (fractional random
  draws, class resources, stat modifiers).
  app/ does not run a fight or build a character profile: the simulator's event loop,
  damage formula, cast snapshots and stat registration work on floating-point numbers,
  and the profile types they are written against are not part of this project's sources.
  The integer decisions of that loop stand in the library (the event queue, cooldowns and
  charges, the bookkeeping of a cast, buffs, cards, trigger effects, the action list).
- `tests/` runs the library on concrete values.

Values that the game keeps as fractions are kept here as integers: condition values and
draw weights in thousandths, chances in millionths.
