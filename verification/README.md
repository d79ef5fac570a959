# Loudstone rules

The game rules of Loudstone, a voxel survival game, as a library whose
behaviour is stated in contracts and proved with Verus.

`src/` is the library, every function in it verified but two trusted wrappers
around std (lossy UTF-8 decoding and `{:?}` formatting) that quote bytes for an
error message:

| Module | |
|---|---|
| `block`, `item` | block and item identities, tool tiers, drops, stack limits, fuels |
| `inventory` | the 36-slot inventory; adding, removing, moving and splitting stacks conserve items |
| `crafting` | the recipe table, shaped recipes placed anywhere in the grid, shapeless recipes, smelting |
| `chunk` | chunk storage with the 8x8x8 sub-voxel carve masks, and the damage layer's invariant |
| `ui` | which panel is open, moving stacks with the cursor, taking crafted and smelted output, where items go back when a panel closes (nothing lost), and what a right click does |
| `mesh` | chunk neighbourhood addressing, face winding, which faces are drawn |
| `mob` | mob kinds, drops and health, and the mob brain: one tick of the AI state machine (`mob_step`) over yes-or-no senses |
| `audio`, `camera`, `gauntlet`, `cli` | sound-bank layout, fly-key input, the playtest robot's action choice, flags |
| `furnaces` | forgetting furnaces whose block is gone, and handing back what they held |
| `ordered_map` | a vector map kept in strictly increasing key order |
| `save`, `save_write`, `save_read` | the binary save format: writer, parser, error messages |
| `save_laws`, `save_truncation` | round trip, version 1 compatibility, byte stability, truncation |

`app/` is the program around it: argument handling, the save file on disk, and
the floating-point parts (furnace clock, camera, mining speed, the mob timers
and distances that become the brain's senses) that Verus does not take.

`tests/` runs the library on concrete values.
