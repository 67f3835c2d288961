# void_portal

The rules of the Void Portal idle game, verified with Verus, and the Bevy
game around them.

- `src/` is the verified library:
  - `requirements`: level conditions and the values they gate;
  - `portal`: the portal's active and unlocked levels, the spawn counter,
    upgrade slot lookup and the spawn-timer decision;
  - `targeting`: spawn age, oldest-monster target selection, and the decision
    steps of player units and soldiers;
  - `combat`: which weapons strike in a frame, and which monster a projectile
    hits.
- `app/` is the Bevy program: systems, scenes, UI, and the stat formulas,
  which work on floating point and therefore stay outside the library.
- `tests/` exercises the library on concrete values.
