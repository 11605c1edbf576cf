# rust_invaders

The rules of a small Bevy space shooter, verified with Verus.

- `src/` – the verified rules, on plain values:
  - `player.rs`: arrow keys to horizontal direction; which lasers a shot fires.
  - `enemy.rs`: the enemy spawn cap (`EnemyCount`), the enemies' random fire
    criterion (through `rand`).
  - `enemy/formation.rs`: `FormationMaker`, which groups enemies into
    formations of `FORMATION_MEMBERS_MAX`.
  - `combat.rs`: player laser hits to despawns and explosions; explosion
    animation frames.
- `app/` – the Bevy program: windows, sprites, timers and all floating-point
  geometry, calling the rules above.
- `tests/` – tests of the rules.
