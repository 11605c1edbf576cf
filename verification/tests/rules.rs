use rust_invaders::combat::{explosion_animation_step, player_laser_hit_enemy, HitAction};
use rust_invaders::enemy::formation::FormationMaker;
use rust_invaders::enemy::{enemy_fire_criteria, fire_decision, EnemyCount, ShouldRun};
use rust_invaders::player::{player_fire, player_keyboard_direction};
use rust_invaders::{ENEMY_MAX, EXPLOSION_LEN, FORMATION_MEMBERS_MAX};

#[test]
fn keyboard_direction_follows_arrow_keys() {
    assert_eq!(player_keyboard_direction(false, false), 0);
    assert_eq!(player_keyboard_direction(true, false), -1);
    assert_eq!(player_keyboard_direction(false, true), 1);
}

#[test]
fn keyboard_left_wins_over_right() {
    assert_eq!(player_keyboard_direction(true, true), -1);
}

#[test]
fn player_fires_two_lasers_right_then_left() {
    assert_eq!(player_fire(true, true), vec![1, -1]);
}

#[test]
fn player_holds_fire_without_key_or_player() {
    assert!(player_fire(true, false).is_empty());
    assert!(player_fire(false, true).is_empty());
    assert!(player_fire(false, false).is_empty());
}

#[test]
fn enemy_count_stops_at_max() {
    let mut count = EnemyCount(0);
    let mut spawned = 0u32;
    for _ in 0..10 {
        if count.try_spawn() {
            spawned += 1;
        }
    }
    assert_eq!(spawned, ENEMY_MAX);
    assert_eq!(count.0, ENEMY_MAX);
}

#[test]
fn enemy_count_above_max_is_left_alone() {
    let mut count = EnemyCount(ENEMY_MAX + 3);
    assert!(!count.try_spawn());
    assert_eq!(count.0, ENEMY_MAX + 3);
}

#[test]
fn enemy_count_first_tick_spawns() {
    let mut count = EnemyCount(0);
    assert!(count.try_spawn());
    assert_eq!(count.0, 1);
}

#[test]
fn fire_decision_follows_roll() {
    assert_eq!(fire_decision(true), ShouldRun::Yes);
    assert_eq!(fire_decision(false), ShouldRun::No);
}

#[test]
fn enemy_fire_criteria_fires_about_once_in_sixty() {
    let mut yes = 0u32;
    for _ in 0..10_000 {
        if enemy_fire_criteria() == ShouldRun::Yes {
            yes += 1;
        }
    }
    // Expected about 167; the bounds are many standard deviations wide.
    assert!(yes > 80 && yes < 300, "fired {} times", yes);
}

#[test]
fn formation_maker_groups_enemies() {
    let mut maker: FormationMaker<u32> = FormationMaker::default();
    let mut drawn = 0u32;
    let mut results = Vec::new();
    for _ in 0..(3 * FORMATION_MEMBERS_MAX) {
        let f = maker.make(|| {
            drawn += 1;
            drawn * 100
        });
        results.push(f);
    }
    assert_eq!(drawn, 3);
    let mut expected = Vec::new();
    for k in 1..=3u32 {
        for _ in 0..FORMATION_MEMBERS_MAX {
            expected.push(k * 100);
        }
    }
    assert_eq!(results, expected);
}

#[test]
fn formation_maker_first_call_draws() {
    let mut maker: FormationMaker<String> = FormationMaker::default();
    let f = maker.make(|| "first".to_string());
    assert_eq!(f, "first");
    let g = maker.make(|| "second".to_string());
    assert_eq!(g, if FORMATION_MEMBERS_MAX > 1 { "first" } else { "second" });
}

#[test]
fn laser_hits_resolved_laser_by_laser() {
    let hits = vec![vec![false, true, false], vec![true, false, true]];
    let actions = player_laser_hit_enemy(&hits);
    assert_eq!(
        actions,
        vec![
            HitAction::DespawnEnemy(1),
            HitAction::DespawnLaser(0),
            HitAction::SpawnExplosionAt(1),
            HitAction::DespawnEnemy(0),
            HitAction::DespawnLaser(1),
            HitAction::SpawnExplosionAt(0),
            HitAction::DespawnEnemy(2),
            HitAction::DespawnLaser(1),
            HitAction::SpawnExplosionAt(2),
        ]
    );
}

#[test]
fn laser_misses_give_no_action() {
    assert!(player_laser_hit_enemy(&vec![]).is_empty());
    assert!(player_laser_hit_enemy(&vec![vec![], vec![false, false]]).is_empty());
}

#[test]
fn one_enemy_hit_by_two_lasers_explodes_twice() {
    let actions = player_laser_hit_enemy(&vec![vec![true], vec![true]]);
    let explosions = actions
        .iter()
        .filter(|a| **a == HitAction::SpawnExplosionAt(0))
        .count();
    assert_eq!(explosions, 2);
}

#[test]
fn explosion_waits_for_timer() {
    assert_eq!(explosion_animation_step(3, false), (3, false));
}

#[test]
fn explosion_advances_and_ends_on_last_cell() {
    assert_eq!(explosion_animation_step(0, true), (1, false));
    assert_eq!(explosion_animation_step(EXPLOSION_LEN - 2, true), (EXPLOSION_LEN - 1, false));
    assert_eq!(explosion_animation_step(EXPLOSION_LEN - 1, true), (EXPLOSION_LEN, true));
}

#[test]
fn explosion_plays_whole_sheet() {
    let mut index = 0usize;
    let mut finished_frames = 0usize;
    let mut frame = 0usize;
    loop {
        // the timer finishes every other frame
        let finished = frame % 2 == 1;
        frame += 1;
        let (next, despawn) = explosion_animation_step(index, finished);
        if finished {
            finished_frames += 1;
        }
        index = next;
        if despawn {
            break;
        }
        assert!(index < EXPLOSION_LEN);
    }
    assert_eq!(finished_frames, EXPLOSION_LEN);
    assert_eq!(index, EXPLOSION_LEN);
}
