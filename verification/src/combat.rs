//! Laser hits and explosions.
use vstd::prelude::*;

use crate::EXPLOSION_LEN;

verus! {

/// What the game does about a laser hitting an enemy. Lasers and enemies are
/// named by their position in the frame's list of player lasers and of
/// enemies.
#[derive(Clone, Copy, Debug, PartialEq, Eq, Structural)]
pub enum HitAction {
    /// Remove the enemy.
    DespawnEnemy(usize),
    /// Remove the laser.
    DespawnLaser(usize),
    /// Spawn an explosion where the enemy is.
    SpawnExplosionAt(usize),
}

/// The actions for laser `laser` hitting enemy `enemy`, in order.
pub open spec fn spec_pair_actions(laser: int, enemy: int) -> Seq<HitAction> {
    seq![
        HitAction::DespawnEnemy(enemy as usize),
        HitAction::DespawnLaser(laser as usize),
        HitAction::SpawnExplosionAt(enemy as usize),
    ]
}

/// The actions for laser `laser`, whose hit or miss of each enemy is `row`,
/// enemy by enemy.
pub open spec fn spec_row_actions(laser: int, row: Seq<bool>) -> Seq<HitAction>
    decreases row.len(),
{
    if row.len() == 0 {
        Seq::empty()
    } else {
        spec_row_actions(laser, row.drop_last()) + if row.last() {
            spec_pair_actions(laser, row.len() - 1)
        } else {
            Seq::empty()
        }
    }
}

/// The actions for a frame in which laser `i` hits enemy `j` exactly when
/// `hits[i][j]`: laser by laser, and for each laser enemy by enemy.
pub open spec fn spec_hit_actions(hits: Seq<Seq<bool>>) -> Seq<HitAction>
    decreases hits.len(),
{
    if hits.len() == 0 {
        Seq::empty()
    } else {
        spec_hit_actions(hits.drop_last()) + spec_row_actions(hits.len() - 1, hits.last())
    }
}

/// Resolves the player's laser hits of one frame. `hits[i][j]` tells whether
/// player laser `i` overlaps enemy `j`. For every such pair, laser by laser
/// and enemy by enemy, the enemy is despawned, the laser is despawned, and an
/// explosion is spawned at the enemy's position.
pub fn player_laser_hit_enemy(hits: &Vec<Vec<bool>>) -> (actions: Vec<HitAction>)
    ensures
        actions@ == spec_hit_actions(hits.deep_view()),
        spec_resolves_hits(hits.deep_view(), actions@),
{
    let ghost dv = hits.deep_view();
    let mut actions: Vec<HitAction> = Vec::new();
    let mut i: usize = 0;
    while i < hits.len()
        invariant
            i <= hits.len(),
            dv == hits.deep_view(),
            actions@ == spec_hit_actions(dv.take(i as int)),
        decreases hits.len() - i,
    {
        let row = &hits[i];
        let mut j: usize = 0;
        while j < row.len()
            invariant
                i < hits.len(),
                j <= row.len(),
                dv == hits.deep_view(),
                row@ == dv[i as int],
                actions@ == spec_hit_actions(dv.take(i as int)) + spec_row_actions(
                    i as int,
                    row@.take(j as int),
                ),
            decreases row.len() - j,
        {
            if row[j] {
                actions.push(HitAction::DespawnEnemy(j));
                actions.push(HitAction::DespawnLaser(i));
                actions.push(HitAction::SpawnExplosionAt(j));
            }
            assert(row@.take(j + 1).drop_last() =~= row@.take(j as int));
            j = j + 1;
        }
        assert(row@.take(row.len() as int) =~= row@);
        assert(dv.take(i + 1).drop_last() =~= dv.take(i as int));
        i = i + 1;
    }
    assert(dv.take(hits.len() as int) =~= dv);
    proof {
        assert forall|k: int| 0 <= k < dv.len() implies #[trigger] dv[k].len() <= usize::MAX by {
            let v = hits@[k];
            assert(dv[k].len() == v@.len());
            assert(v@.len() == v.len());
        }
        lemma_hit_actions_shape(dv);
    }
    actions
}

/// Which actions a single hit pair contributes.
proof fn lemma_pair_actions_contain(laser: int, enemy: int, x: HitAction)
    requires
        0 <= laser <= usize::MAX,
        0 <= enemy <= usize::MAX,
    ensures
        spec_pair_actions(laser, enemy).contains(x) <==> (x == HitAction::DespawnEnemy(
            enemy as usize,
        ) || x == HitAction::DespawnLaser(laser as usize) || x == HitAction::SpawnExplosionAt(
            enemy as usize,
        )),
{
    broadcast use vstd::seq_lib::lemma_seq_contains;

    let s = spec_pair_actions(laser, enemy);
    if x == HitAction::DespawnEnemy(enemy as usize) {
        assert(s[0] == x);
    }
    if x == HitAction::DespawnLaser(laser as usize) {
        assert(s[1] == x);
    }
    if x == HitAction::SpawnExplosionAt(enemy as usize) {
        assert(s[2] == x);
    }
}

/// An action comes out of a laser's row exactly when some enemy it hits
/// contributes it.
proof fn lemma_row_actions_contain(laser: int, row: Seq<bool>, x: HitAction)
    requires
        0 <= laser <= usize::MAX,
        row.len() <= usize::MAX,
    ensures
        spec_row_actions(laser, row).contains(x) <==> exists|j: int|
            0 <= j < row.len() && #[trigger] row[j] && spec_pair_actions(laser, j).contains(x),
    decreases row.len(),
{
    broadcast use vstd::seq_lib::lemma_seq_concat_contains_all_elements;
    broadcast use vstd::seq_lib::lemma_seq_empty_contains_nothing;

    if row.len() > 0 {
        let prefix = row.drop_last();
        let last = row.len() - 1;
        lemma_row_actions_contain(laser, prefix, x);
        if spec_row_actions(laser, row).contains(x) {
            if spec_row_actions(laser, prefix).contains(x) {
                let j = choose|j: int|
                    0 <= j < prefix.len() && #[trigger] prefix[j] && spec_pair_actions(
                        laser,
                        j,
                    ).contains(x);
                assert(row[j]);
            } else {
                assert(row[last]);
            }
        }
        if exists|j: int|
            0 <= j < row.len() && #[trigger] row[j] && spec_pair_actions(laser, j).contains(x) {
            let j = choose|j: int|
                0 <= j < row.len() && #[trigger] row[j] && spec_pair_actions(laser, j).contains(x);
            if j < last {
                assert(prefix[j]);
            }
        }
    }
}

/// An action comes out of a frame exactly when some hit pair contributes it.
proof fn lemma_hit_actions_contain(hits: Seq<Seq<bool>>, x: HitAction)
    requires
        hits.len() <= usize::MAX,
        forall|i: int| 0 <= i < hits.len() ==> #[trigger] hits[i].len() <= usize::MAX,
    ensures
        spec_hit_actions(hits).contains(x) <==> exists|i: int, j: int|
            0 <= i < hits.len() && 0 <= j < hits[i].len() && #[trigger] hits[i][j]
                && spec_pair_actions(i, j).contains(x),
    decreases hits.len(),
{
    broadcast use vstd::seq_lib::lemma_seq_concat_contains_all_elements;
    broadcast use vstd::seq_lib::lemma_seq_empty_contains_nothing;

    if hits.len() > 0 {
        let prefix = hits.drop_last();
        let last = hits.len() - 1;
        lemma_hit_actions_contain(prefix, x);
        lemma_row_actions_contain(last, hits[last], x);
        if spec_hit_actions(hits).contains(x) {
            if spec_hit_actions(prefix).contains(x) {
                let (i, j) = choose|i: int, j: int|
                    0 <= i < prefix.len() && 0 <= j < prefix[i].len() && #[trigger] prefix[i][j]
                        && spec_pair_actions(i, j).contains(x);
                assert(hits[i][j]);
            } else {
                let j = choose|j: int|
                    0 <= j < hits[last].len() && #[trigger] hits[last][j] && spec_pair_actions(
                        last,
                        j,
                    ).contains(x);
                assert(hits[last][j]);
            }
        }
        if exists|i: int, j: int|
            0 <= i < hits.len() && 0 <= j < hits[i].len() && #[trigger] hits[i][j]
                && spec_pair_actions(i, j).contains(x) {
            let (i, j) = choose|i: int, j: int|
                0 <= i < hits.len() && 0 <= j < hits[i].len() && #[trigger] hits[i][j]
                    && spec_pair_actions(i, j).contains(x);
            if i < last {
                assert(prefix[i][j]);
            } else {
                assert(hits[last][j]);
            }
        }
    }
}

/// Hits are resolved exactly: enemy `enemy` is despawned, and an explosion
/// spawned where it is, exactly when some laser hits it; laser `laser` is
/// despawned exactly when it hits some enemy. (Frames come from vectors, so
/// their sizes fit in `usize`.)
pub proof fn lemma_hits_resolved(hits: Seq<Seq<bool>>, laser: usize, enemy: usize)
    requires
        hits.len() <= usize::MAX,
        forall|i: int| 0 <= i < hits.len() ==> #[trigger] hits[i].len() <= usize::MAX,
    ensures
        spec_hit_actions(hits).contains(HitAction::DespawnEnemy(enemy)) <==> exists|i: int|
            0 <= i < hits.len() && enemy < hits[i].len() && #[trigger] hits[i][enemy as int],
        spec_hit_actions(hits).contains(HitAction::SpawnExplosionAt(enemy)) <==> exists|i: int|
            0 <= i < hits.len() && enemy < hits[i].len() && #[trigger] hits[i][enemy as int],
        spec_hit_actions(hits).contains(HitAction::DespawnLaser(laser)) <==> laser < hits.len()
            && exists|j: int| 0 <= j < hits[laser as int].len() && #[trigger] hits[laser as int][j],
{
    lemma_hit_actions_contain(hits, HitAction::DespawnEnemy(enemy));
    lemma_hit_actions_contain(hits, HitAction::SpawnExplosionAt(enemy));
    lemma_hit_actions_contain(hits, HitAction::DespawnLaser(laser));
    assert forall|i: int, j: int|
        0 <= i < hits.len() && 0 <= j < hits[i].len() implies (spec_pair_actions(i, j).contains(
            HitAction::DespawnEnemy(enemy),
        ) <==> j == enemy) && (spec_pair_actions(i, j).contains(
            HitAction::SpawnExplosionAt(enemy),
        ) <==> j == enemy) && (spec_pair_actions(i, j).contains(HitAction::DespawnLaser(laser))
            <==> i == laser) by {
        lemma_pair_actions_contain(i, j, HitAction::DespawnEnemy(enemy));
        lemma_pair_actions_contain(i, j, HitAction::SpawnExplosionAt(enemy));
        lemma_pair_actions_contain(i, j, HitAction::DespawnLaser(laser));
    }
}

/// Enemy of the `m`-th resolved hit in an action list (named by its first
/// action), or -1 where that action is not an enemy despawn.
pub open spec fn spec_hit_enemy(actions: Seq<HitAction>, m: int) -> int {
    match actions[3 * m] {
        HitAction::DespawnEnemy(e) => e as int,
        _ => -1,
    }
}

/// Laser of the `m`-th resolved hit in an action list (named by its second
/// action), or -1 where that action is not a laser despawn.
pub open spec fn spec_hit_laser(actions: Seq<HitAction>, m: int) -> int {
    match actions[3 * m + 1] {
        HitAction::DespawnLaser(l) => l as int,
        _ => -1,
    }
}

/// Hit `(l1, e1)` comes before hit `(l2, e2)`: laser by laser, then enemy by
/// enemy.
pub open spec fn spec_hit_before(l1: int, e1: int, l2: int, e2: int) -> bool {
    l1 < l2 || (l1 == l2 && e1 < e2)
}

/// `actions` resolves the frame `hits` (`hits[i][j]`: laser `i` overlaps
/// enemy `j`): it is made of groups of three actions, one group per hit
/// pair `(i, j)` -- despawn enemy `j`, despawn laser `i`, explosion at enemy
/// `j` -- with one group for every hit pair, no group for any other pair,
/// and the groups in strictly increasing order, laser by laser and then
/// enemy by enemy (so no pair is resolved twice).
pub open spec fn spec_resolves_hits(hits: Seq<Seq<bool>>, actions: Seq<HitAction>) -> bool {
    &&& actions.len() % 3 == 0
    &&& forall|m: int|
        #![trigger spec_hit_laser(actions, m)]
        #![trigger spec_hit_enemy(actions, m)]
        0 <= m < actions.len() / 3 ==> {
            &&& actions[3 * m] == HitAction::DespawnEnemy(spec_hit_enemy(actions, m) as usize)
            &&& actions[3 * m + 1] == HitAction::DespawnLaser(spec_hit_laser(actions, m) as usize)
            &&& actions[3 * m + 2] == HitAction::SpawnExplosionAt(
                spec_hit_enemy(actions, m) as usize,
            )
            &&& 0 <= spec_hit_laser(actions, m) < hits.len()
            &&& 0 <= spec_hit_enemy(actions, m) < hits[spec_hit_laser(actions, m)].len()
            &&& hits[spec_hit_laser(actions, m)][spec_hit_enemy(actions, m)]
        }
    &&& forall|m1: int, m2: int|
        0 <= m1 < m2 < actions.len() / 3 ==> spec_hit_before(
            #[trigger] spec_hit_laser(actions, m1),
            spec_hit_enemy(actions, m1),
            #[trigger] spec_hit_laser(actions, m2),
            spec_hit_enemy(actions, m2),
        )
    &&& forall|i: int, j: int|
        0 <= i < hits.len() && 0 <= j < hits[i].len() && #[trigger] hits[i][j] ==> exists|m: int|
            0 <= m < actions.len() / 3 && #[trigger] spec_hit_laser(actions, m) == i
                && spec_hit_enemy(actions, m) == j
}

/// The actions of one laser's row, as groups of three in increasing enemy
/// order, one per enemy it hits.
proof fn lemma_row_actions_shape(laser: int, row: Seq<bool>)
    requires
        0 <= laser <= usize::MAX,
        row.len() <= usize::MAX,
    ensures
        ({
            let a = spec_row_actions(laser, row);
            &&& a.len() % 3 == 0
            &&& forall|m: int|
                #![trigger spec_hit_laser(a, m)]
                #![trigger spec_hit_enemy(a, m)]
                0 <= m < a.len() / 3 ==> {
                    &&& a[3 * m] == HitAction::DespawnEnemy(spec_hit_enemy(a, m) as usize)
                    &&& a[3 * m + 1] == HitAction::DespawnLaser(laser as usize)
                    &&& a[3 * m + 2] == HitAction::SpawnExplosionAt(spec_hit_enemy(a, m) as usize)
                    &&& spec_hit_laser(a, m) == laser
                    &&& 0 <= spec_hit_enemy(a, m) < row.len()
                    &&& row[spec_hit_enemy(a, m)]
                }
            &&& forall|m1: int, m2: int|
                0 <= m1 < m2 < a.len() / 3 ==> #[trigger] spec_hit_enemy(a, m1)
                    < #[trigger] spec_hit_enemy(a, m2)
            &&& forall|j: int|
                0 <= j < row.len() && #[trigger] row[j] ==> exists|m: int|
                    0 <= m < a.len() / 3 && #[trigger] spec_hit_enemy(a, m) == j
        }),
    decreases row.len(),
{
    if row.len() > 0 {
        let prefix = row.drop_last();
        let last = row.len() - 1;
        lemma_row_actions_shape(laser, prefix);
        let p = spec_row_actions(laser, prefix);
        let t = if row.last() {
            spec_pair_actions(laser, last)
        } else {
            Seq::empty()
        };
        let a = spec_row_actions(laser, row);
        assert(a == p + t);
        let k: int = p.len() as int / 3;
        assert forall|m: int| 0 <= m < k implies spec_hit_enemy(a, m) == spec_hit_enemy(p, m)
            && spec_hit_laser(a, m) == spec_hit_laser(p, m) && a[3 * m] == p[3 * m] && a[3 * m
            + 1] == p[3 * m + 1] && a[3 * m + 2] == p[3 * m + 2] by {
            assert(a[3 * m] == p[3 * m]);
            assert(a[3 * m + 1] == p[3 * m + 1]);
            assert(a[3 * m + 2] == p[3 * m + 2]);
        }
        if row.last() {
            assert(a.len() == p.len() + 3);
            assert(a[3 * k] == t[0]);
            assert(a[3 * k + 1] == t[1]);
            assert(a[3 * k + 2] == t[2]);
            assert(spec_hit_enemy(a, k) == last);
            assert(spec_hit_laser(a, k) == laser);
        } else {
            assert(a =~= p);
        }
        assert forall|m: int|
            #![trigger spec_hit_laser(a, m)]
            #![trigger spec_hit_enemy(a, m)]
            0 <= m < a.len() / 3 implies {
            &&& a[3 * m] == HitAction::DespawnEnemy(spec_hit_enemy(a, m) as usize)
            &&& a[3 * m + 1] == HitAction::DespawnLaser(laser as usize)
            &&& a[3 * m + 2] == HitAction::SpawnExplosionAt(spec_hit_enemy(a, m) as usize)
            &&& spec_hit_laser(a, m) == laser
            &&& 0 <= spec_hit_enemy(a, m) < row.len()
            &&& row[spec_hit_enemy(a, m)]
        } by {
            if m < k {
                assert(spec_hit_enemy(p, m) == spec_hit_enemy(a, m));
                assert(spec_hit_laser(p, m) == spec_hit_laser(a, m));
                assert(prefix[spec_hit_enemy(p, m)] == row[spec_hit_enemy(a, m)]);
            }
        }
        assert forall|m1: int, m2: int| 0 <= m1 < m2 < a.len() / 3 implies #[trigger] spec_hit_enemy(
            a,
            m1,
        ) < #[trigger] spec_hit_enemy(a, m2) by {
            assert(spec_hit_enemy(p, m1) == spec_hit_enemy(a, m1));
            if m2 < k {
                assert(spec_hit_enemy(p, m2) == spec_hit_enemy(a, m2));
            }
        }
        assert forall|j: int| 0 <= j < row.len() && #[trigger] row[j] implies exists|m: int|
            0 <= m < a.len() / 3 && #[trigger] spec_hit_enemy(a, m) == j by {
            if j < last {
                assert(prefix[j]);
                let m = choose|m: int| 0 <= m < p.len() / 3 && #[trigger] spec_hit_enemy(p, m) == j;
                assert(spec_hit_enemy(a, m) == j);
            } else {
                assert(spec_hit_enemy(a, k) == j);
            }
        }
    }
}

/// The actions of a frame resolve its hits.
proof fn lemma_hit_actions_shape(hits: Seq<Seq<bool>>)
    requires
        hits.len() <= usize::MAX,
        forall|i: int| 0 <= i < hits.len() ==> #[trigger] hits[i].len() <= usize::MAX,
    ensures
        spec_resolves_hits(hits, spec_hit_actions(hits)),
    decreases hits.len(),
{
    if hits.len() > 0 {
        let prefix = hits.drop_last();
        let last = hits.len() - 1;
        let row = hits[last];
        assert forall|i: int| 0 <= i < prefix.len() implies #[trigger] prefix[i].len()
            <= usize::MAX by {
            assert(prefix[i] == hits[i]);
        }
        lemma_hit_actions_shape(prefix);
        lemma_row_actions_shape(last, row);
        let p = spec_hit_actions(prefix);
        let r = spec_row_actions(last, row);
        let a = spec_hit_actions(hits);
        assert(a == p + r);
        let k: int = p.len() as int / 3;
        assert forall|m: int| 0 <= m < k implies spec_hit_enemy(a, m) == spec_hit_enemy(p, m)
            && spec_hit_laser(a, m) == spec_hit_laser(p, m) && a[3 * m] == p[3 * m] && a[3 * m
            + 1] == p[3 * m + 1] && a[3 * m + 2] == p[3 * m + 2] by {
            assert(a[3 * m] == p[3 * m]);
            assert(a[3 * m + 1] == p[3 * m + 1]);
            assert(a[3 * m + 2] == p[3 * m + 2]);
        }
        assert forall|m: int| k <= m < a.len() / 3 implies spec_hit_enemy(a, m) == spec_hit_enemy(
            r,
            m - k,
        ) && spec_hit_laser(a, m) == spec_hit_laser(r, m - k) && a[3 * m] == r[3 * (m - k)]
            && a[3 * m + 1] == r[3 * (m - k) + 1] && a[3 * m + 2] == r[3 * (m - k) + 2] by {
            assert(a[3 * m] == r[3 * (m - k)]);
            assert(a[3 * m + 1] == r[3 * (m - k) + 1]);
            assert(a[3 * m + 2] == r[3 * (m - k) + 2]);
        }
        assert(a.len() / 3 == k + r.len() / 3);
        assert forall|m: int|
            #![trigger spec_hit_laser(a, m)]
            #![trigger spec_hit_enemy(a, m)]
            0 <= m < a.len() / 3 implies {
            &&& a[3 * m] == HitAction::DespawnEnemy(spec_hit_enemy(a, m) as usize)
            &&& a[3 * m + 1] == HitAction::DespawnLaser(spec_hit_laser(a, m) as usize)
            &&& a[3 * m + 2] == HitAction::SpawnExplosionAt(spec_hit_enemy(a, m) as usize)
            &&& 0 <= spec_hit_laser(a, m) < hits.len()
            &&& 0 <= spec_hit_enemy(a, m) < hits[spec_hit_laser(a, m)].len()
            &&& hits[spec_hit_laser(a, m)][spec_hit_enemy(a, m)]
        } by {
            if m < k {
                assert(spec_hit_laser(p, m) == spec_hit_laser(a, m));
                assert(spec_hit_enemy(p, m) == spec_hit_enemy(a, m));
                assert(prefix[spec_hit_laser(p, m)] == hits[spec_hit_laser(a, m)]);
            } else {
                assert(spec_hit_laser(r, m - k) == spec_hit_laser(a, m));
                assert(spec_hit_enemy(r, m - k) == spec_hit_enemy(a, m));
            }
        }
        assert forall|m1: int, m2: int| 0 <= m1 < m2 < a.len() / 3 implies spec_hit_before(
            #[trigger] spec_hit_laser(a, m1),
            spec_hit_enemy(a, m1),
            #[trigger] spec_hit_laser(a, m2),
            spec_hit_enemy(a, m2),
        ) by {
            if m2 < k {
                assert(spec_hit_laser(p, m1) == spec_hit_laser(a, m1));
                assert(spec_hit_laser(p, m2) == spec_hit_laser(a, m2));
                assert(spec_hit_enemy(p, m1) == spec_hit_enemy(a, m1));
                assert(spec_hit_enemy(p, m2) == spec_hit_enemy(a, m2));
            } else if m1 < k {
                assert(spec_hit_laser(p, m1) == spec_hit_laser(a, m1));
                assert(spec_hit_laser(r, m2 - k) == spec_hit_laser(a, m2));
            } else {
                assert(spec_hit_laser(r, m1 - k) == spec_hit_laser(a, m1));
                assert(spec_hit_laser(r, m2 - k) == spec_hit_laser(a, m2));
                assert(spec_hit_enemy(r, m1 - k) == spec_hit_enemy(a, m1));
                assert(spec_hit_enemy(r, m2 - k) == spec_hit_enemy(a, m2));
            }
        }
        assert forall|i: int, j: int|
            0 <= i < hits.len() && 0 <= j < hits[i].len() && #[trigger] hits[i][j] implies exists|
            m: int,
        | 0 <= m < a.len() / 3 && #[trigger] spec_hit_laser(a, m) == i && spec_hit_enemy(a, m)
            == j by {
            if i < last {
                assert(prefix[i][j]);
                let m = choose|m: int|
                    0 <= m < p.len() / 3 && #[trigger] spec_hit_laser(p, m) == i && spec_hit_enemy(
                        p,
                        m,
                    ) == j;
                assert(spec_hit_laser(a, m) == i);
            } else {
                assert(row[j]);
                let m = choose|m: int| 0 <= m < r.len() / 3 && #[trigger] spec_hit_enemy(r, m) == j;
                assert(spec_hit_laser(r, m) == last);
                assert(spec_hit_laser(a, m + k) == i);
                assert(spec_hit_enemy(a, m + k) == j);
            }
        }
    } else {
        assert(spec_hit_actions(hits).len() == 0);
    }
}

/// Resolving the player's laser hits is exact: the actions of every frame
/// resolve its hits (see `spec_resolves_hits`: one group of despawn enemy,
/// despawn laser, explosion at the enemy for each hit pair and for no other
/// pair, each pair once, laser by laser and then enemy by enemy). (Frames
/// come from vectors, so their sizes fit in `usize`.)
pub proof fn lemma_hits_resolved_exactly(hits: Seq<Seq<bool>>)
    requires
        hits.len() <= usize::MAX,
        forall|i: int| 0 <= i < hits.len() ==> #[trigger] hits[i].len() <= usize::MAX,
    ensures
        spec_resolves_hits(hits, spec_hit_actions(hits)),
{
    lemma_hit_actions_shape(hits);
}

/// Two resolutions of the same frame agree on their first `m + 1` hits.
proof fn lemma_resolutions_agree_upto(
    hits: Seq<Seq<bool>>,
    a: Seq<HitAction>,
    b: Seq<HitAction>,
    m: int,
)
    requires
        spec_resolves_hits(hits, a),
        spec_resolves_hits(hits, b),
        0 <= m < a.len() / 3,
        m < b.len() / 3,
    ensures
        forall|k: int|
            0 <= k <= m ==> #[trigger] spec_hit_laser(a, k) == spec_hit_laser(b, k)
                && spec_hit_enemy(a, k) == spec_hit_enemy(b, k),
    decreases m,
{
    if m > 0 {
        lemma_resolutions_agree_upto(hits, a, b, m - 1);
    }
    let la = spec_hit_laser(a, m);
    let ea = spec_hit_enemy(a, m);
    let lb = spec_hit_laser(b, m);
    let eb = spec_hit_enemy(b, m);
    assert(hits[la][ea]);
    assert(hits[lb][eb]);
    let mb = choose|x: int| 0 <= x < b.len() / 3 && #[trigger] spec_hit_laser(b, x) == la
        && spec_hit_enemy(b, x) == ea;
    let ma = choose|x: int| 0 <= x < a.len() / 3 && #[trigger] spec_hit_laser(a, x) == lb
        && spec_hit_enemy(a, x) == eb;
    if mb < m {
        assert(spec_hit_laser(a, mb) == spec_hit_laser(b, mb));
        assert(spec_hit_before(
            spec_hit_laser(a, mb),
            spec_hit_enemy(a, mb),
            spec_hit_laser(a, m),
            spec_hit_enemy(a, m),
        ));
    }
    if ma < m {
        assert(spec_hit_laser(a, ma) == spec_hit_laser(b, ma));
        assert(spec_hit_before(
            spec_hit_laser(b, ma),
            spec_hit_enemy(b, ma),
            spec_hit_laser(b, m),
            spec_hit_enemy(b, m),
        ));
    }
    if mb > m {
        assert(spec_hit_before(
            spec_hit_laser(b, m),
            spec_hit_enemy(b, m),
            spec_hit_laser(b, mb),
            spec_hit_enemy(b, mb),
        ));
    }
    if ma > m {
        assert(spec_hit_before(
            spec_hit_laser(a, m),
            spec_hit_enemy(a, m),
            spec_hit_laser(a, ma),
            spec_hit_enemy(a, ma),
        ));
    }
}

/// A frame has only one resolution: any two action lists that both resolve
/// the same hits are equal. With `lemma_hits_resolved_exactly`, this pins
/// down what `player_laser_hit_enemy` returns.
pub proof fn lemma_resolution_unique(hits: Seq<Seq<bool>>, a: Seq<HitAction>, b: Seq<HitAction>)
    requires
        spec_resolves_hits(hits, a),
        spec_resolves_hits(hits, b),
    ensures
        a == b,
{
    let na: int = a.len() as int / 3;
    let nb: int = b.len() as int / 3;
    if na > 0 && nb > 0 {
        if na <= nb {
            lemma_resolutions_agree_upto(hits, a, b, na - 1);
        } else {
            lemma_resolutions_agree_upto(hits, a, b, nb - 1);
        }
    }
    if na > nb {
        let l = spec_hit_laser(a, nb);
        let e = spec_hit_enemy(a, nb);
        assert(hits[l][e]);
        let x = choose|x: int| 0 <= x < b.len() / 3 && #[trigger] spec_hit_laser(b, x) == l
            && spec_hit_enemy(b, x) == e;
        assert(spec_hit_laser(a, x) == spec_hit_laser(b, x));
        assert(spec_hit_before(
            spec_hit_laser(a, x),
            spec_hit_enemy(a, x),
            spec_hit_laser(a, nb),
            spec_hit_enemy(a, nb),
        ));
    }
    if nb > na {
        let l = spec_hit_laser(b, na);
        let e = spec_hit_enemy(b, na);
        assert(hits[l][e]);
        let x = choose|x: int| 0 <= x < a.len() / 3 && #[trigger] spec_hit_laser(a, x) == l
            && spec_hit_enemy(a, x) == e;
        assert(spec_hit_laser(a, x) == spec_hit_laser(b, x));
        assert(spec_hit_before(
            spec_hit_laser(b, x),
            spec_hit_enemy(b, x),
            spec_hit_laser(b, na),
            spec_hit_enemy(b, na),
        ));
    }
    assert(na == nb);
    assert(a.len() == b.len());
    assert forall|x: int| 0 <= x < a.len() implies a[x] == b[x] by {
        let m: int = x / 3;
        assert(spec_hit_laser(a, m) == spec_hit_laser(b, m));
        assert(spec_hit_enemy(a, m) == spec_hit_enemy(b, m));
        assert(x == 3 * m || x == 3 * m + 1 || x == 3 * m + 2);
    }
    assert(a =~= b);
}

/// Cell index and despawn flag after one frame of an explosion animation.
pub open spec fn spec_explosion_step(index: nat, timer_finished: bool) -> (nat, bool) {
    if timer_finished {
        (index + 1, index + 1 >= EXPLOSION_LEN)
    } else {
        (index, false)
    }
}

/// One frame of an explosion animation: when the frame timer has finished,
/// the sprite moves to the next cell, and the explosion is despawned once
/// that cell lies past the last one (`EXPLOSION_LEN`). Returns the new cell
/// index and whether to despawn.
pub fn explosion_animation_step(index: usize, timer_finished: bool) -> (res: (usize, bool))
    requires
        timer_finished ==> index < usize::MAX,
    ensures
        (res.0 as nat, res.1) == spec_explosion_step(index as nat, timer_finished),
        index < EXPLOSION_LEN && !res.1 ==> res.0 < EXPLOSION_LEN,
{
    if timer_finished {
        let next = index + 1;
        (next, next >= EXPLOSION_LEN)
    } else {
        (index, false)
    }
}


/// Number of frames in `ticks` whose animation timer finished.
pub open spec fn spec_finished_frames(ticks: Seq<bool>) -> nat
    decreases ticks.len(),
{
    if ticks.len() == 0 {
        0
    } else {
        spec_finished_frames(ticks.drop_last()) + if ticks.last() {
            1nat
        } else {
            0nat
        }
    }
}

/// Cell index of an explosion that starts on cell 0, and whether it has
/// been despawned, after the frames `ticks` (`true` where the timer
/// finished). Once despawned, the explosion takes no more frames.
pub open spec fn spec_explosion_run(ticks: Seq<bool>) -> (nat, bool)
    decreases ticks.len(),
{
    if ticks.len() == 0 {
        (0, false)
    } else {
        let prev = spec_explosion_run(ticks.drop_last());
        if prev.1 {
            prev
        } else {
            spec_explosion_step(prev.0, ticks.last())
        }
    }
}

/// An explosion plays every cell of its sheet and then goes away: starting
/// on cell 0, it is despawned exactly when its frame timer has finished
/// `EXPLOSION_LEN` times, and until then it shows the cell numbered by how
/// many times the timer finished.
pub proof fn lemma_explosion_plays_sheet(ticks: Seq<bool>)
    ensures
        spec_explosion_run(ticks).1 <==> spec_finished_frames(ticks) >= EXPLOSION_LEN,
        spec_explosion_run(ticks).0 == if spec_finished_frames(ticks) < EXPLOSION_LEN {
            spec_finished_frames(ticks)
        } else {
            EXPLOSION_LEN as nat
        },
    decreases ticks.len(),
{
    if ticks.len() > 0 {
        lemma_explosion_plays_sheet(ticks.drop_last());
    }
}

} // verus!
