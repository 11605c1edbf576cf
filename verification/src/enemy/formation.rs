//! Enemy formations: enemies join the current formation until it is full,
//! then a new formation is drawn for the next one.
use vstd::prelude::*;

use crate::FORMATION_MEMBERS_MAX;

verus! {

/// Whether a `make` call on a maker in this state hands out the current
/// template again (rather than drawing a new formation).
pub open spec fn spec_reuses_template(has_template: bool, members: nat) -> bool {
    has_template && members < FORMATION_MEMBERS_MAX
}

/// Member count of the current formation after one more `make` call.
pub open spec fn spec_members_after_make(has_template: bool, members: nat) -> nat {
    if spec_reuses_template(has_template, members) {
        members + 1
    } else {
        1
    }
}

/// Member count of the current formation after `n` `make` calls on a
/// fresh maker (a maker has a formation exactly when it has members).
pub open spec fn spec_members_after_calls(n: nat) -> nat
    decreases n,
{
    if n == 0 {
        0
    } else {
        let m = spec_members_after_calls((n - 1) as nat);
        spec_members_after_make(m >= 1, m)
    }
}

/// Whether the `n`-th `make` call (counting from 1) on a fresh maker draws
/// a new formation.
pub open spec fn spec_call_draws(n: nat) -> bool {
    let m = spec_members_after_calls((n - 1) as nat);
    !spec_reuses_template(m >= 1, m)
}

/// Enemies come in formations of exactly `FORMATION_MEMBERS_MAX`: on a fresh
/// maker, the `n`-th `make` call draws a new formation exactly when `n - 1`
/// is a multiple of `FORMATION_MEMBERS_MAX`, and afterwards the current
/// formation has `(n - 1) % FORMATION_MEMBERS_MAX + 1` members.
pub proof fn lemma_formation_cycle(n: nat)
    requires
        n >= 1,
    ensures
        spec_call_draws(n) <==> (n - 1) % (FORMATION_MEMBERS_MAX as int) == 0,
        spec_members_after_calls(n) == (n - 1) % (FORMATION_MEMBERS_MAX as int) + 1,
    decreases n,
{
    if n > 1 {
        lemma_formation_cycle((n - 1) as nat);
    }
}

/// Formation factory. It keeps the formation that new enemies currently
/// join and how many enemies have joined it; the formation itself is any
/// clonable value `F` (its geometry is drawn by the caller).
pub struct FormationMaker<F> {
    current_template: Option<F>,
    current_members: u32,
}

impl<F> FormationMaker<F> {
    /// A formation has between 1 and `FORMATION_MEMBERS_MAX` members, and
    /// there are members exactly when there is a formation.
    #[verifier::type_invariant]
    spec fn inv(self) -> bool {
        &&& self.current_members <= FORMATION_MEMBERS_MAX
        &&& (self.current_template is Some <==> self.current_members >= 1)
    }

    /// The formation new enemies currently join, if any.
    pub closed spec fn template(self) -> Option<F> {
        self.current_template
    }

    /// How many enemies have joined the current formation.
    pub closed spec fn members(self) -> nat {
        self.current_members as nat
    }
}

impl<F> Default for FormationMaker<F> {
    /// A maker with no formation yet.
    fn default() -> (maker: Self)
        ensures
            maker.template() is None,
            maker.members() == 0,
    {
        FormationMaker { current_template: None, current_members: 0 }
    }
}

impl<F: Clone> FormationMaker<F> {
    /// Formation for the next enemy. While the current formation has fewer
    /// than `FORMATION_MEMBERS_MAX` members, the new enemy joins it and gets
    /// a clone of it. Otherwise (no formation yet, or the current one is
    /// full) `generate` draws a new formation, which is returned, a clone of
    /// it becomes the current formation, and its member count restarts at 1.
    pub fn make<G>(&mut self, generate: G) -> (formation: F)
        where G: FnOnce() -> F,
        requires
            !spec_reuses_template(old(self).template() is Some, old(self).members())
                ==> call_requires(generate, ()),
        ensures
            final(self).members() == spec_members_after_make(
                old(self).template() is Some,
                old(self).members(),
            ),
            final(self).members() <= FORMATION_MEMBERS_MAX,
            final(self).template() is Some,
            spec_reuses_template(old(self).template() is Some, old(self).members()) ==> {
                &&& final(self).template() == old(self).template()
                &&& cloned(old(self).template()->0, formation)
            },
            !spec_reuses_template(old(self).template() is Some, old(self).members()) ==> {
                &&& call_ensures(generate, (), formation)
                &&& cloned(formation, final(self).template()->0)
            },
    {
        proof {
            use_type_invariant(&*self);
        }
        let full = self.current_members >= FORMATION_MEMBERS_MAX;
        match &self.current_template {
            Some(tmpl) if !full => {
                let formation = tmpl.clone();
                self.current_members = self.current_members + 1;
                formation
            },
            _ => {
                let formation = generate();
                *self = FormationMaker { current_template: Some(formation.clone()), current_members: 1 };
                formation
            },
        }
    }
}

} // verus!
