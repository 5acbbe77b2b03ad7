use vstd::prelude::*;
use crate::config::{Config, ConfigV};
use crate::json::{parse_config_chars, ser_config, lemma_config_round_trip};
use vstd::string::StringExecFns;

verus! {

/// The milestone days that fire a notification.
pub open spec fn is_milestone(days: int) -> bool {
    days == 30 || days == 7 || days == 0
}

/// The fixed notification text for a milestone day.
pub open spec fn milestone_text(days: int) -> Seq<char> {
    if days == 30 {
        "¡Queda un mes para el gran aniversario!"@
    } else if days == 7 {
        "¡Queda solo 1 semana para celebrar los 100 años!"@
    } else {
        "¡Mañana es el gran aniversario de los 100 años!"@
    }
}

/// The set of values recorded in a sequence of fired days.
pub open spec fn days_set(s: Seq<int>) -> Set<int> {
    Set::new(|v: int| s.contains(v))
}

/// Process-wide mirror of the persisted fired milestones, held and passed
/// explicitly by the owner of the tick pipeline.
pub struct MilestoneCache {
    fired: Vec<i64>,
}

impl MilestoneCache {
    /// The set of milestone days recorded as fired.
    pub closed spec fn fired_set(&self) -> Set<int> {
        Set::new(
            |v: int|
                exists|k: int| 0 <= k < self.fired@.len() && #[trigger] self.fired@[k] as int == v,
        )
    }

    /// An empty cache, for a fresh configuration.
    pub fn new() -> (c: Self)
        ensures
            c.fired_set() == Set::<int>::empty(),
    {
        let c = MilestoneCache { fired: Vec::new() };
        proof {
            assert(c.fired_set() =~= Set::<int>::empty());
        }
        c
    }

    /// A cache seeded from the fired milestones of a loaded configuration.
    pub fn from_config(config: &Config) -> (c: Self)
        ensures
            c.fired_set() == days_set(config@.notified),
    {
        let mut fired: Vec<i64> = Vec::new();
        let mut k: usize = 0;
        while k < config.notified.len()
            invariant
                k <= config.notified.len(),
                fired@ == config.notified@.take(k as int),
            decreases config.notified.len() - k,
        {
            fired.push(config.notified[k]);
            proof {
                assert(fired@ =~= config.notified@.take(k as int + 1));
            }
            k = k + 1;
        }
        proof {
            assert(fired@ =~= config.notified@);
        }
        let c = MilestoneCache { fired };
        proof {
            assert forall|v: int| c.fired_set().contains(v) == days_set(
                config@.notified,
            ).contains(v) by {
                if c.fired_set().contains(v) {
                    let k0 = choose|k0: int|
                        0 <= k0 < c.fired@.len() && #[trigger] c.fired@[k0] as int == v;
                    assert(config@.notified[k0] == v);
                }
                if days_set(config@.notified).contains(v) {
                    let k0 = choose|k0: int|
                        0 <= k0 < config@.notified.len() && #[trigger] config@.notified[k0] == v;
                    assert(c.fired@[k0] as int == v);
                }
            }
            assert(c.fired_set() =~= days_set(config@.notified));
        }
        c
    }

    /// Records a day as fired.
    pub fn insert(&mut self, day: i64)
        ensures
            final(self).fired_set() == old(self).fired_set().insert(day as int),
    {
        self.fired.push(day);
        proof {
            assert forall|v: int|
                self.fired_set().contains(v) == old(self).fired_set().insert(
                    day as int,
                ).contains(v) by {
                if self.fired_set().contains(v) {
                    let k0 = choose|k0: int|
                        0 <= k0 < self.fired@.len() && #[trigger] self.fired@[k0] as int == v;
                    if k0 < old(self).fired@.len() {
                        assert(old(self).fired@[k0] as int == v);
                    }
                }
                if old(self).fired_set().contains(v) {
                    let k0 = choose|k0: int|
                        0 <= k0 < old(self).fired@.len() && #[trigger] old(self).fired@[k0] as int
                            == v;
                    assert(self.fired@[k0] as int == v);
                }
                if v == day as int {
                    assert(self.fired@[old(self).fired@.len() as int] as int == v);
                }
            }
            assert(self.fired_set() =~= old(self).fired_set().insert(day as int));
        }
    }
}

/// Whether the day `id` is recorded as fired in the cache.
pub fn is_notificated(cache: &MilestoneCache, id: i64) -> (r: bool)
    ensures
        r == cache.fired_set().contains(id as int),
{
    let mut k: usize = 0;
    while k < cache.fired.len()
        invariant
            k <= cache.fired.len(),
            forall|j: int| 0 <= j < k ==> cache.fired@[j] != id,
        decreases cache.fired.len() - k,
    {
        if cache.fired[k] == id {
            return true;
        }
        k = k + 1;
    }
    proof {
        if cache.fired_set().contains(id as int) {
            let k0 = choose|k0: int|
                0 <= k0 < cache.fired@.len() && #[trigger] cache.fired@[k0] as int == id as int;
            assert(cache.fired@[k0] == id);
        }
    }
    false
}

/// Records a fired milestone in the configuration and in the cache. The
/// caller persists the updated configuration afterwards; the cache is updated
/// regardless of whether that save succeeds, so a failed save cannot flood
/// repeated notifications within one process.
pub fn save_notification(config: &mut Config, cache: &mut MilestoneCache, days: i64)
    ensures
        final(config)@.notified == old(config)@.notified.push(days as int),
        final(config)@.x == old(config)@.x,
        final(config)@.y == old(config)@.y,
        final(cache).fired_set() == old(cache).fired_set().insert(days as int),
{
    config.notified.push(days);
    cache.insert(days);
    proof {
        assert(config@.notified =~= old(config)@.notified.push(days as int));
    }
}

/// The fixed notification text for a milestone day, as a string.
pub fn notification_text(days: i64) -> (r: Option<String>)
    ensures
        is_milestone(days as int) ==> (r matches Some(t) && t@ == milestone_text(days as int)),
        !is_milestone(days as int) ==> r is None,
{
    if days == 30 {
        Some(String::from_str("¡Queda un mes para el gran aniversario!"))
    } else if days == 7 {
        Some(String::from_str("¡Queda solo 1 semana para celebrar los 100 años!"))
    } else if days == 0 {
        Some(String::from_str("¡Mañana es el gran aniversario de los 100 años!"))
    } else {
        None
    }
}

/// Whether an evaluation of `days` fires a notification, given the set of
/// milestones already fired.
pub open spec fn eval_fires(fired: Set<int>, days: int) -> bool {
    is_milestone(days) && !fired.contains(days)
}

/// Decides whether the milestone for `days` is reached and not yet fired; if
/// so, records it in the configuration and the cache and returns the
/// notification text. The caller persists the configuration afterwards.
pub fn evaluate(config: &mut Config, cache: &mut MilestoneCache, days: i64) -> (r: Option<String>)
    ensures
        eval_fires(old(cache).fired_set(), days as int) ==> ({
            &&& r matches Some(t) && t@ == milestone_text(days as int)
            &&& final(config)@.notified == old(config)@.notified.push(days as int)
            &&& final(config)@.x == old(config)@.x
            &&& final(config)@.y == old(config)@.y
            &&& final(cache).fired_set() == old(cache).fired_set().insert(days as int)
        }),
        !eval_fires(old(cache).fired_set(), days as int) ==> ({
            &&& r is None
            &&& *final(config) == *old(config)
            &&& *final(cache) == *old(cache)
        }),
{
    if !(days == 30 || days == 7 || days == 0) {
        return None;
    }
    if is_notificated(cache, days) {
        return None;
    }
    save_notification(config, cache, days);
    notification_text(days)
}

/// Law: within one process, each milestone fires at most once — after an
/// evaluation that fired for `days`, a second evaluation of the same day
/// finds it recorded and fires nothing.
pub proof fn lemma_evaluate_once(fired: Set<int>, days: int)
    requires
        eval_fires(fired, days),
    ensures
        !eval_fires(fired.insert(days), days),
{
}

/// Law: a milestone recorded in a persisted configuration stays fired across
/// a restart — the serialized configuration reloads to a model that still
/// records the day, and a cache seeded from it leaves nothing to fire.
pub proof fn lemma_fired_survives_restart(c: ConfigV, days: int)
    requires
        c.notified.contains(days),
    ensures
        parse_config_chars(ser_config(c)) matches Some(c2) && days_set(c2.notified).contains(days)
            && !eval_fires(days_set(c2.notified), days),
{
    lemma_config_round_trip(c);
}

} // verus!
