use vstd::prelude::*;
use crate::hit::{HitProperties, NO_COUNTER};

verus! {

/// Resolution tier of a defense rule; rules resolve from the first tier to
/// the last.
#[derive(PartialEq, Eq, Structural, Clone, Copy, Debug)]
pub enum DefensePriority {
    Internal,
    Intangible,
    Barrier,
    Action,
    Body,
    Trap,
    Last,
}

pub open spec fn rank(p: DefensePriority) -> int {
    match p {
        DefensePriority::Internal => 0,
        DefensePriority::Intangible => 1,
        DefensePriority::Barrier => 2,
        DefensePriority::Action => 3,
        DefensePriority::Body => 4,
        DefensePriority::Trap => 5,
        DefensePriority::Last => 6,
    }
}

impl DefensePriority {
    pub fn rank(self) -> (r: u8)
        ensures
            r == rank(self),
    {
        match self {
            DefensePriority::Internal => 0,
            DefensePriority::Intangible => 1,
            DefensePriority::Barrier => 2,
            DefensePriority::Action => 3,
            DefensePriority::Body => 4,
            DefensePriority::Trap => 5,
            DefensePriority::Last => 6,
        }
    }
}

/// A defensive effect attached to a living entity. `table` is the script-side
/// state of the rule in the script context `vm_index`.
#[derive(PartialEq, Eq, Structural, Clone, Copy, Debug)]
pub struct DefenseRule {
    pub collision_only: bool,
    pub priority: DefensePriority,
    pub vm_index: usize,
    pub table: u64,
}

/// Rules ascend strictly by tier, except that any number of last-tier rules
/// may stand together at the end.
pub open spec fn well_ordered(rules: Seq<DefenseRule>) -> bool {
    forall|i: int, j: int|
        0 <= i < j < rules.len() ==> rank(#[trigger] rules[i].priority) < rank(
            #[trigger] rules[j].priority,
        ) || (rules[i].priority == DefensePriority::Last && rules[j].priority
            == DefensePriority::Last)
}

/// Index of the first rule whose tier is at least `p`, or the length when
/// there is none.
pub open spec fn first_at_least(rules: Seq<DefenseRule>, p: int) -> int
    decreases rules.len(),
{
    if rules.len() == 0 {
        0
    } else if rank(rules[0].priority) >= p {
        0
    } else {
        1 + first_at_least(rules.drop_first(), p)
    }
}

/// The rule list after adding `rule`, and the rule that it displaced.
pub open spec fn added(rules: Seq<DefenseRule>, rule: DefenseRule) -> (Seq<DefenseRule>, Option<
    DefenseRule,
>) {
    let k = first_at_least(rules, rank(rule.priority));
    if rule.priority == DefensePriority::Last || k == rules.len() {
        (rules.push(rule), None)
    } else if rank(rules[k].priority) > rank(rule.priority) {
        (rules.insert(k, rule), None)
    } else {
        (rules.update(k, rule), Some(rules[k]))
    }
}

/// Index of the first rule of script context `vm` at tier `p`, if any.
pub open spec fn first_similar(rules: Seq<DefenseRule>, vm: usize, p: DefensePriority) -> int
    decreases rules.len(),
{
    if rules.len() == 0 {
        0
    } else if rules[0].vm_index == vm && rules[0].priority == p {
        0
    } else {
        1 + first_similar(rules.drop_first(), vm, p)
    }
}

/// The rule list after removing the rule `table` of context `vm` at tier `p`:
/// only the first rule of that context and tier is considered.
pub open spec fn removed(rules: Seq<DefenseRule>, vm: usize, p: DefensePriority, table: u64) -> Seq<
    DefenseRule,
> {
    let k = first_similar(rules, vm, p);
    if k < rules.len() && rules[k].table == table {
        rules.remove(k)
    } else {
        rules
    }
}

proof fn lemma_first_at_least(rules: Seq<DefenseRule>, p: int, i: int)
    requires
        0 <= i <= rules.len(),
        forall|j: int| 0 <= j < i ==> rank(#[trigger] rules[j].priority) < p,
        i == rules.len() || rank(rules[i].priority) >= p,
    ensures
        first_at_least(rules, p) == i,
    decreases i,
{
    if i > 0 {
        let rest = rules.drop_first();
        assert forall|j: int| 0 <= j < i - 1 implies rank(#[trigger] rest[j].priority) < p by {
            assert(rest[j] == rules[j + 1]);
        }
        lemma_first_at_least(rest, p, i - 1);
    }
}

proof fn lemma_first_similar(rules: Seq<DefenseRule>, vm: usize, p: DefensePriority, i: int)
    requires
        0 <= i <= rules.len(),
        forall|j: int|
            0 <= j < i ==> !(#[trigger] rules[j].vm_index == vm && rules[j].priority == p),
        i == rules.len() || (rules[i].vm_index == vm && rules[i].priority == p),
    ensures
        first_similar(rules, vm, p) == i,
    decreases i,
{
    if i > 0 {
        let rest = rules.drop_first();
        assert forall|j: int| 0 <= j < i - 1 implies !(#[trigger] rest[j].vm_index == vm
            && rest[j].priority == p) by {
            assert(rest[j] == rules[j + 1]);
        }
        lemma_first_similar(rest, vm, p, i - 1);
    }
}

impl DefenseRule {
    /// Adds `rule` in tier order. A last-tier rule is always appended. A rule
    /// whose tier is already present replaces the rule there, which is handed
    /// back so that it can be told it was replaced.
    pub fn add(rules: &mut Vec<DefenseRule>, rule: DefenseRule) -> (r: Option<DefenseRule>)
        ensures
            (final(rules)@, r) == added(old(rules)@, rule),
    {
        if rule.priority == DefensePriority::Last {
            rules.push(rule);
            return None;
        }
        let p = rule.priority.rank();
        let mut i: usize = 0;
        while i < rules.len() && rules[i].priority.rank() < p
            invariant
                0 <= i <= rules.len(),
                rules@ == old(rules)@,
                forall|j: int| 0 <= j < i ==> rank(#[trigger] rules@[j].priority) < p,
            decreases rules.len() - i,
        {
            i += 1;
        }
        proof {
            lemma_first_at_least(rules@, p as int, i as int);
        }
        if i == rules.len() {
            rules.push(rule);
            None
        } else if rules[i].priority.rank() > p {
            rules.insert(i, rule);
            None
        } else {
            let replaced = rules[i];
            rules.set(i, rule);
            Some(replaced)
        }
    }

    /// Removes the rule `table` of script context `vm_index` at tier
    /// `priority`, looking only at the first rule of that context and tier.
    /// Returns whether a rule was removed.
    pub fn remove(
        rules: &mut Vec<DefenseRule>,
        vm_index: usize,
        priority: DefensePriority,
        table: u64,
    ) -> (r: bool)
        ensures
            final(rules)@ == removed(old(rules)@, vm_index, priority, table),
            r == (final(rules)@.len() < old(rules)@.len()),
    {
        let mut i: usize = 0;
        while i < rules.len() && !(rules[i].vm_index == vm_index && rules[i].priority == priority)
            invariant
                0 <= i <= rules.len(),
                rules@ == old(rules)@,
                forall|j: int|
                    0 <= j < i ==> !(#[trigger] rules@[j].vm_index == vm_index && rules@[j].priority
                        == priority),
            decreases rules.len() - i,
        {
            i += 1;
        }
        proof {
            lemma_first_similar(rules@, vm_index, priority, i as int);
        }
        if i < rules.len() && rules[i].table == table {
            rules.remove(i);
            true
        } else {
            false
        }
    }
}

/// Adding a rule keeps a well-ordered rule list well ordered.
pub proof fn lemma_add_keeps_order(rules: Seq<DefenseRule>, rule: DefenseRule)
    requires
        well_ordered(rules),
    ensures
        well_ordered(added(rules, rule).0),
{
    let p = rank(rule.priority);
    let k = first_at_least(rules, p);
    lemma_first_at_least_spec(rules, p);
    let r = added(rules, rule).0;
    if rule.priority == DefensePriority::Last || k == rules.len() {
        assert forall|i: int, j: int| 0 <= i < j < r.len() implies rank(
            #[trigger] r[i].priority,
        ) < rank(#[trigger] r[j].priority) || (r[i].priority == DefensePriority::Last
            && r[j].priority == DefensePriority::Last) by {
            if j == rules.len() as int && rule.priority != DefensePriority::Last {
                assert(rank(rules[i].priority) < p);
            }
        }
    } else if rank(rules[k].priority) > p {
        assert forall|i: int, j: int| 0 <= i < j < r.len() implies rank(
            #[trigger] r[i].priority,
        ) < rank(#[trigger] r[j].priority) || (r[i].priority == DefensePriority::Last
            && r[j].priority == DefensePriority::Last) by {
            if i < k && j == k {
                assert(rank(rules[i].priority) < p);
            } else if i == k && j > k {
                assert(r[j] == rules[j - 1]);
                if j - 1 > k {
                    assert(rank(rules[k].priority) < rank(rules[j - 1].priority) || rules[k].priority
                        == DefensePriority::Last);
                }
            } else if i < k && j > k {
                assert(r[j] == rules[j - 1]);
            } else if i > k {
                assert(r[i] == rules[i - 1] && r[j] == rules[j - 1]);
            }
        }
    } else {
        assert forall|i: int, j: int| 0 <= i < j < r.len() implies rank(
            #[trigger] r[i].priority,
        ) < rank(#[trigger] r[j].priority) || (r[i].priority == DefensePriority::Last
            && r[j].priority == DefensePriority::Last) by {
            if i == k {
                assert(rank(rules[k].priority) == p);
                assert(rank(rules[k].priority) < rank(rules[j].priority) || rules[k].priority
                    == DefensePriority::Last);
            } else if j == k {
                assert(rank(rules[i].priority) < p);
            }
        }
    }
}

/// Adding a rule to a well-ordered list whose tier, short of the last one, is
/// already taken replaces exactly the rule of that tier: the list keeps its
/// length and order, the new rule stands in its place, and the old rule is
/// handed back once.
pub proof fn lemma_add_replaces_once(rules: Seq<DefenseRule>, rule: DefenseRule, k: int)
    requires
        well_ordered(rules),
        0 <= k < rules.len(),
        rules[k].priority == rule.priority,
        rule.priority != DefensePriority::Last,
    ensures
        added(rules, rule).1 == Some(rules[k]),
        added(rules, rule).0 == rules.update(k, rule),
{
    let p = rank(rule.priority);
    lemma_first_at_least_spec(rules, p);
    let f = first_at_least(rules, p);
    if f < k {
        assert(rank(rules[f].priority) < rank(rules[k].priority) || rules[f].priority == DefensePriority::Last);
    }
    assert(f == k);
}

/// `first_at_least` names a position in range, every rule before which sits in
/// a lower tier.
proof fn lemma_first_at_least_spec(rules: Seq<DefenseRule>, p: int)
    ensures
        0 <= first_at_least(rules, p) <= rules.len(),
        forall|j: int| 0 <= j < first_at_least(rules, p) ==> rank(#[trigger] rules[j].priority) < p,
        first_at_least(rules, p) < rules.len() ==> rank(
            rules[first_at_least(rules, p)].priority,
        ) >= p,
    decreases rules.len(),
{
    if rules.len() > 0 && rank(rules[0].priority) < p {
        let rest = rules.drop_first();
        lemma_first_at_least_spec(rest, p);
        assert forall|j: int| 0 <= j < first_at_least(rules, p) implies rank(
            #[trigger] rules[j].priority,
        ) < p by {
            if j > 0 {
                assert(rules[j] == rest[j - 1]);
            }
        }
        if first_at_least(rules, p) < rules.len() {
            assert(rules[first_at_least(rules, p)] == rest[first_at_least(rest, p)]);
        }
    }
}

/// The verdict of the defense rules on one incoming hit.
#[derive(PartialEq, Eq, Structural, Clone, Copy, Debug)]
pub struct DefenseJudge {
    pub impact_blocked: bool,
    pub damage_blocked: bool,
}

/// The rules consulted in one pass, in list order.
pub open spec fn consulted(rules: Seq<DefenseRule>, collision_only: bool) -> Seq<DefenseRule> {
    rules.filter(|r: DefenseRule| r.collision_only == collision_only)
}

/// The outcome of a filter pass that turned `original` into `filtered`: the
/// filtered properties, with the no-counter bit of the original kept.
pub open spec fn filtered_hit(original: HitProperties, filtered: HitProperties) -> HitProperties {
    HitProperties { flags: filtered.flags | (original.flags & NO_COUNTER), ..filtered }
}

impl DefenseJudge {
    pub fn new() -> (r: DefenseJudge)
        ensures
            !r.impact_blocked && !r.damage_blocked,
    {
        DefenseJudge { impact_blocked: false, damage_blocked: false }
    }

    /// The rules whose blocking hook runs for a hit, in resolution order:
    /// those of the collision pass when `collision_only`, the others otherwise.
    pub fn judge(rules: &Vec<DefenseRule>, collision_only: bool) -> (r: Vec<DefenseRule>)
        ensures
            r@ == consulted(rules@, collision_only),
    {
        let mut out: Vec<DefenseRule> = Vec::new();
        let mut i: usize = 0;
        while i < rules.len()
            invariant
                0 <= i <= rules.len(),
                out@ == consulted(rules@.take(i as int), collision_only),
            decreases rules.len() - i,
        {
            proof {
                reveal(Seq::filter);
                assert(rules@.take(i as int + 1).drop_last() == rules@.take(i as int));
            }
            if rules[i].collision_only == collision_only {
                out.push(rules[i]);
            }
            i += 1;
        }
        proof {
            assert(rules@.take(rules.len() as int) == rules@);
        }
        out
    }

    /// The rules whose status filter runs on a hit, in resolution order: the
    /// rules outside the collision pass.
    pub fn status_filters(rules: &Vec<DefenseRule>) -> (r: Vec<DefenseRule>)
        ensures
            r@ == consulted(rules@, false),
    {
        DefenseJudge::judge(rules, false)
    }

    /// Settles a status-filter pass over a hit: `results[i]` is what the
    /// filter hook of the `i`-th rule of `status_filters` returned when given
    /// the result before it (a rule without a hook, or whose hook failed,
    /// hands its input back). The last result stands, the original when there
    /// is none, and the no-counter bit of the original hit is always kept.
    pub fn filter_statuses(original: &HitProperties, results: &Vec<HitProperties>) -> (r: HitProperties)
        ensures
            results@.len() == 0 ==> r == *original,
            results@.len() > 0 ==> r == filtered_hit(*original, results@.last()),
    {
        if results.len() == 0 {
            *original
        } else {
            let filtered = results[results.len() - 1];
            let no_counter = original.flags & NO_COUNTER;
            HitProperties { flags: filtered.flags | no_counter, ..filtered }
        }
    }
}

} // verus!
