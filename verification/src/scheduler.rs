//! Which paths carry the traffic.
//!
//! What is measured of a path is a handful of smoothed numbers. The choice among
//! paths only ever compares them, so they come here as order keys: integers that
//! are ordered as the numbers they stand for are.

use vstd::prelude::*;

use crate::text;

verus! {

/// Consecutive lost probes before a path stops being offered to the scheduler
/// at all. This is what makes a slow loss estimate affordable: it, not the loss
/// ratio, is what reacts to a path that has just died.
pub const LOSSES_BEFORE_INACTIVE: u32 = 3;

/// The order key of a path that cannot be used, which is that of infinity.
pub const UNREACHABLE: i64 = 0x7ff0_0000_0000_0000;

/// What the measurements of a path come to, as order keys.
#[derive(Debug, Clone, Copy, PartialEq, Eq, Structural)]
pub struct Estimate {
    /// Latency, jitter and loss together: lower is better.
    pub score: i64,
    /// The score, less the margin that a path already carrying traffic is given
    /// over a challenger.
    pub held_score: i64,
    /// Latency and jitter alone.
    pub cost: i64,
    /// The cost, less the same margin.
    pub held_cost: i64,
    /// How late a packet may arrive: the cost, or the last round trip where that
    /// was longer.
    pub delivery: i64,
    /// The delivery delay, and the budget for a backup's extra delay on top.
    pub delivery_limit: i64,
    /// Whether the loss or the jitter is substantial.
    pub degraded: bool,
}

/// One more, up to the greatest number there is.
pub open spec fn counted(n: u64) -> u64 {
    if n < u64::MAX {
        (n + 1) as u64
    } else {
        n
    }
}

/// What is known of one path.
#[derive(Debug, Clone)]
pub struct PathMetrics {
    pub id: String,
    pub active: bool,
    pub samples: u64,
    /// Nothing until the first probe has been answered.
    pub estimate: Option<Estimate>,
    pub consecutive_losses: u32,
}

impl PathMetrics {
    /// A path that has answered lately enough to be used.
    pub open spec fn healthy(self) -> bool {
        self.active && self.estimate is Some
    }

    /// How good the path is: lower is better.
    pub open spec fn rating(self) -> i64 {
        match self.estimate {
            Some(estimate) if self.active => estimate.score,
            _ => UNREACHABLE,
        }
    }

    /// The path once a probe was answered.
    pub open spec fn after_probe(self, estimate: Estimate) -> PathMetrics {
        PathMetrics {
            id: self.id,
            active: true,
            samples: counted(self.samples),
            estimate: Some(estimate),
            consecutive_losses: 0,
        }
    }

    /// The path once a probe was lost.
    pub open spec fn after_loss(self, estimate: Estimate) -> PathMetrics {
        let losses = if self.consecutive_losses < u32::MAX {
            (self.consecutive_losses + 1) as u32
        } else {
            u32::MAX
        };
        PathMetrics {
            id: self.id,
            active: self.active && losses < LOSSES_BEFORE_INACTIVE,
            samples: counted(self.samples),
            estimate: if self.estimate is Some {
                Some(estimate)
            } else {
                None
            },
            consecutive_losses: losses,
        }
    }

    pub fn new(id: String) -> (r: Self)
        ensures
            r.id == id,
            r.active,
            r.samples == 0,
            r.estimate is None,
            r.consecutive_losses == 0,
    {
        PathMetrics { id, active: true, samples: 0, estimate: None, consecutive_losses: 0 }
    }

    /// A probe was answered, and the measurements have become `estimate`.
    pub fn record_probe(&mut self, estimate: Estimate)
        ensures
            *final(self) == old(self).after_probe(estimate),
    {
        self.estimate = Some(estimate);
        self.samples = self.samples.saturating_add(1);
        self.active = true;
        self.consecutive_losses = 0;
    }

    /// A probe was lost, and the measurements have become `estimate`, which
    /// counts only where there were any.
    pub fn record_loss(&mut self, estimate: Estimate)
        ensures
            *final(self) == old(self).after_loss(estimate),
    {
        if self.estimate.is_some() {
            self.estimate = Some(estimate);
        }
        self.samples = self.samples.saturating_add(1);
        self.consecutive_losses = self.consecutive_losses.saturating_add(1);
        if self.consecutive_losses >= LOSSES_BEFORE_INACTIVE {
            self.active = false;
        }
    }

    /// How good the path is: lower is better, and a path that cannot be used is
    /// worse than any that can.
    pub fn score(&self) -> (r: i64)
        ensures
            r == self.rating(),
    {
        match self.estimate {
            Some(estimate) => if self.active {
                estimate.score
            } else {
                UNREACHABLE
            },
            None => UNREACHABLE,
        }
    }
}

/// How many paths a packet is sent on.
#[derive(Debug, Clone, Copy, PartialEq, Eq, Structural)]
pub enum Strategy {
    FastestPath,
    Duplicate,
    Adaptive,
    /// Send every packet on every healthy enabled route. This is intentionally
    /// opt-in: it trades proportional bandwidth for maximum redundancy.
    AllPaths,
}

impl Strategy {
    pub open spec fn word(self) -> Seq<char> {
        match self {
            Strategy::FastestPath => "fastest-path"@,
            Strategy::Duplicate => "duplicate"@,
            Strategy::Adaptive => "adaptive"@,
            Strategy::AllPaths => "all-paths"@,
        }
    }

    pub fn as_str(self) -> (r: &'static str)
        ensures
            r@ == self.word(),
    {
        match self {
            Strategy::FastestPath => "fastest-path",
            Strategy::Duplicate => "duplicate",
            Strategy::Adaptive => "adaptive",
            Strategy::AllPaths => "all-paths",
        }
    }
}

/// Which paths a packet goes on.
#[derive(Debug, Clone, PartialEq, Eq)]
pub enum Decision {
    Drop,
    Single { path_id: String },
    Duplicate { path_ids: Vec<String> },
}

/// A decision, with the paths by their places in the list.
pub enum Choice {
    Drop,
    Single(int),
    Duplicate(Seq<int>),
}

/// The ids of some paths.
pub open spec fn ids_of(paths: Seq<PathMetrics>, places: Seq<int>) -> Seq<Seq<char>> {
    Seq::new(places.len(), |i: int| paths[places[i]].id@)
}

/// Whether a decision names the paths that a choice picks.
pub open spec fn names(decision: Decision, choice: Choice, paths: Seq<PathMetrics>) -> bool {
    match (decision, choice) {
        (Decision::Drop, Choice::Drop) => true,
        (Decision::Single { path_id }, Choice::Single(i)) => path_id@ == paths[i].id@,
        (Decision::Duplicate { path_ids }, Choice::Duplicate(places)) => text::string_views(
            path_ids@,
        ) == ids_of(paths, places),
        _ => false,
    }
}

/// Whether a path is among those already carrying traffic.
pub open spec fn holding(path: PathMetrics, incumbent: Seq<Seq<char>>) -> bool {
    exists|i: int| 0 <= i < incumbent.len() && #[trigger] incumbent[i] == path.id@
}

/// What a healthy path is ranked by.
pub open spec fn rank(path: PathMetrics, incumbent: Seq<Seq<char>>) -> i64 {
    match path.estimate {
        Some(estimate) => if holding(path, incumbent) {
            estimate.held_score
        } else {
            estimate.score
        },
        None => UNREACHABLE,
    }
}

/// What a path that has been measured costs, were it the last resort.
pub open spec fn resort_cost(path: PathMetrics, incumbent: Seq<Seq<char>>) -> i64 {
    match path.estimate {
        Some(estimate) => if holding(path, incumbent) {
            estimate.held_cost
        } else {
            estimate.cost
        },
        None => UNREACHABLE,
    }
}

/// An order of paths with one more put into it: before the last ones that rank
/// worse, and behind those that rank the same.
pub open spec fn placed(
    paths: Seq<PathMetrics>,
    incumbent: Seq<Seq<char>>,
    order: Seq<int>,
    n: int,
) -> Seq<int>
    decreases order.len(),
{
    if order.len() == 0 || rank(paths[order.last()], incumbent) <= rank(paths[n], incumbent) {
        order.push(n)
    } else {
        placed(paths, incumbent, order.drop_last(), n).push(order.last())
    }
}

/// The healthy ones of the first `n` paths, best rank first, and in their own
/// order where they rank the same.
pub open spec fn ranking(paths: Seq<PathMetrics>, incumbent: Seq<Seq<char>>, n: nat) -> Seq<int>
    decreases n,
{
    if n == 0 {
        Seq::<int>::empty()
    } else {
        let before = ranking(paths, incumbent, (n - 1) as nat);
        if paths[n - 1].healthy() {
            placed(paths, incumbent, before, n - 1)
        } else {
            before
        }
    }
}

/// The cheapest of the first `n` paths that was ever measured, and the first of
/// them where two cost the same.
pub open spec fn last_resort(paths: Seq<PathMetrics>, incumbent: Seq<Seq<char>>, n: nat) -> Option<int>
    decreases n,
{
    if n == 0 {
        None
    } else {
        let before = last_resort(paths, incumbent, (n - 1) as nat);
        if paths[n - 1].estimate is None {
            before
        } else {
            match before {
                Some(i) if resort_cost(paths[i], incumbent) <= resort_cost(
                    paths[n - 1],
                    incumbent,
                ) => before,
                _ => Some(n - 1),
            }
        }
    }
}

/// Whether the slower of two paths delivers within the budget of the quicker.
pub open spec fn comparable(a: Estimate, b: Estimate) -> bool {
    if a.delivery <= b.delivery {
        b.delivery <= a.delivery_limit
    } else {
        a.delivery <= b.delivery_limit
    }
}

/// Whether the two best paths share the traffic. The scheduler keeps two
/// suitable paths in use *before* a failure: waiting for a lost health probe
/// leaves game packets unprotected during failure detection. Mild loss on both
/// providers is not evidence of a shared uplink outage; only substantial
/// degradation on both reduces the extra outbound load.
pub open spec fn worth_duplicating(strategy: Strategy, a: Estimate, b: Estimate) -> bool {
    strategy == Strategy::Duplicate || (!(a.degraded && b.degraded) && comparable(a, b))
}

/// The choice among some paths.
pub open spec fn chosen(
    paths: Seq<PathMetrics>,
    strategy: Strategy,
    incumbent: Seq<Seq<char>>,
) -> Choice {
    let order = ranking(paths, incumbent, paths.len());
    if order.len() == 0 {
        match last_resort(paths, incumbent, paths.len()) {
            Some(i) => Choice::Single(i),
            None => Choice::Drop,
        }
    } else if order.len() == 1 || strategy == Strategy::FastestPath {
        Choice::Single(order[0])
    } else if strategy == Strategy::AllPaths {
        Choice::Duplicate(order)
    } else if worth_duplicating(
        strategy,
        paths[order[0]].estimate->0,
        paths[order[1]].estimate->0,
    ) {
        Choice::Duplicate(order.take(2))
    } else {
        Choice::Single(order[0])
    }
}

proof fn lemma_placed(
    paths: Seq<PathMetrics>,
    incumbent: Seq<Seq<char>>,
    order: Seq<int>,
    n: int,
    at: int,
)
    requires
        0 <= at <= order.len(),
        at > 0 ==> rank(paths[order[at - 1]], incumbent) <= rank(paths[n], incumbent),
        forall|i: int|
            at <= i < order.len() ==> rank(paths[#[trigger] order[i]], incumbent) > rank(
                paths[n],
                incumbent,
            ),
    ensures
        placed(paths, incumbent, order, n) == order.insert(at, n),
    decreases order.len(),
{
    if at == order.len() {
        assert(order.insert(at, n) =~= order.push(n));
    } else {
        assert(rank(paths[order.last()], incumbent) > rank(paths[n], incumbent));
        lemma_placed(paths, incumbent, order.drop_last(), n, at);
        assert(order.drop_last().insert(at, n).push(order.last()) =~= order.insert(at, n));
    }
}

proof fn lemma_placed_holds(
    paths: Seq<PathMetrics>,
    incumbent: Seq<Seq<char>>,
    order: Seq<int>,
    n: int,
)
    ensures
        placed(paths, incumbent, order, n).len() == order.len() + 1,
        forall|i: int|
            0 <= i < order.len() + 1 ==> (#[trigger] placed(paths, incumbent, order, n)[i] == n
                || order.contains(placed(paths, incumbent, order, n)[i])),
        placed(paths, incumbent, order, n).contains(n),
        forall|x: int|
            order.contains(x) ==> #[trigger] placed(paths, incumbent, order, n).contains(x),
    decreases order.len(),
{
    let all = placed(paths, incumbent, order, n);
    if order.len() == 0 || rank(paths[order.last()], incumbent) <= rank(paths[n], incumbent) {
        assert(all[order.len() as int] == n);
        assert forall|x: int| order.contains(x) implies #[trigger] all.contains(x) by {
            let i = choose|i: int| 0 <= i < order.len() && order[i] == x;
            assert(all[i] == x);
        }
        assert forall|i: int| 0 <= i < order.len() + 1 implies (#[trigger] all[i] == n
            || order.contains(all[i])) by {
            if i < order.len() {
                assert(order[i] == all[i]);
            }
        }
    } else {
        let less = order.drop_last();
        let sub = placed(paths, incumbent, less, n);
        lemma_placed_holds(paths, incumbent, less, n);
        let k = choose|k: int| 0 <= k < sub.len() && sub[k] == n;
        assert(all[k] == n);
        assert forall|x: int| order.contains(x) implies #[trigger] all.contains(x) by {
            let i = choose|i: int| 0 <= i < order.len() && order[i] == x;
            if i < less.len() {
                assert(less[i] == x);
                assert(sub.contains(x));
                let j = choose|j: int| 0 <= j < sub.len() && sub[j] == x;
                assert(all[j] == x);
            } else {
                assert(all[sub.len() as int] == x);
            }
        }
        assert forall|i: int| 0 <= i < order.len() + 1 implies (#[trigger] all[i] == n
            || order.contains(all[i])) by {
            if i < sub.len() {
                assert(all[i] == sub[i]);
                if sub[i] != n {
                    assert(less.contains(sub[i]));
                    let j = choose|j: int| 0 <= j < less.len() && less[j] == sub[i];
                    assert(order[j] == sub[i]);
                }
            } else {
                assert(all[i] == order.last());
                assert(order[order.len() - 1] == order.last());
            }
        }
    }
}

proof fn lemma_ranking_holds(paths: Seq<PathMetrics>, incumbent: Seq<Seq<char>>, n: nat)
    requires
        n <= paths.len(),
    ensures
        forall|k: int|
            0 <= k < ranking(paths, incumbent, n).len() ==> 0 <= #[trigger] ranking(
                paths,
                incumbent,
                n,
            )[k] < n && paths[ranking(paths, incumbent, n)[k]].healthy(),
        forall|i: int|
            0 <= i < n && (#[trigger] paths[i]).healthy() ==> ranking(
                paths,
                incumbent,
                n,
            ).contains(i),
    decreases n,
{
    if n > 0 {
        let before = ranking(paths, incumbent, (n - 1) as nat);
        let all = ranking(paths, incumbent, n);
        lemma_ranking_holds(paths, incumbent, (n - 1) as nat);
        if paths[n - 1].healthy() {
            lemma_placed_holds(paths, incumbent, before, n - 1);
            assert forall|k: int| 0 <= k < all.len() implies 0 <= #[trigger] all[k] < n
                && paths[all[k]].healthy() by {
                if all[k] != n - 1 {
                    assert(before.contains(all[k]));
                    let j = choose|j: int| 0 <= j < before.len() && before[j] == all[k];
                    assert(0 <= before[j] < n - 1);
                }
            }
            assert forall|i: int| 0 <= i < n && (#[trigger] paths[i]).healthy() implies all.contains(
                i,
            ) by {
                if i < n - 1 {
                    assert(before.contains(i));
                }
            }
        }
    }
}

proof fn lemma_resort_holds(paths: Seq<PathMetrics>, incumbent: Seq<Seq<char>>, n: nat)
    requires
        n <= paths.len(),
    ensures
        last_resort(paths, incumbent, n) matches Some(i) ==> 0 <= i < n
            && paths[i].estimate is Some,
        last_resort(paths, incumbent, n) is None ==> forall|i: int|
            0 <= i < n ==> (#[trigger] paths[i]).estimate is None,
        last_resort(paths, incumbent, n) matches Some(i) ==> forall|j: int|
            0 <= j < n && (#[trigger] paths[j]).estimate is Some ==> resort_cost(
                paths[i],
                incumbent,
            ) <= resort_cost(paths[j], incumbent),
    decreases n,
{
    if n > 0 {
        lemma_resort_holds(paths, incumbent, (n - 1) as nat);
    }
}

fn is_holding(path: &PathMetrics, incumbent: &[&str]) -> (r: bool)
    ensures
        r == holding(*path, text::str_views(incumbent@)),
{
    let mut at: usize = 0;
    while at < incumbent.len()
        invariant
            at <= incumbent@.len(),
            forall|i: int| 0 <= i < at ==> #[trigger] text::str_views(incumbent@)[i] != path.id@,
        decreases incumbent@.len() - at,
    {
        if text::same(incumbent[at], path.id.as_str()) {
            assert(text::str_views(incumbent@)[at as int] == path.id@);
            return true;
        }
        at = at + 1;
    }
    false
}

fn rank_of(path: &PathMetrics, incumbent: &[&str]) -> (r: i64)
    ensures
        r == rank(*path, text::str_views(incumbent@)),
{
    match path.estimate {
        Some(estimate) => if is_holding(path, incumbent) {
            estimate.held_score
        } else {
            estimate.score
        },
        None => UNREACHABLE,
    }
}

fn cost_of(path: &PathMetrics, incumbent: &[&str]) -> (r: i64)
    ensures
        r == resort_cost(*path, text::str_views(incumbent@)),
{
    match path.estimate {
        Some(estimate) => if is_holding(path, incumbent) {
            estimate.held_cost
        } else {
            estimate.cost
        },
        None => UNREACHABLE,
    }
}

/// The places that some numbers stand for.
pub open spec fn places(order: Seq<usize>) -> Seq<int> {
    Seq::new(order.len(), |i: int| order[i] as int)
}

fn rank_paths(paths: &[PathMetrics], incumbent: &[&str]) -> (order: Vec<usize>)
    ensures
        places(order@) == ranking(paths@, text::str_views(incumbent@), paths@.len()),
{
    let mut order: Vec<usize> = Vec::new();
    let mut n: usize = 0;
    assert(places(order@) =~= ranking(paths@, text::str_views(incumbent@), 0));
    while n < paths.len()
        invariant
            n <= paths@.len(),
            places(order@) == ranking(paths@, text::str_views(incumbent@), n as nat),
        decreases paths@.len() - n,
    {
        proof {
            lemma_ranking_holds(paths@, text::str_views(incumbent@), n as nat);
            assert forall|k: int| 0 <= k < order@.len() implies #[trigger] order@[k] < n by {
                assert(places(order@)[k] == order@[k]);
            }
        }
        if paths[n].active && paths[n].estimate.is_some() {
            let own: i64 = rank_of(&paths[n], incumbent);
            let mut at: usize = order.len();
            let ghost model = places(order@);
            while at > 0 && rank_of(&paths[order[at - 1]], incumbent) > own
                invariant
                    at <= order@.len(),
                    n < paths@.len(),
                    model == places(order@),
                    forall|k: int| 0 <= k < order@.len() ==> #[trigger] order@[k] < n,
                    own == rank(paths@[n as int], text::str_views(incumbent@)),
                    forall|i: int|
                        at <= i < model.len() ==> rank(paths@[#[trigger] model[i]], text::str_views(incumbent@))
                            > own,
                decreases at,
            {
                at = at - 1;
                assert(model[at as int] == order@[at as int]);
            }
            proof {
                lemma_placed(paths@, text::str_views(incumbent@), model, n as int, at as int);
            }
            let ghost before = order@;
            order.insert(at, n);
            assert(places(order@) =~= places(before).insert(at as int, n as int));
        }
        n = n + 1;
    }
    order
}

fn find_last_resort(paths: &[PathMetrics], incumbent: &[&str]) -> (r: Option<usize>)
    ensures
        match last_resort(paths@, text::str_views(incumbent@), paths@.len()) {
            Some(i) => r matches Some(found) && found == i,
            None => r is None,
        },
        r matches Some(found) ==> found < paths@.len(),
{
    let mut best: Option<usize> = None;
    let mut n: usize = 0;
    while n < paths.len()
        invariant
            n <= paths@.len(),
            match last_resort(paths@, text::str_views(incumbent@), n as nat) {
                Some(i) => best matches Some(found) && found == i && found < n,
                None => best is None,
            },
        decreases paths@.len() - n,
    {
        if paths[n].estimate.is_some() {
            let better: bool = match best {
                Some(i) => cost_of(&paths[n], incumbent) < cost_of(&paths[i], incumbent),
                None => true,
            };
            if better {
                best = Some(n);
            }
        }
        n = n + 1;
    }
    best
}

fn ids_at(paths: &[PathMetrics], order: &Vec<usize>, count: usize) -> (r: Vec<String>)
    requires
        count <= order@.len(),
        forall|k: int| 0 <= k < order@.len() ==> #[trigger] order@[k] < paths@.len(),
    ensures
        text::string_views(r@) == ids_of(paths@, places(order@).take(count as int)),
{
    let mut r: Vec<String> = Vec::new();
    let mut at: usize = 0;
    while at < count
        invariant
            at <= count <= order@.len(),
            forall|k: int| 0 <= k < order@.len() ==> #[trigger] order@[k] < paths@.len(),
            r@.len() == at,
            forall|k: int| 0 <= k < at ==> (#[trigger] r@[k])@ == paths@[order@[k] as int].id@,
        decreases count - at,
    {
        r.push(paths[order[at]].id.clone());
        at = at + 1;
    }
    assert(text::string_views(r@) =~= ids_of(paths@, places(order@).take(count as int)));
    r
}

/// Ranks with no incumbent, so the best-scoring routes win outright.
pub fn choose_paths(paths: &[PathMetrics], strategy: Strategy) -> (r: Decision)
    ensures
        names(r, chosen(paths@, strategy, Seq::<Seq<char>>::empty()), paths@),
{
    let none: [&str; 0] = [];
    assert(text::str_views(none@) =~= Seq::<Seq<char>>::empty());
    choose_paths_with_incumbent(paths, strategy, none.as_slice())
}

/// As [`choose_paths`], but the routes in `incumbent` -- the ones already
/// carrying traffic -- keep their slots unless a challenger beats them by the
/// margin.
///
/// The discount applies to ranking only. Whether to duplicate at all still
/// reads the paths' true latency, jitter and loss, because that is a question
/// about the routes rather than about which of them was picked last time.
///
/// One previously proven route is kept armed through a total outage. During
/// one, alternating failed probes only change loss estimates, and going by those
/// would make the fallback bounce on every timeout without evidence that either
/// route recovered. So the best last known latency and jitter decide.
pub fn choose_paths_with_incumbent(
    paths: &[PathMetrics],
    strategy: Strategy,
    incumbent: &[&str],
) -> (r: Decision)
    ensures
        names(r, chosen(paths@, strategy, text::str_views(incumbent@)), paths@),
{
    let order = rank_paths(paths, incumbent);
    let ghost ranked = ranking(paths@, text::str_views(incumbent@), paths@.len());
    proof {
        lemma_ranking_holds(paths@, text::str_views(incumbent@), paths@.len());
        assert forall|k: int| 0 <= k < order@.len() implies #[trigger] order@[k] < paths@.len()
            && paths@[order@[k] as int].healthy() by {
            assert(places(order@)[k] == order@[k]);
        }
        assert(places(order@).len() == order@.len());
    }
    if order.len() == 0 {
        return match find_last_resort(paths, incumbent) {
            Some(i) => Decision::Single { path_id: paths[i].id.clone() },
            None => Decision::Drop,
        };
    }
    assert(ranked[0] == order@[0]);
    if order.len() == 1 || strategy == Strategy::FastestPath {
        return Decision::Single { path_id: paths[order[0]].id.clone() };
    }
    assert(ranked[1] == order@[1]);
    if strategy == Strategy::AllPaths {
        let path_ids = ids_at(paths, &order, order.len());
        assert(places(order@).take(order@.len() as int) =~= places(order@));
        return Decision::Duplicate { path_ids };
    }
    let duplicate: bool = match (&paths[order[0]].estimate, &paths[order[1]].estimate) {
        (Some(a), Some(b)) => {
            let within: bool = if a.delivery <= b.delivery {
                b.delivery <= a.delivery_limit
            } else {
                a.delivery <= b.delivery_limit
            };
            strategy == Strategy::Duplicate || (!(a.degraded && b.degraded) && within)
        },
        _ => false,
    };
    if duplicate {
        Decision::Duplicate { path_ids: ids_at(paths, &order, 2) }
    } else {
        Decision::Single { path_id: paths[order[0]].id.clone() }
    }
}

/// Whether a choice uses a path.
pub open spec fn uses(choice: Choice, i: int) -> bool {
    match choice {
        Choice::Drop => false,
        Choice::Single(j) => j == i,
        Choice::Duplicate(places) => places.contains(i),
    }
}

/// How many paths a choice uses.
pub open spec fn used(choice: Choice) -> nat {
    match choice {
        Choice::Drop => 0,
        Choice::Single(_) => 1,
        Choice::Duplicate(places) => places.len(),
    }
}

proof fn lemma_placed_sorted(
    paths: Seq<PathMetrics>,
    incumbent: Seq<Seq<char>>,
    order: Seq<int>,
    n: int,
)
    requires
        forall|j: int, k: int|
            #![trigger order[j], order[k]]
            0 <= j < k < order.len() ==> rank(paths[order[j]], incumbent) <= rank(
                paths[order[k]],
                incumbent,
            ) && order[j] != order[k],
        forall|k: int| 0 <= k < order.len() ==> #[trigger] order[k] < n,
    ensures
        ({
            let all = placed(paths, incumbent, order, n);
            &&& forall|j: int, k: int|
                #![trigger all[j], all[k]]
                0 <= j < k < all.len() ==> rank(paths[all[j]], incumbent) <= rank(
                    paths[all[k]],
                    incumbent,
                ) && all[j] != all[k]
            &&& forall|k: int| 0 <= k < all.len() ==> #[trigger] all[k] <= n
        }),
    decreases order.len(),
{
    let all = placed(paths, incumbent, order, n);
    if order.len() == 0 || rank(paths[order.last()], incumbent) <= rank(paths[n], incumbent) {
        assert forall|j: int, k: int|
            #![trigger all[j], all[k]]
            0 <= j < k < all.len() implies rank(paths[all[j]], incumbent) <= rank(
            paths[all[k]],
            incumbent,
        ) && all[j] != all[k] by {
            assert(all[j] == order[j]);
            if k < order.len() {
                assert(all[k] == order[k]);
            } else {
                assert(order[order.len() - 1] == order.last());
                if j < order.len() - 1 {
                    assert(rank(paths[order[j]], incumbent) <= rank(
                        paths[order[order.len() - 1]],
                        incumbent,
                    ));
                }
            }
        }
    } else {
        let less = order.drop_last();
        let sub = placed(paths, incumbent, less, n);
        assert forall|j: int, k: int|
            #![trigger less[j], less[k]]
            0 <= j < k < less.len() implies rank(paths[less[j]], incumbent) <= rank(
            paths[less[k]],
            incumbent,
        ) && less[j] != less[k] by {
            assert(less[j] == order[j] && less[k] == order[k]);
        }
        assert forall|k: int| 0 <= k < less.len() implies #[trigger] less[k] < n by {
            assert(less[k] == order[k]);
        }
        lemma_placed_sorted(paths, incumbent, less, n);
        lemma_placed_holds(paths, incumbent, less, n);
        assert forall|j: int, k: int|
            #![trigger all[j], all[k]]
            0 <= j < k < all.len() implies rank(paths[all[j]], incumbent) <= rank(
            paths[all[k]],
            incumbent,
        ) && all[j] != all[k] by {
            assert(all[j] == sub[j]);
            if k < sub.len() {
                assert(all[k] == sub[k]);
            } else {
                let last = order.len() - 1;
                assert(all[k] == order[last]);
                if sub[j] != n {
                    assert(less.contains(sub[j]));
                    let i = choose|i: int| 0 <= i < less.len() && less[i] == sub[j];
                    assert(order[i] == sub[j]);
                }
            }
        }
        assert forall|k: int| 0 <= k < all.len() implies #[trigger] all[k] <= n by {
            if k < sub.len() {
                assert(all[k] == sub[k]);
            } else {
                assert(all[k] == order[order.len() - 1]);
            }
        }
    }
}

proof fn lemma_ranking_sorted(paths: Seq<PathMetrics>, incumbent: Seq<Seq<char>>, n: nat)
    requires
        n <= paths.len(),
    ensures
        forall|j: int, k: int|
            #![trigger ranking(paths, incumbent, n)[j], ranking(paths, incumbent, n)[k]]
            0 <= j < k < ranking(paths, incumbent, n).len() ==> rank(
                paths[ranking(paths, incumbent, n)[j]],
                incumbent,
            ) <= rank(paths[ranking(paths, incumbent, n)[k]], incumbent) && ranking(
                paths,
                incumbent,
                n,
            )[j] != ranking(paths, incumbent, n)[k],
    decreases n,
{
    if n > 0 {
        lemma_ranking_sorted(paths, incumbent, (n - 1) as nat);
        lemma_ranking_holds(paths, incumbent, (n - 1) as nat);
        if paths[n - 1].healthy() {
            lemma_placed_sorted(
                paths,
                incumbent,
                ranking(paths, incumbent, (n - 1) as nat),
                n - 1,
            );
        }
    }
}

/// The ranking holds every healthy path and no other, each once, best first.
pub proof fn a_ranking_orders_the_healthy_paths(
    paths: Seq<PathMetrics>,
    incumbent: Seq<Seq<char>>,
    i: int,
    j: int,
)
    requires
        0 <= i < j < ranking(paths, incumbent, paths.len()).len(),
    ensures
        rank(paths[ranking(paths, incumbent, paths.len())[i]], incumbent) <= rank(
            paths[ranking(paths, incumbent, paths.len())[j]],
            incumbent,
        ),
        ranking(paths, incumbent, paths.len())[i] != ranking(paths, incumbent, paths.len())[j],
        paths[ranking(paths, incumbent, paths.len())[i]].healthy(),
        forall|k: int|
            0 <= k < paths.len() && (#[trigger] paths[k]).healthy() ==> ranking(
                paths,
                incumbent,
                paths.len(),
            ).contains(k),
{
    lemma_ranking_sorted(paths, incumbent, paths.len());
    lemma_ranking_holds(paths, incumbent, paths.len());
}

/// While any path is healthy, only healthy paths carry traffic: having carried
/// it before cannot hold one that stopped answering.
pub proof fn a_dead_path_is_not_held(
    paths: Seq<PathMetrics>,
    strategy: Strategy,
    incumbent: Seq<Seq<char>>,
    live: int,
    i: int,
)
    requires
        0 <= live < paths.len(),
        paths[live].healthy(),
        uses(chosen(paths, strategy, incumbent), i),
    ensures
        0 <= i < paths.len(),
        paths[i].healthy(),
{
    let order = ranking(paths, incumbent, paths.len());
    lemma_ranking_holds(paths, incumbent, paths.len());
    assert(order.contains(live));
    match chosen(paths, strategy, incumbent) {
        Choice::Drop => {},
        Choice::Single(j) => {
            assert(order[0] == j);
        },
        Choice::Duplicate(places) => {
            let k = choose|k: int| 0 <= k < places.len() && places[k] == i;
            assert(order[k] == i);
        },
    }
}

/// A total outage never widens the traffic: one path that was measured before
/// is kept, the cheapest by its last known latency and jitter, and nothing is
/// dropped unless no path was ever measured.
pub proof fn an_outage_keeps_one_path(
    paths: Seq<PathMetrics>,
    strategy: Strategy,
    incumbent: Seq<Seq<char>>,
)
    requires
        forall|k: int| 0 <= k < paths.len() ==> !(#[trigger] paths[k]).healthy(),
    ensures
        used(chosen(paths, strategy, incumbent)) <= 1,
        chosen(paths, strategy, incumbent) is Drop <==> forall|k: int|
            0 <= k < paths.len() ==> (#[trigger] paths[k]).estimate is None,
        chosen(paths, strategy, incumbent) matches Choice::Single(i) ==> 0 <= i < paths.len()
            && forall|j: int|
            0 <= j < paths.len() && (#[trigger] paths[j]).estimate is Some ==> resort_cost(
                paths[i],
                incumbent,
            ) <= resort_cost(paths[j], incumbent),
{
    let order = ranking(paths, incumbent, paths.len());
    lemma_ranking_holds(paths, incumbent, paths.len());
    lemma_resort_holds(paths, incumbent, paths.len());
    if order.len() > 0 {
        assert(paths[order[0]].healthy());
    }
}

/// A path that is used while a healthy one is not ranks at least as well, so a
/// challenger takes a slot exactly by beating the one that holds it.
pub proof fn the_best_ranked_paths_are_used(
    paths: Seq<PathMetrics>,
    strategy: Strategy,
    incumbent: Seq<Seq<char>>,
    i: int,
    other: int,
)
    requires
        0 <= other < paths.len(),
        paths[other].healthy(),
        uses(chosen(paths, strategy, incumbent), i),
        !uses(chosen(paths, strategy, incumbent), other),
    ensures
        rank(paths[i], incumbent) <= rank(paths[other], incumbent),
{
    let order = ranking(paths, incumbent, paths.len());
    lemma_ranking_holds(paths, incumbent, paths.len());
    lemma_ranking_sorted(paths, incumbent, paths.len());
    assert(order.contains(other));
    let k = choose|k: int| 0 <= k < order.len() && order[k] == other;
    match chosen(paths, strategy, incumbent) {
        Choice::Drop => {},
        Choice::Single(j) => {
            assert(order[0] == i);
            assert(k != 0);
        },
        Choice::Duplicate(places) => {
            let m = choose|m: int| 0 <= m < places.len() && places[m] == i;
            assert(order[m] == i);
            if k < places.len() {
                assert(places[k] == other);
            }
            assert(m < k);
        },
    }
}

/// Only the strategy that asks for it sends a packet on more than two paths,
/// and that one uses every healthy path.
pub proof fn more_than_two_paths_are_asked_for(
    paths: Seq<PathMetrics>,
    strategy: Strategy,
    incumbent: Seq<Seq<char>>,
)
    ensures
        strategy != Strategy::AllPaths ==> used(chosen(paths, strategy, incumbent)) <= 2,
        strategy == Strategy::FastestPath ==> used(chosen(paths, strategy, incumbent)) <= 1,
        strategy == Strategy::AllPaths ==> forall|k: int|
            0 <= k < paths.len() && (#[trigger] paths[k]).healthy() ==> uses(
                chosen(paths, strategy, incumbent),
                k,
            ),
{
    let order = ranking(paths, incumbent, paths.len());
    lemma_ranking_holds(paths, incumbent, paths.len());
    if strategy == Strategy::AllPaths {
        assert forall|k: int| 0 <= k < paths.len() && (#[trigger] paths[k]).healthy() implies uses(
            chosen(paths, strategy, incumbent),
            k,
        ) by {
            assert(order.contains(k));
            let m = choose|m: int| 0 <= m < order.len() && order[m] == k;
            assert(order[m] == k);
        }
    }
}

/// Two healthy paths of which one is not degraded, close enough together,
/// already share the traffic before anything fails.
pub proof fn healthy_paths_share_before_a_failure(
    paths: Seq<PathMetrics>,
    incumbent: Seq<Seq<char>>,
)
    requires
        ranking(paths, incumbent, paths.len()).len() >= 2,
        ({
            let order = ranking(paths, incumbent, paths.len());
            let a = paths[order[0]].estimate->0;
            let b = paths[order[1]].estimate->0;
            !(a.degraded && b.degraded) && comparable(a, b)
        }),
    ensures
        used(chosen(paths, Strategy::Adaptive, incumbent)) == 2,
{
}

/// Whether the path at place `i` is up and has been measured.
pub open spec fn fit(paths: Seq<PathMetrics>, i: int) -> bool {
    0 <= i < paths.len() && paths[i].active && paths[i].estimate is Some
}

/// Whether the path at place `i` goes before the one at place `k`: by its score,
/// from which a path that already carries traffic has the margin taken off, and
/// by its place in the list where the two are level.
pub open spec fn goes_before(
    paths: Seq<PathMetrics>,
    incumbent: Seq<Seq<char>>,
    i: int,
    k: int,
) -> bool {
    let left = if incumbent.contains(paths[i].id@) {
        paths[i].estimate->0.held_score
    } else {
        paths[i].estimate->0.score
    };
    let right = if incumbent.contains(paths[k].id@) {
        paths[k].estimate->0.held_score
    } else {
        paths[k].estimate->0.score
    };
    left < right || (left == right && i < k)
}

proof fn lemma_goes_before(paths: Seq<PathMetrics>, incumbent: Seq<Seq<char>>, i: int, k: int)
    requires
        fit(paths, i),
        fit(paths, k),
    ensures
        goes_before(paths, incumbent, i, k) == (rank(paths[i], incumbent) < rank(
            paths[k],
            incumbent,
        ) || (rank(paths[i], incumbent) == rank(paths[k], incumbent) && i < k)),
{
    assert(holding(paths[i], incumbent) == incumbent.contains(paths[i].id@));
    assert(holding(paths[k], incumbent) == incumbent.contains(paths[k].id@));
}

/// An order in which paths of one rank keep the order of the list.
spec fn steady(paths: Seq<PathMetrics>, incumbent: Seq<Seq<char>>, order: Seq<int>) -> bool {
    forall|j: int, k: int|
        #![trigger order[j], order[k]]
        0 <= j < k < order.len() ==> rank(paths[order[j]], incumbent) < rank(
            paths[order[k]],
            incumbent,
        ) || (rank(paths[order[j]], incumbent) == rank(paths[order[k]], incumbent) && order[j]
            < order[k])
}

proof fn lemma_placed_steady(
    paths: Seq<PathMetrics>,
    incumbent: Seq<Seq<char>>,
    order: Seq<int>,
    n: int,
)
    requires
        steady(paths, incumbent, order),
        forall|k: int| 0 <= k < order.len() ==> #[trigger] order[k] < n,
    ensures
        steady(paths, incumbent, placed(paths, incumbent, order, n)),
    decreases order.len(),
{
    let all = placed(paths, incumbent, order, n);
    if order.len() == 0 || rank(paths[order.last()], incumbent) <= rank(paths[n], incumbent) {
        assert forall|j: int, k: int|
            #![trigger all[j], all[k]]
            0 <= j < k < all.len() implies rank(paths[all[j]], incumbent) < rank(
            paths[all[k]],
            incumbent,
        ) || (rank(paths[all[j]], incumbent) == rank(paths[all[k]], incumbent) && all[j]
            < all[k]) by {
            assert(all[j] == order[j]);
            if k < order.len() {
                assert(all[k] == order[k]);
            } else if j < order.len() - 1 {
                assert(order[order.len() - 1] == order.last());
            }
        }
    } else {
        let less = order.drop_last();
        let sub = placed(paths, incumbent, less, n);
        assert forall|j: int, k: int|
            #![trigger less[j], less[k]]
            0 <= j < k < less.len() implies rank(paths[less[j]], incumbent) < rank(
            paths[less[k]],
            incumbent,
        ) || (rank(paths[less[j]], incumbent) == rank(paths[less[k]], incumbent) && less[j]
            < less[k]) by {
            assert(less[j] == order[j] && less[k] == order[k]);
        }
        assert forall|k: int| 0 <= k < less.len() implies #[trigger] less[k] < n by {
            assert(less[k] == order[k]);
        }
        lemma_placed_steady(paths, incumbent, less, n);
        lemma_placed_holds(paths, incumbent, less, n);
        assert forall|j: int, k: int|
            #![trigger all[j], all[k]]
            0 <= j < k < all.len() implies rank(paths[all[j]], incumbent) < rank(
            paths[all[k]],
            incumbent,
        ) || (rank(paths[all[j]], incumbent) == rank(paths[all[k]], incumbent) && all[j]
            < all[k]) by {
            assert(all[j] == sub[j]);
            if k < sub.len() {
                assert(all[k] == sub[k]);
            } else {
                let last = order.len() - 1;
                assert(all[k] == order[last]);
                if sub[j] != n {
                    assert(less.contains(sub[j]));
                    let i = choose|i: int| 0 <= i < less.len() && less[i] == sub[j];
                    assert(order[i] == sub[j]);
                }
            }
        }
    }
}

proof fn lemma_ranking_steady(paths: Seq<PathMetrics>, incumbent: Seq<Seq<char>>, n: nat)
    requires
        n <= paths.len(),
    ensures
        steady(paths, incumbent, ranking(paths, incumbent, n)),
    decreases n,
{
    if n > 0 {
        lemma_ranking_steady(paths, incumbent, (n - 1) as nat);
        lemma_ranking_holds(paths, incumbent, (n - 1) as nat);
        if paths[n - 1].healthy() {
            lemma_placed_steady(
                paths,
                incumbent,
                ranking(paths, incumbent, (n - 1) as nat),
                n - 1,
            );
        }
    }
}

/// The first two of a ranking, told by what they are among the fit paths.
proof fn lemma_front_of_ranking(
    paths: Seq<PathMetrics>,
    incumbent: Seq<Seq<char>>,
    first: int,
    second: int,
)
    requires
        fit(paths, first),
        fit(paths, second),
        first != second,
    ensures
        ({
            let order = ranking(paths, incumbent, paths.len());
            &&& order.len() >= 2
            &&& fit(paths, order[0])
            &&& fit(paths, order[1])
            &&& goes_before(paths, incumbent, order[0], order[1])
            &&& forall|k: int|
                #![trigger fit(paths, k)]
                fit(paths, k) && k != order[0] && k != order[1] ==> goes_before(
                    paths,
                    incumbent,
                    order[1],
                    k,
                )
        }),
{
    let order = ranking(paths, incumbent, paths.len());
    lemma_ranking_holds(paths, incumbent, paths.len());
    lemma_ranking_steady(paths, incumbent, paths.len());
    assert(order.contains(first) && order.contains(second));
    let a = choose|a: int| 0 <= a < order.len() && order[a] == first;
    let b = choose|b: int| 0 <= b < order.len() && order[b] == second;
    assert(a != b);
    assert(paths[order[0]].healthy() && paths[order[1]].healthy());
    lemma_goes_before(paths, incumbent, order[0], order[1]);
    assert forall|k: int|
        #![trigger fit(paths, k)]
        fit(paths, k) && k != order[0] && k != order[1] implies goes_before(
        paths,
        incumbent,
        order[1],
        k,
    ) by {
        assert(paths[k].healthy());
        assert(order.contains(k));
        let m = choose|m: int| 0 <= m < order.len() && order[m] == k;
        assert(1 < m);
        lemma_goes_before(paths, incumbent, order[1], k);
    }
}

/// A user who asks for duplication has it: whenever two paths are up, exactly
/// two different ones carry each packet, however far apart they are and however
/// bad both of them may be. They are the two that go before all others, the
/// better one first.
pub proof fn duplication_is_unconditional(
    paths: Seq<PathMetrics>,
    incumbent: Seq<Seq<char>>,
    one: int,
    another: int,
)
    requires
        fit(paths, one),
        fit(paths, another),
        one != another,
    ensures
        chosen(paths, Strategy::Duplicate, incumbent) matches Choice::Duplicate(pair)
            && pair.len() == 2 && fit(paths, pair[0]) && fit(paths, pair[1]) && pair[0] != pair[1]
            && goes_before(paths, incumbent, pair[0], pair[1]) && forall|k: int|
            #![trigger fit(paths, k)]
            fit(paths, k) && k != pair[0] && k != pair[1] ==> goes_before(
                paths,
                incumbent,
                pair[1],
                k,
            ),
{
    lemma_front_of_ranking(paths, incumbent, one, another);
}

/// The adaptive choice is between what duplication does and what the fastest
/// path alone does. It duplicates exactly where at least one of the two paths
/// is not degraded and the later of them still delivers within the limit of the
/// earlier.
pub proof fn the_adaptive_choice_weighs_the_backup(
    paths: Seq<PathMetrics>,
    incumbent: Seq<Seq<char>>,
    one: int,
    another: int,
)
    requires
        fit(paths, one),
        fit(paths, another),
        one != another,
    ensures
        chosen(paths, Strategy::Duplicate, incumbent) matches Choice::Duplicate(pair) && {
            let a = paths[pair[0]].estimate->0;
            let b = paths[pair[1]].estimate->0;
            let in_time = (a.delivery <= b.delivery && b.delivery <= a.delivery_limit) || (
            b.delivery < a.delivery && a.delivery <= b.delivery_limit);
            &&& chosen(paths, Strategy::FastestPath, incumbent) == Choice::Single(pair[0])
            &&& chosen(paths, Strategy::Adaptive, incumbent) == if (!a.degraded || !b.degraded)
                && in_time {
                chosen(paths, Strategy::Duplicate, incumbent)
            } else {
                chosen(paths, Strategy::FastestPath, incumbent)
            }
        },
{
    lemma_front_of_ranking(paths, incumbent, one, another);
}

/// Where only one path is up, every strategy sends each packet on it and on
/// nothing else.
pub proof fn a_lone_path_carries_everything(
    paths: Seq<PathMetrics>,
    strategy: Strategy,
    incumbent: Seq<Seq<char>>,
    only: int,
)
    requires
        fit(paths, only),
        forall|k: int| #[trigger] fit(paths, k) ==> k == only,
    ensures
        chosen(paths, strategy, incumbent) == Choice::Single(only),
{
    let order = ranking(paths, incumbent, paths.len());
    lemma_ranking_holds(paths, incumbent, paths.len());
    lemma_ranking_sorted(paths, incumbent, paths.len());
    assert(paths[only].healthy());
    assert(order.contains(only));
    assert forall|m: int| 0 <= m < order.len() implies #[trigger] order[m] == only by {
        assert(paths[order[m]].healthy());
        assert(fit(paths, order[m]));
    }
    if order.len() > 1 {
        assert(order[0] != order[1]);
    }
}

/// Asked for all paths, the choice holds each path that is up exactly once, the
/// better ones first.
pub proof fn all_paths_means_every_one_once(
    paths: Seq<PathMetrics>,
    incumbent: Seq<Seq<char>>,
    one: int,
    another: int,
)
    requires
        fit(paths, one),
        fit(paths, another),
        one != another,
    ensures
        chosen(paths, Strategy::AllPaths, incumbent) matches Choice::Duplicate(all) && (forall|
            k: int,
        | #[trigger]
            fit(paths, k) ==> all.contains(k)) && (forall|m: int|
            0 <= m < all.len() ==> fit(paths, #[trigger] all[m])) && (forall|m: int, n: int|
            #![trigger all[m], all[n]]
            0 <= m < n < all.len() ==> goes_before(paths, incumbent, all[m], all[n])),
{
    lemma_front_of_ranking(paths, incumbent, one, another);
    let all = ranking(paths, incumbent, paths.len());
    lemma_ranking_holds(paths, incumbent, paths.len());
    lemma_ranking_steady(paths, incumbent, paths.len());
    assert forall|k: int| #[trigger] fit(paths, k) implies all.contains(k) by {
        assert(paths[k].healthy());
    }
    assert forall|m: int| 0 <= m < all.len() implies fit(paths, #[trigger] all[m]) by {
        assert(paths[all[m]].healthy());
    }
    assert forall|m: int, n: int|
        #![trigger all[m], all[n]]
        0 <= m < n < all.len() implies goes_before(paths, incumbent, all[m], all[n]) by {
        assert(fit(paths, all[m]) && fit(paths, all[n]));
        lemma_goes_before(paths, incumbent, all[m], all[n]);
    }
}

proof fn lemma_resort_first(paths: Seq<PathMetrics>, incumbent: Seq<Seq<char>>, n: nat)
    requires
        n <= paths.len(),
    ensures
        last_resort(paths, incumbent, n) matches Some(i) ==> 0 <= i < n && paths[i].estimate is Some
            && forall|j: int|
            0 <= j < n && (#[trigger] paths[j]).estimate is Some ==> resort_cost(
                paths[i],
                incumbent,
            ) < resort_cost(paths[j], incumbent) || (resort_cost(paths[i], incumbent)
                == resort_cost(paths[j], incumbent) && i <= j),
        last_resort(paths, incumbent, n) is None ==> forall|j: int|
            0 <= j < n ==> (#[trigger] paths[j]).estimate is None,
    decreases n,
{
    if n > 0 {
        lemma_resort_first(paths, incumbent, (n - 1) as nat);
    }
}

/// When no path is up, the one that is kept has the least latency and jitter of
/// those that were ever measured, loss left aside, with the margin taken off
/// for one that already carries traffic; the first of them where two are level.
pub proof fn an_outage_keeps_the_cheapest_path(
    paths: Seq<PathMetrics>,
    strategy: Strategy,
    incumbent: Seq<Seq<char>>,
    j: int,
)
    requires
        forall|k: int| 0 <= k < paths.len() ==> !(#[trigger] paths[k]).active,
        0 <= j < paths.len(),
        paths[j].estimate is Some,
    ensures
        chosen(paths, strategy, incumbent) matches Choice::Single(i) && 0 <= i < paths.len()
            && paths[i].estimate is Some && {
            let kept = if incumbent.contains(paths[i].id@) {
                paths[i].estimate->0.held_cost
            } else {
                paths[i].estimate->0.cost
            };
            let other = if incumbent.contains(paths[j].id@) {
                paths[j].estimate->0.held_cost
            } else {
                paths[j].estimate->0.cost
            };
            kept < other || (kept == other && i <= j)
        },
{
    let order = ranking(paths, incumbent, paths.len());
    lemma_ranking_holds(paths, incumbent, paths.len());
    lemma_resort_first(paths, incumbent, paths.len());
    if order.len() > 0 {
        assert(paths[order[0]].healthy());
    }
    let i = last_resort(paths, incumbent, paths.len())->0;
    assert(holding(paths[i], incumbent) == incumbent.contains(paths[i].id@));
    assert(holding(paths[j], incumbent) == incumbent.contains(paths[j].id@));
}

/// A path survives two lost probes and is gone at the third, whatever it was
/// like before its last answer, and one answer brings it back.
pub proof fn the_third_loss_in_a_row_ends_a_path(
    path: PathMetrics,
    answered: Estimate,
    lost: Seq<Estimate>,
)
    requires
        lost.len() == 3,
    ensures
        ({
            let up = path.after_probe(answered);
            let once = up.after_loss(lost[0]);
            let twice = once.after_loss(lost[1]);
            let gone = twice.after_loss(lost[2]);
            &&& up.active && once.active && twice.active && !gone.active
            &&& up.estimate == Some(answered)
            &&& gone.estimate == Some(lost[2])
            &&& gone.id == path.id
            &&& forall|e: Estimate| !(#[trigger] gone.after_loss(e)).active
            &&& forall|e: Estimate| (#[trigger] gone.after_probe(e)).active
            &&& path.samples <= u64::MAX - 4 ==> gone.samples == path.samples + 4
        }),
{
}

/// A path that never answered has nothing to be ranked by, however many probes
/// were lost on it.
pub proof fn losses_alone_measure_nothing(path: PathMetrics, lost: Estimate)
    requires
        path.estimate is None,
    ensures
        path.after_loss(lost).estimate is None,
        path.rating() == 0x7ff0_0000_0000_0000,
        path.after_loss(lost).rating() == 0x7ff0_0000_0000_0000,
{
}

/// Only paths of the list are chosen.
pub proof fn a_choice_is_among_the_paths(
    paths: Seq<PathMetrics>,
    strategy: Strategy,
    incumbent: Seq<Seq<char>>,
    i: int,
)
    requires
        uses(chosen(paths, strategy, incumbent), i),
    ensures
        0 <= i < paths.len(),
        paths[i].estimate is Some,
{
    let order = ranking(paths, incumbent, paths.len());
    lemma_ranking_holds(paths, incumbent, paths.len());
    lemma_resort_first(paths, incumbent, paths.len());
    if order.len() > 0 {
        match chosen(paths, strategy, incumbent) {
            Choice::Drop => {},
            Choice::Single(j) => {
                assert(paths[order[0]].healthy());
            },
            Choice::Duplicate(list) => {
                let m = choose|m: int| 0 <= m < list.len() && list[m] == i;
                assert(order[m] == i);
                assert(paths[order[m]].healthy());
            },
        }
    }
}

/// A decision names the paths of its choice by their ids, in the same order and
/// no others.
pub proof fn a_decision_names_its_choice(
    decision: Decision,
    choice: Choice,
    paths: Seq<PathMetrics>,
    i: int,
)
    requires
        names(decision, choice, paths),
    ensures
        choice is Drop <==> decision is Drop,
        choice matches Choice::Single(only) ==> (decision matches Decision::Single { path_id }
            && path_id@ == paths[only].id@),
        choice matches Choice::Duplicate(list) ==> (decision matches Decision::Duplicate {
            path_ids,
        } && path_ids@.len() == list.len() && (0 <= i < list.len() ==> path_ids@[i]@
            == paths[list[i]].id@)),
{
    if let Choice::Duplicate(list) = choice {
        if let Decision::Duplicate { path_ids } = decision {
            let ids = text::string_views(path_ids@);
            assert(ids.len() == list.len());
            if 0 <= i < list.len() {
                assert(ids[i] == ids_of(paths, list)[i]);
            }
        }
    }
}

/// The score of a path that is up and measured is its own; any other scores as
/// infinity does, so that it comes last.
pub proof fn a_path_out_of_use_scores_worst(path: PathMetrics)
    ensures
        path.active ==> (path.estimate matches Some(estimate) ==> path.rating() == estimate.score),
        !path.active || path.estimate is None ==> path.rating() == 0x7ff0_0000_0000_0000,
{
}

} // verus!
