//! The selector: which sources agree with each other.
//!
//! Every source claims that the true offset lies in an interval around its
//! own estimate. The selector looks for the point that the most intervals
//! cover and keeps the sources whose interval covers it, provided they are
//! enough and more than half of those that were considered.

use crate::packet::NtpLeapIndicator;
use crate::sorting::{
    count_of, insert_stable, is_ordered, lemma_count_implied,
    lemma_count_is_filter_len, lemma_count_prefix, lemma_insert_position, lemma_stable_sorted_count,
    lemma_stable_sorted_len, lemma_stable_sorted_ordered, stable_sorted,
};
use crate::time_types::{saturate, truncated_quotient, NtpDuration, NtpTimestamp};
use vstd::prelude::*;

verus! {

/// A factor without unit, counted in units of 2^-32.
#[derive(Clone, Copy, Debug, PartialEq, Eq, PartialOrd, Ord, Hash, Structural)]
pub struct Weight {
    pub weight: u64,
}

impl View for Weight {
    type V = int;

    open spec fn view(&self) -> int {
        self.weight as int
    }
}

/// The units of the factor one.
pub const WEIGHT_ONE_UNITS: u64 = 0x1_0000_0000;

impl Weight {
    pub fn from_fixed_int(weight: u64) -> (r: Self)
        ensures
            r@ == weight,
    {
        Weight { weight }
    }

    pub fn to_fixed_int(self) -> (r: u64)
        ensures
            r == self@,
    {
        self.weight
    }

    /// The factor of as many units as `duration` has, if it is not negative.
    pub fn from_duration(duration: NtpDuration) -> (r: Option<Self>)
        ensures
            r == if duration@ >= 0 {
                Some(Weight { weight: duration@ as u64 })
            } else {
                None
            },
    {
        if duration.duration >= 0 {
            Some(Weight { weight: duration.duration as u64 })
        } else {
            None
        }
    }

    /// The factor that leaves nothing.
    pub fn zero() -> (r: Self)
        ensures
            r@ == 0,
    {
        Weight { weight: 0 }
    }

    /// The factor that changes nothing.
    pub fn one() -> (r: Self)
        ensures
            r@ == WEIGHT_ONE_UNITS,
    {
        Weight { weight: WEIGHT_ONE_UNITS }
    }
}

/// The units of `units` taken `weight` times, rounded toward zero.
pub open spec fn weighted_units(units: int, weight: int) -> int {
    truncated_quotient(units * weight, WEIGHT_ONE_UNITS as int)
}

/// The part of the system's configuration that the selector reads.
#[derive(Clone, Copy, Debug, PartialEq, Eq, Structural)]
pub struct SystemConfig {
    /// How many sources must agree before any is trusted.
    pub min_intersection_survivors: usize,
}

impl Default for SystemConfig {
    fn default() -> (r: Self)
        ensures
            r.min_intersection_survivors == 3,
    {
        SystemConfig { min_intersection_survivors: 3 }
    }
}

/// The part of the algorithm's configuration that the selector reads.
#[derive(Clone, Copy, Debug, PartialEq, Eq, Structural)]
pub struct AlgorithmConfig {
    /// The widest interval that a source may claim and still be considered.
    pub max_peer_uncertainty: NtpDuration,
    /// How much of a source's statistical uncertainty goes into its interval.
    pub range_statistical_weight: Weight,
    /// How much of a source's delay goes into its interval.
    pub range_delay_weight: Weight,
}

impl Default for AlgorithmConfig {
    fn default() -> (r: Self)
        ensures
            r.max_peer_uncertainty@ == 0x1_0000_0000,
            r.range_statistical_weight@ == 0x2_0000_0000,
            r.range_delay_weight@ == 0x4000_0000,
    {
        AlgorithmConfig {
            max_peer_uncertainty: NtpDuration::one(),
            range_statistical_weight: Weight::from_fixed_int(0x2_0000_0000),
            range_delay_weight: Weight::from_fixed_int(0x4000_0000),
        }
    }
}

/// What the selector and the clock controller know of one source.
#[derive(Clone, Copy, Debug, PartialEq, Eq)]
pub struct PeerSnapshot<Index: Copy> {
    /// By what the owner of the snapshot tells the source from others.
    pub index: Index,
    /// The estimate of the offset of the source.
    pub offset: NtpDuration,
    /// The standard deviation of that estimate.
    pub offset_uncertainty: NtpDuration,
    /// The round-trip delay to the source.
    pub delay: NtpDuration,
    /// The uncertainty that the source states of its own clock.
    pub peer_uncertainty: NtpDuration,
    /// The delay that the source states of its own clock.
    pub peer_delay: NtpDuration,
    pub leap_indicator: NtpLeapIndicator,
    pub last_update: NtpTimestamp,
}

impl<Index: Copy> PeerSnapshot<Index> {
    pub fn offset(&self) -> (r: NtpDuration)
        ensures
            r == self.offset,
    {
        self.offset
    }

    pub fn offset_uncertainty(&self) -> (r: NtpDuration)
        ensures
            r == self.offset_uncertainty,
    {
        self.offset_uncertainty
    }

    /// Half the width of the interval that the source claims: its
    /// uncertainty and its delay, each weighted as `algo_config` says.
    pub open spec fn radius_units(self, algo_config: AlgorithmConfig) -> int {
        saturate(
            weighted_units(self.offset_uncertainty@, algo_config.range_statistical_weight@)
                + weighted_units(self.delay@, algo_config.range_delay_weight@),
        )
    }

    /// Where the interval of the source begins.
    pub open spec fn lower_units(self, algo_config: AlgorithmConfig) -> int {
        saturate(self.offset@ - self.radius_units(algo_config))
    }

    /// Where the interval of the source ends.
    pub open spec fn upper_units(self, algo_config: AlgorithmConfig) -> int {
        saturate(self.offset@ + self.radius_units(algo_config))
    }

    /// A source is considered if its interval is not too wide and its clock
    /// is synchronized.
    pub open spec fn is_eligible(self, algo_config: AlgorithmConfig) -> bool {
        self.radius_units(algo_config) <= algo_config.max_peer_uncertainty@
            && self.leap_indicator.is_synchronized()
    }

    /// Whether the source is considered and its interval covers `point`.
    pub open spec fn covers(self, algo_config: AlgorithmConfig, point: int) -> bool {
        self.is_eligible(algo_config) && self.lower_units(algo_config) <= point
            <= self.upper_units(algo_config)
    }

    /// Half the width of the interval that the source claims, see
    /// [`PeerSnapshot::radius_units`].
    pub fn radius(&self, algo_config: &AlgorithmConfig) -> (r: NtpDuration)
        ensures
            r@ == self.radius_units(*algo_config),
    {
        let statistical = weigh(self.offset_uncertainty, algo_config.range_statistical_weight);
        let of_delay = weigh(self.delay, algo_config.range_delay_weight);
        let sum: i128 = statistical + of_delay;
        if sum > i64::MAX as i128 {
            NtpDuration::from_fixed_int(i64::MAX)
        } else if sum < i64::MIN as i128 {
            NtpDuration::from_fixed_int(i64::MIN)
        } else {
            NtpDuration::from_fixed_int(sum as i64)
        }
    }
}

/// The units of `duration` taken `weight` times, see [`weighted_units`].
pub fn weigh(duration: NtpDuration, weight: Weight) -> (r: i128)
    ensures
        r == weighted_units(duration@, weight@),
        -0x8000_0000_0000_0000_0000_0000 <= r <= 0x8000_0000_0000_0000_0000_0000,
{
    let units: i128 = duration.to_fixed_int() as i128;
    let factor: i128 = weight.to_fixed_int() as i128;
    assert(-0x8000_0000_0000_0000 * 0xFFFF_FFFF_FFFF_FFFF <= units * factor
        <= 0x8000_0000_0000_0000 * 0xFFFF_FFFF_FFFF_FFFF) by (nonlinear_arith)
        requires
            -0x8000_0000_0000_0000 <= units <= 0x8000_0000_0000_0000,
            0 <= factor <= 0xFFFF_FFFF_FFFF_FFFF,
    ;
    let product: i128 = units * factor;
    product / 0x1_0000_0000
}

/// Which end of an interval a bound is.
#[derive(Clone, Copy, Debug, PartialEq, Eq, Structural)]
pub enum BoundType {
    Start,
    End,
}

/// One end of the interval of a source.
#[derive(Clone, Copy, Debug, PartialEq, Eq, Structural)]
pub struct Bound {
    pub position: NtpDuration,
    pub kind: BoundType,
}

/// The key by which the selector orders the bounds.
pub open spec fn position_key() -> spec_fn(Bound) -> int {
    |bound: Bound| bound.position@
}

/// The bounds of the sources that are considered, in the order of the
/// sources, of each first where its interval begins and then where it ends.
pub open spec fn bounds_of<Index: Copy>(
    candidates: Seq<PeerSnapshot<Index>>,
    algo_config: AlgorithmConfig,
) -> Seq<Bound>
    decreases candidates.len(),
{
    if candidates.len() == 0 {
        Seq::empty()
    } else {
        let before = bounds_of(candidates.drop_last(), algo_config);
        let last = candidates.last();
        if last.is_eligible(algo_config) {
            before.push(
                Bound {
                    position: NtpDuration { duration: last.lower_units(algo_config) as i64 },
                    kind: BoundType::Start,
                },
            ).push(
                Bound {
                    position: NtpDuration { duration: last.upper_units(algo_config) as i64 },
                    kind: BoundType::End,
                },
            )
        } else {
            before
        }
    }
}

/// What a walk along the bounds knows at some point of it.
pub struct Sweep {
    /// How many intervals have begun and not yet ended.
    pub depth: int,
    /// The largest depth so far.
    pub deepest: int,
    /// The position of the bound at which that depth was first reached.
    pub at: int,
}

/// The walk along the first `count` of `bounds`: the depth goes up at every
/// start and down at every end, and a depth that exceeds all before it is
/// kept together with the place where it was reached.
pub open spec fn sweep(bounds: Seq<Bound>, count: nat) -> Sweep
    decreases count,
{
    if count == 0 {
        Sweep { depth: 0, deepest: 0, at: 0 }
    } else {
        let before = sweep(bounds, (count - 1) as nat);
        let bound = bounds[count - 1];
        let depth = match bound.kind {
            BoundType::Start => before.depth + 1,
            BoundType::End => before.depth - 1,
        };
        if depth > before.deepest {
            Sweep { depth, deepest: depth, at: bound.position@ }
        } else {
            Sweep { depth, deepest: before.deepest, at: before.at }
        }
    }
}

/// The walk along all the bounds of `candidates` in ascending order, bounds
/// at one position in the order of [`bounds_of`].
pub open spec fn full_sweep<Index: Copy>(
    candidates: Seq<PeerSnapshot<Index>>,
    algo_config: AlgorithmConfig,
) -> Sweep {
    let bounds = stable_sorted(bounds_of(candidates, algo_config), position_key());
    sweep(bounds, bounds.len())
}

/// The condition of covering `point`, see [`PeerSnapshot::covers`].
pub open spec fn covering<Index: Copy>(algo_config: AlgorithmConfig, point: int) -> spec_fn(
    PeerSnapshot<Index>,
) -> bool {
    |snapshot: PeerSnapshot<Index>| snapshot.covers(algo_config, point)
}

/// The condition of being considered, see [`PeerSnapshot::is_eligible`].
pub open spec fn eligible<Index: Copy>(algo_config: AlgorithmConfig) -> spec_fn(
    PeerSnapshot<Index>,
) -> bool {
    |snapshot: PeerSnapshot<Index>| snapshot.is_eligible(algo_config)
}

/// Whether the deepest point of the walk is trusted: at least
/// `min_intersection_survivors` intervals meet there, and more than a quarter
/// of all the bounds, which is more than half of the intervals.
pub open spec fn is_agreement<Index: Copy>(
    config: SystemConfig,
    algo_config: AlgorithmConfig,
    candidates: Seq<PeerSnapshot<Index>>,
) -> bool {
    let deepest = full_sweep(candidates, algo_config).deepest;
    deepest >= config.min_intersection_survivors && deepest * 4 > bounds_of(
        candidates,
        algo_config,
    ).len()
}

/// The sources that the selector keeps: if the deepest point is trusted,
/// those that are considered and whose interval covers it, in the order in
/// which they came; else none.
pub open spec fn selection<Index: Copy>(
    config: SystemConfig,
    algo_config: AlgorithmConfig,
    candidates: Seq<PeerSnapshot<Index>>,
) -> Seq<PeerSnapshot<Index>> {
    if is_agreement(config, algo_config, candidates) {
        candidates.filter(covering(algo_config, full_sweep(candidates, algo_config).at))
    } else {
        Seq::empty()
    }
}

/// Orders `bounds` by position, bounds at one position staying in order.
pub fn sort_bounds(bounds: &mut Vec<Bound>)
    ensures
        final(bounds)@ == stable_sorted(old(bounds)@, position_key()),
{
    let ghost source = bounds@;
    let ghost key = position_key();
    let count = bounds.len();
    if count == 0 {
        return ;
    }
    let mut i: usize = 1;
    assert(bounds@.subrange(0, 1) =~= stable_sorted(source.subrange(0, 1), key)) by {
        let one = source.subrange(0, 1);
        assert(one.drop_last().len() == 0);
        assert(stable_sorted(one.drop_last(), key) =~= Seq::empty());
        assert(stable_sorted(one, key) == insert_stable(
            stable_sorted(one.drop_last(), key),
            one.last(),
            key,
        ));
    }
    while i < count
        invariant
            1 <= i <= count,
            key == position_key(),
            source.len() == count,
            bounds@.len() == count,
            bounds@.subrange(0, i as int) == stable_sorted(source.subrange(0, i as int), key),
            forall|k: int| i <= k < count ==> bounds@[k] == source[k],
        decreases count - i,
    {
        let item = bounds[i];
        let ghost prefix = bounds@.subrange(0, i as int);
        let mut j: usize = i;
        while j > 0 && bounds[j - 1].position > item.position
            invariant
                0 <= j <= i < count,
                key == position_key(),
                bounds@.len() == count,
                source.len() == count,
                prefix.len() == i,
                item == source[i as int],
                forall|k: int| 0 <= k < j ==> bounds@[k] == prefix[k],
                forall|k: int| j < k <= i ==> bounds@[k] == prefix[k - 1],
                forall|k: int| j <= k < i ==> key(#[trigger] prefix[k]) > key(item),
                forall|k: int| i < k < count ==> bounds@[k] == source[k],
            decreases j,
        {
            let moved = bounds[j - 1];
            bounds[j] = moved;
            j = j - 1;
        }
        bounds[j] = item;
        proof {
            lemma_insert_position(prefix, item, key, j as int);
            let next = source.subrange(0, i + 1);
            assert(next.drop_last() =~= source.subrange(0, i as int));
            assert(next.last() == item);
            assert(bounds@.subrange(0, i + 1) =~= prefix.subrange(0, j as int).push(item)
                + prefix.subrange(j as int, i as int));
        }
        i = i + 1;
    }
    assert(bounds@.subrange(0, count as int) =~= bounds@);
    assert(source.subrange(0, count as int) =~= source);
}

/// The sources among `candidates` that agree with each other, see
/// [`selection`].
pub fn select<Index: Copy>(
    config: &SystemConfig,
    algo_config: &AlgorithmConfig,
    candidates: Vec<PeerSnapshot<Index>>,
) -> (r: Vec<PeerSnapshot<Index>>)
    ensures
        r@ == selection(*config, *algo_config, candidates@),
        forall|i: int|
            0 <= i < r@.len() ==> (#[trigger] r@[i]).is_eligible(*algo_config)
                && candidates@.contains(r@[i]),
        r@.len() == 0 || (r@.len() >= config.min_intersection_survivors && 2 * r@.len()
            > count_of(candidates@, eligible(*algo_config))),
{
    proof {
        lemma_selection_is_none_or_majority(*config, *algo_config, candidates@);
        assert forall|i: int|
            0 <= i < selection(*config, *algo_config, candidates@).len() implies (
        #[trigger] selection(*config, *algo_config, candidates@)[i]).is_eligible(*algo_config)
            && candidates@.contains(selection(*config, *algo_config, candidates@)[i]) by {
            lemma_selection_is_admissible(*config, *algo_config, candidates@, i);
        }
    }
    let mut bounds: Vec<Bound> = Vec::new();
    let mut i: usize = 0;
    assert(candidates@.subrange(0, 0) =~= Seq::empty());
    while i < candidates.len()
        invariant
            i <= candidates@.len(),
            bounds@ == bounds_of(candidates@.subrange(0, i as int), *algo_config),
        decreases candidates@.len() - i,
    {
        let snapshot = &candidates[i];
        let radius = snapshot.radius(algo_config);
        proof {
            let through = candidates@.subrange(0, i + 1);
            assert(through.drop_last() =~= candidates@.subrange(0, i as int));
            assert(through.last() == candidates@[i as int]);
        }
        if !(radius > algo_config.max_peer_uncertainty
            || !snapshot.leap_indicator.is_synchronized()) {
            bounds.push(Bound { position: snapshot.offset() - radius, kind: BoundType::Start });
            bounds.push(Bound { position: snapshot.offset() + radius, kind: BoundType::End });
        }
        i = i + 1;
    }
    assert(candidates@.subrange(0, i as int) =~= candidates@);
    let ghost unsorted = bounds@;

    sort_bounds(&mut bounds);

    let mut max: i128 = 0;
    let mut maxt: NtpDuration = NtpDuration::zero();
    let mut cur: i128 = 0;
    let mut k: usize = 0;
    while k < bounds.len()
        invariant
            k <= bounds@.len(),
            cur == sweep(bounds@, k as nat).depth,
            max == sweep(bounds@, k as nat).deepest,
            maxt@ == sweep(bounds@, k as nat).at,
            -(k as int) <= cur <= k,
            0 <= max <= k,
        decreases bounds@.len() - k,
    {
        match bounds[k].kind {
            BoundType::Start => cur = cur + 1,
            BoundType::End => cur = cur - 1,
        }
        if cur > max {
            max = cur;
            maxt = bounds[k].position;
        }
        k = k + 1;
    }

    if max >= config.min_intersection_survivors as i128 && max * 4 > bounds.len() as i128 {
        proof {
            lemma_stable_sorted_len(unsorted, position_key());
        }
        let ghost kept = covering::<Index>(*algo_config, maxt@);
        let mut survivors: Vec<PeerSnapshot<Index>> = Vec::new();
        let mut n: usize = 0;
        assert(candidates@.subrange(0, 0) =~= Seq::empty());
        while n < candidates.len()
            invariant
                n <= candidates@.len(),
                kept == covering::<Index>(*algo_config, maxt@),
                survivors@ == candidates@.subrange(0, n as int).filter(kept),
            decreases candidates@.len() - n,
        {
            let snapshot = &candidates[n];
            let radius = snapshot.radius(algo_config);
            let lower = snapshot.offset() - radius;
            let upper = snapshot.offset() + radius;
            proof {
                let through = candidates@.subrange(0, n + 1);
                assert(through.drop_last() =~= candidates@.subrange(0, n as int));
                assert(through.last() == candidates@[n as int]);
                reveal(Seq::filter);
            }
            if radius <= algo_config.max_peer_uncertainty && lower <= maxt && upper >= maxt
                && snapshot.leap_indicator.is_synchronized() {
                survivors.push(*snapshot);
            }
            n = n + 1;
        }
        assert(candidates@.subrange(0, n as int) =~= candidates@);
        survivors
    } else {
        proof {
            lemma_stable_sorted_len(unsorted, position_key());
        }
        Vec::new()
    }
}

/// The condition of being where an interval begins.
pub open spec fn is_start() -> spec_fn(Bound) -> bool {
    |bound: Bound| bound.kind == BoundType::Start
}

/// The condition of being where an interval ends.
pub open spec fn is_end() -> spec_fn(Bound) -> bool {
    |bound: Bound| bound.kind == BoundType::End
}

/// The condition of being where an interval begins, at `point` or before.
pub open spec fn starts_up_to(point: int) -> spec_fn(Bound) -> bool {
    |bound: Bound| bound.kind == BoundType::Start && bound.position@ <= point
}

/// The condition of being where an interval ends, before `point`.
pub open spec fn ends_before(point: int) -> spec_fn(Bound) -> bool {
    |bound: Bound| bound.kind == BoundType::End && bound.position@ < point
}

/// The condition of being considered and beginning at `point` or before.
pub open spec fn begins_up_to<Index: Copy>(algo_config: AlgorithmConfig, point: int) -> spec_fn(
    PeerSnapshot<Index>,
) -> bool {
    |snapshot: PeerSnapshot<Index>|
        snapshot.is_eligible(algo_config) && snapshot.lower_units(algo_config) <= point
}

/// The condition of being considered and ending before `point`.
pub open spec fn ends_short_of<Index: Copy>(algo_config: AlgorithmConfig, point: int) -> spec_fn(
    PeerSnapshot<Index>,
) -> bool {
    |snapshot: PeerSnapshot<Index>|
        snapshot.is_eligible(algo_config) && snapshot.upper_units(algo_config) < point
}

/// The depth of the walk is the number of starts that it has passed less the
/// number of ends.
pub proof fn lemma_sweep_depth(bounds: Seq<Bound>, count: nat)
    requires
        count <= bounds.len(),
    ensures
        sweep(bounds, count).depth == count_of(bounds.subrange(0, count as int), is_start())
            - count_of(bounds.subrange(0, count as int), is_end()),
    decreases count,
{
    if count > 0 {
        lemma_sweep_depth(bounds, (count - 1) as nat);
        let through = bounds.subrange(0, count as int);
        assert(through.drop_last() =~= bounds.subrange(0, count - 1));
        assert(through.last() == bounds[count - 1]);
    }
}

/// Whether the walk along `bounds` reaches the depth `deepest` at the bound
/// with index `index`, a start at the position `at`.
pub open spec fn reaches(bounds: Seq<Bound>, index: int, deepest: int, at: int) -> bool {
    0 <= index < bounds.len() && sweep(bounds, (index + 1) as nat).depth == deepest
        && bounds[index].position@ == at
}

/// The largest depth of a walk is not negative, and if it is positive, the
/// walk has reached it at one of the bounds it passed, whose position it
/// has kept.
pub proof fn lemma_sweep_deepest(bounds: Seq<Bound>, count: nat)
    requires
        count <= bounds.len(),
    ensures
        sweep(bounds, count).deepest >= 0,
        sweep(bounds, count).deepest >= sweep(bounds, count).depth,
        sweep(bounds, count).deepest > 0 ==> exists|index: int|
            index < count && #[trigger] reaches(
                bounds,
                index,
                sweep(bounds, count).deepest,
                sweep(bounds, count).at,
            ),
    decreases count,
{
    if count > 0 {
        let before = sweep(bounds, (count - 1) as nat);
        let now = sweep(bounds, count);
        lemma_sweep_deepest(bounds, (count - 1) as nat);
        if now.depth > before.deepest {
            assert(reaches(bounds, count - 1, now.deepest, now.at));
        } else if now.deepest > 0 {
            let index = choose|index: int|
                index < count - 1 && #[trigger] reaches(bounds, index, before.deepest, before.at);
            assert(reaches(bounds, index, now.deepest, now.at));
        }
    }
}

/// In ordered bounds, the depth behind a bound is at most the number of
/// intervals that begin at its position or before, less the number of those
/// that end before it.
pub proof fn lemma_depth_in_ordered_bounds(bounds: Seq<Bound>, index: int)
    requires
        is_ordered(bounds, position_key()),
        0 <= index < bounds.len(),
    ensures
        sweep(bounds, (index + 1) as nat).depth <= count_of(
            bounds,
            starts_up_to(bounds[index].position@),
        ) - count_of(bounds, ends_before(bounds[index].position@)),
{
    let point = bounds[index].position@;
    let key = position_key();
    let passed = bounds.subrange(0, index + 1);
    lemma_sweep_depth(bounds, (index + 1) as nat);
    assert forall|i: int| 0 <= i < passed.len() && is_start()(#[trigger] passed[i]) implies
        starts_up_to(point)(passed[i]) by {
        assert(passed[i] == bounds[i]);
        assert(key(bounds[i]) <= key(bounds[index]));
    }
    lemma_count_implied(passed, is_start(), starts_up_to(point));
    lemma_count_prefix(bounds, starts_up_to(point), index + 1);
    assert forall|i: int| index + 1 <= i < bounds.len() implies !ends_before(point)(
        #[trigger] bounds[i],
    ) by {
        assert(key(bounds[index]) <= key(bounds[i]));
    }
    lemma_count_prefix(bounds, ends_before(point), index + 1);
    assert forall|i: int| 0 <= i < passed.len() && ends_before(point)(
        #[trigger] passed[i],
    ) implies is_end()(passed[i]) by {}
    lemma_count_implied(passed, ends_before(point), is_end());
}

/// The bounds of the sources are two for each source that is considered: a
/// start for each whose interval begins up to `point`, an end for each
/// whose interval ends before it.
pub proof fn lemma_bounds_counts<Index: Copy>(
    candidates: Seq<PeerSnapshot<Index>>,
    algo_config: AlgorithmConfig,
    point: int,
)
    ensures
        bounds_of(candidates, algo_config).len() == 2 * count_of(
            candidates,
            eligible(algo_config),
        ),
        count_of(bounds_of(candidates, algo_config), starts_up_to(point)) == count_of(
            candidates,
            begins_up_to(algo_config, point),
        ),
        count_of(bounds_of(candidates, algo_config), ends_before(point)) == count_of(
            candidates,
            ends_short_of(algo_config, point),
        ),
    decreases candidates.len(),
{
    if candidates.len() > 0 {
        let front = candidates.drop_last();
        let last = candidates.last();
        lemma_bounds_counts(front, algo_config, point);
        if last.is_eligible(algo_config) {
            let before = bounds_of(front, algo_config);
            let start = Bound {
                position: NtpDuration { duration: last.lower_units(algo_config) as i64 },
                kind: BoundType::Start,
            };
            let end = Bound {
                position: NtpDuration { duration: last.upper_units(algo_config) as i64 },
                kind: BoundType::End,
            };
            let with_start = before.push(start);
            let all = with_start.push(end);
            assert(all.drop_last() =~= with_start);
            assert(all.last() == end);
            assert(with_start.drop_last() =~= before);
            assert(with_start.last() == start);
            assert(start.position@ == last.lower_units(algo_config));
            assert(end.position@ == last.upper_units(algo_config));
            assert(bounds_of(candidates, algo_config) == all);
            let starts = starts_up_to(point);
            let ends = ends_before(point);
            assert(count_of(with_start, starts) == count_of(before, starts) + if starts(start) {
                1nat
            } else {
                0nat
            });
            assert(count_of(all, starts) == count_of(with_start, starts));
            assert(count_of(with_start, ends) == count_of(before, ends));
            assert(count_of(all, ends) == count_of(with_start, ends) + if ends(end) {
                1nat
            } else {
                0nat
            });
        }
    }
}

/// Of the sources whose interval begins up to a point, those whose interval
/// does not end before it cover it.
pub proof fn lemma_open_intervals_cover<Index: Copy>(
    candidates: Seq<PeerSnapshot<Index>>,
    algo_config: AlgorithmConfig,
    point: int,
)
    ensures
        count_of(candidates, begins_up_to(algo_config, point)) - count_of(
            candidates,
            ends_short_of(algo_config, point),
        ) <= count_of(candidates, covering(algo_config, point)),
    decreases candidates.len(),
{
    if candidates.len() > 0 {
        lemma_open_intervals_cover(candidates.drop_last(), algo_config, point);
    }
}

/// At least as many sources cover the deepest point of the walk as the walk
/// is deep there.
pub proof fn lemma_deepest_point_is_covered<Index: Copy>(
    candidates: Seq<PeerSnapshot<Index>>,
    algo_config: AlgorithmConfig,
)
    ensures
        0 <= full_sweep(candidates, algo_config).deepest <= count_of(
            candidates,
            covering(algo_config, full_sweep(candidates, algo_config).at),
        ),
{
    let unsorted = bounds_of(candidates, algo_config);
    let key = position_key();
    let bounds = stable_sorted(unsorted, key);
    let walk = sweep(bounds, bounds.len());
    lemma_sweep_deepest(bounds, bounds.len());
    if walk.deepest > 0 {
        let index = choose|index: int|
            index < bounds.len() && #[trigger] reaches(bounds, index, walk.deepest, walk.at);
        lemma_stable_sorted_ordered(unsorted, key);
        lemma_depth_in_ordered_bounds(bounds, index);
        lemma_stable_sorted_count(unsorted, key, starts_up_to(walk.at));
        lemma_stable_sorted_count(unsorted, key, ends_before(walk.at));
        lemma_bounds_counts(candidates, algo_config, walk.at);
        lemma_open_intervals_cover(candidates, algo_config, walk.at);
    }
}

/// The selector keeps no source that is not considered: none whose interval
/// is wider than the configuration admits, and none whose clock is not
/// synchronized. Every source that it keeps is one of the candidates.
pub proof fn lemma_selection_is_admissible<Index: Copy>(
    config: SystemConfig,
    algo_config: AlgorithmConfig,
    candidates: Seq<PeerSnapshot<Index>>,
    i: int,
)
    requires
        0 <= i < selection(config, algo_config, candidates).len(),
    ensures
        selection(config, algo_config, candidates)[i].is_eligible(algo_config),
        selection(config, algo_config, candidates)[i].radius_units(algo_config)
            <= algo_config.max_peer_uncertainty@,
        selection(config, algo_config, candidates)[i].leap_indicator.is_synchronized(),
        candidates.contains(selection(config, algo_config, candidates)[i]),
{
    let kept = covering::<Index>(algo_config, full_sweep(candidates, algo_config).at);
    candidates.lemma_filter_pred(kept, i);
    candidates.lemma_filter_contains_rev(kept, selection(config, algo_config, candidates)[i]);
}

/// If fewer sources than `min_intersection_survivors` cover the deepest
/// point, the selector keeps none.
pub proof fn lemma_too_few_survivors_select_none<Index: Copy>(
    config: SystemConfig,
    algo_config: AlgorithmConfig,
    candidates: Seq<PeerSnapshot<Index>>,
)
    requires
        count_of(candidates, covering(algo_config, full_sweep(candidates, algo_config).at))
            < config.min_intersection_survivors,
    ensures
        selection(config, algo_config, candidates).len() == 0,
{
    lemma_deepest_point_is_covered(candidates, algo_config);
}

/// If the sources that cover the deepest point are no more than half of
/// those that are considered, the selector keeps none.
pub proof fn lemma_no_majority_select_none<Index: Copy>(
    config: SystemConfig,
    algo_config: AlgorithmConfig,
    candidates: Seq<PeerSnapshot<Index>>,
)
    requires
        4 * count_of(candidates, covering(algo_config, full_sweep(candidates, algo_config).at))
            <= 2 * count_of(candidates, eligible(algo_config)),
    ensures
        selection(config, algo_config, candidates).len() == 0,
{
    lemma_deepest_point_is_covered(candidates, algo_config);
    lemma_bounds_counts(candidates, algo_config, 0);
}

/// What the selector keeps is nothing, or at least
/// `min_intersection_survivors` sources that are more than half of those
/// that are considered.
pub proof fn lemma_selection_is_none_or_majority<Index: Copy>(
    config: SystemConfig,
    algo_config: AlgorithmConfig,
    candidates: Seq<PeerSnapshot<Index>>,
)
    ensures
        selection(config, algo_config, candidates).len() == 0 || (selection(
            config,
            algo_config,
            candidates,
        ).len() >= config.min_intersection_survivors && 2 * selection(
            config,
            algo_config,
            candidates,
        ).len() > count_of(candidates, eligible(algo_config))),
{
    lemma_deepest_point_is_covered(candidates, algo_config);
    lemma_bounds_counts(candidates, algo_config, 0);
    lemma_count_is_filter_len(
        candidates,
        covering(algo_config, full_sweep(candidates, algo_config).at),
    );
}

} // verus!
