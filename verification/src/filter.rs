//! The clock filter: the last eight measurements of one source, and the one
//! statistic that is drawn from them.
//!
//! Of the remembered samples the filter picks the one with the smallest
//! delay, since a short round trip leaves the least room for error in the
//! offset. The dispersion and the jitter of the whole register carry the
//! remaining uncertainty forward.

use crate::packet::{NtpAssociationMode, NtpHeader, NtpLeapIndicator};
use crate::peer::{multiply_by_phi, phi_units, PeerStatistics};
use crate::roots::{floor_sqrt, integer_sqrt_wide, wide};
use crate::sorting::{
    insert_stable, is_ordered, lemma_insert_position, lemma_ordered_is_fixed,
    lemma_stable_sorted_len, lemma_stable_sorted_members, lemma_stable_sorted_ordered,
    stable_sorted,
};
use crate::time_types::{
    exponent_units, saturate, truncated_quotient, wrapped_difference, NtpDuration, NtpTimestamp,
    MAX_DISPERSION_UNITS, UNITS_PER_SECOND,
};
use vstd::arithmetic::power2::{lemma2_to64, lemma_pow2_unfold, pow2};
use vstd::prelude::*;
use vstd::slice::slice_subrange;

verus! {

/// The number of measurements that the filter remembers.
pub const REGISTER_SIZE: usize = 8;

/// One measurement of a source: what its clock was off by, how long the
/// exchange took, how uncertain the offset is, and when it was taken.
#[derive(Clone, Copy, Debug, PartialEq, Eq, Structural)]
pub struct FilterTuple {
    pub offset: NtpDuration,
    pub delay: NtpDuration,
    pub dispersion: NtpDuration,
    pub time: NtpTimestamp,
}

/// The offset that four timestamps of one exchange give: the mean of the two
/// one-way differences, rounded toward zero.
pub open spec fn exchange_offset(origin: int, receive: int, transmit: int, destination: int) -> int {
    truncated_quotient(
        saturate(wrapped_difference(receive, origin) + wrapped_difference(destination, transmit)),
        2,
    )
}

/// The round-trip delay that four timestamps of one exchange give: the time
/// the client waited less the time the server held the request, and no less
/// than `precision`.
pub open spec fn exchange_delay(
    origin: int,
    receive: int,
    transmit: int,
    destination: int,
    precision: int,
) -> int {
    let round_trip = saturate(
        wrapped_difference(destination, origin) - wrapped_difference(transmit, receive),
    );
    if precision >= round_trip {
        precision
    } else {
        round_trip
    }
}

/// The dispersion of a fresh measurement: the precision of both clocks and
/// the drift that may have gathered while the client waited.
pub open spec fn exchange_dispersion(
    exponent: int,
    precision: int,
    origin: int,
    destination: int,
) -> int {
    saturate(
        saturate(exponent_units(exponent) + precision) + phi_units(
            wrapped_difference(destination, origin),
        ),
    )
}

impl FilterTuple {
    /// The tuple that fills a slot in which no measurement stands yet.
    pub open spec fn spec_dummy() -> FilterTuple {
        FilterTuple {
            offset: NtpDuration { duration: 0 },
            delay: NtpDuration { duration: MAX_DISPERSION_UNITS },
            dispersion: NtpDuration { duration: MAX_DISPERSION_UNITS },
            time: NtpTimestamp { timestamp: 0 },
        }
    }

    #[verifier::when_used_as_spec(spec_dummy)]
    pub fn dummy() -> (r: Self)
        ensures
            r == Self::spec_dummy(),
    {
        FilterTuple {
            offset: NtpDuration::zero(),
            delay: NtpDuration::max_dispersion(),
            dispersion: NtpDuration::max_dispersion(),
            time: NtpTimestamp::zero(),
        }
    }

    pub open spec fn spec_is_dummy(self) -> bool {
        self == Self::spec_dummy()
    }

    /// Whether this tuple is the one that stands for no measurement.
    #[verifier::when_used_as_spec(spec_is_dummy)]
    pub fn is_dummy(self) -> (r: bool)
        ensures
            r == self.spec_is_dummy(),
    {
        self == Self::dummy()
    }

    /// The measurement that a server's response gives, see
    /// [`exchange_offset`], [`exchange_delay`] and [`exchange_dispersion`].
    ///
    /// `destination_timestamp` is when the response arrived and
    /// `local_clock_time` is what the measurement is dated with. A broadcast
    /// packet belongs to no exchange and must not be passed.
    pub fn from_packet_default(
        packet: &NtpHeader,
        system_precision: NtpDuration,
        destination_timestamp: NtpTimestamp,
        local_clock_time: NtpTimestamp,
    ) -> (r: Self)
        requires
            packet.mode != NtpAssociationMode::Broadcast,
        ensures
            r.offset@ == exchange_offset(
                packet.origin_timestamp@,
                packet.receive_timestamp@,
                packet.transmit_timestamp@,
                destination_timestamp@,
            ),
            r.delay@ == exchange_delay(
                packet.origin_timestamp@,
                packet.receive_timestamp@,
                packet.transmit_timestamp@,
                destination_timestamp@,
                system_precision@,
            ),
            r.dispersion@ == exchange_dispersion(
                packet.precision as int,
                system_precision@,
                packet.origin_timestamp@,
                destination_timestamp@,
            ),
            r.time == local_clock_time,
    {
        let packet_precision = NtpDuration::from_exponent(packet.precision);

        let offset1 = packet.receive_timestamp - packet.origin_timestamp;
        let offset2 = destination_timestamp - packet.transmit_timestamp;
        let offset = (offset1 + offset2) / 2i64;

        let delta1 = destination_timestamp - packet.origin_timestamp;
        let delta2 = packet.transmit_timestamp - packet.receive_timestamp;
        let delay = system_precision.max(delta1 - delta2);

        let dispersion = packet_precision + system_precision + multiply_by_phi(delta1);

        FilterTuple { offset, delay, dispersion, time: local_clock_time }
    }
}

/// A tuple as it stands in the register after `correction` more drift: its
/// dispersion has grown by that much. A dummy stays what it is.
pub open spec fn aged(tuple: FilterTuple, correction: int) -> FilterTuple {
    if tuple.is_dummy() {
        tuple
    } else {
        FilterTuple {
            dispersion: NtpDuration { duration: saturate(tuple.dispersion@ + correction) as i64 },
            ..tuple
        }
    }
}

/// The register after a new measurement came in: the new tuple in front, the
/// others aged and moved one place back, the oldest gone.
pub open spec fn shifted(register: Seq<FilterTuple>, current: FilterTuple, correction: int) -> Seq<
    FilterTuple,
> {
    Seq::new(
        register.len(),
        |i: int|
            if i == 0 {
                current
            } else {
                aged(register[i - 1], correction)
            },
    )
}

/// A register in which no measurement stands yet.
pub open spec fn empty_register() -> Seq<FilterTuple> {
    Seq::new(8, |i: int| FilterTuple::dummy())
}

/// The last eight measurements of a source, the newest first.
#[derive(Clone, Copy, Debug, PartialEq, Eq)]
pub struct LastMeasurements {
    pub register: [FilterTuple; 8],
}

impl View for LastMeasurements {
    type V = Seq<FilterTuple>;

    open spec fn view(&self) -> Seq<FilterTuple> {
        self.register@
    }
}

impl LastMeasurements {
    /// A register in which no measurement stands yet.
    pub fn new() -> (r: Self)
        ensures
            r@ == empty_register(),
    {
        let r = LastMeasurements { register: [FilterTuple::dummy();8] };
        assert(r@ =~= empty_register());
        r
    }

    /// Puts `current` in front, see [`shifted`].
    pub fn shift_and_insert(&mut self, current: FilterTuple, dispersion_correction: NtpDuration)
        ensures
            final(self)@ == shifted(old(self)@, current, dispersion_correction@),
    {
        let ghost before = self@;
        let mut carried = current;
        let mut i: usize = 0;
        while i < 8
            invariant
                i <= 8,
                before.len() == 8,
                self@.len() == 8,
                forall|k: int| 0 <= k < i ==> self@[k] == shifted(
                    before,
                    current,
                    dispersion_correction@,
                )[k],
                forall|k: int| i <= k < 8 ==> self@[k] == before[k],
                i == 0 ==> carried == current,
                i > 0 ==> carried == aged(before[i - 1], dispersion_correction@),
            decreases 8 - i,
        {
            let mut tuple = self.register[i];
            if !tuple.is_dummy() {
                tuple.dispersion = tuple.dispersion + dispersion_correction;
            }
            self.register[i] = carried;
            carried = tuple;
            i = i + 1;
        }
        assert(self@ =~= shifted(before, current, dispersion_correction@));
    }
}

impl Default for LastMeasurements {
    fn default() -> (r: Self)
        ensures
            r@ == empty_register(),
    {
        Self::new()
    }
}

/// The key by which the filter orders its samples.
pub open spec fn delay_key() -> spec_fn(FilterTuple) -> int {
    |tuple: FilterTuple| tuple.delay@
}

/// The tuples of `register` by ascending delay, those of equal delay in
/// the order of the register.
pub open spec fn sorted_by_delay(register: Seq<FilterTuple>) -> Seq<FilterTuple> {
    stable_sorted(register, delay_key())
}

/// How many tuples of `list` are valid: all up to the last one that is no
/// dummy.
pub open spec fn valid_len(list: Seq<FilterTuple>) -> nat
    decreases list.len(),
{
    if list.len() == 0 {
        0
    } else if list.last().is_dummy() {
        valid_len(list.drop_last())
    } else {
        list.len()
    }
}

/// The dispersion of the first `count` tuples of `list`, where the tuple at
/// place `i` weighs 2^-(i+1): the sum of their shares, each rounded toward
/// zero.
pub open spec fn dispersion_through(list: Seq<FilterTuple>, count: nat) -> int
    decreases count,
{
    if count == 0 {
        0
    } else {
        dispersion_through(list, (count - 1) as nat) + truncated_quotient(
            list[count - 1].dispersion@,
            pow2(count) as int,
        )
    }
}

/// How large the dispersion of the first `count` tuples can be at most:
/// all but the share 2^-`count` of the largest duration.
pub open spec fn dispersion_bound(count: nat) -> int {
    0x8000_0000_0000_0000int - 0x8000_0000_0000_0000int / (pow2(count) as int)
}

/// The shares of the tuples add up to less than a whole, so the dispersion
/// of a list always is a duration.
pub proof fn lemma_dispersion_is_bounded(list: Seq<FilterTuple>, count: nat)
    requires
        count <= list.len(),
        count <= 8,
    ensures
        -dispersion_bound(count) <= dispersion_through(list, count) <= dispersion_bound(count),
        0 <= dispersion_bound(count) < 0x8000_0000_0000_0000,
    decreases count,
{
    lemma2_to64();
    if count > 0 {
        lemma_dispersion_is_bounded(list, (count - 1) as nat);
        let dispersion = list[count - 1].dispersion@;
        let share = truncated_quotient(dispersion, pow2(count) as int);
        assert(-0x8000_0000_0000_0000 <= dispersion < 0x8000_0000_0000_0000);
        if count == 1 {
            assert(-0x4000_0000_0000_0000 <= share <= 0x4000_0000_0000_0000);
        } else if count == 2 {
            assert(-0x2000_0000_0000_0000 <= share <= 0x2000_0000_0000_0000);
        } else if count == 3 {
            assert(-0x1000_0000_0000_0000 <= share <= 0x1000_0000_0000_0000);
        } else if count == 4 {
            assert(-0x800_0000_0000_0000 <= share <= 0x800_0000_0000_0000);
        } else if count == 5 {
            assert(-0x400_0000_0000_0000 <= share <= 0x400_0000_0000_0000);
        } else if count == 6 {
            assert(-0x200_0000_0000_0000 <= share <= 0x200_0000_0000_0000);
        } else if count == 7 {
            assert(-0x100_0000_0000_0000 <= share <= 0x100_0000_0000_0000);
        } else {
            assert(-0x80_0000_0000_0000 <= share <= 0x80_0000_0000_0000);
        }
    }
}

/// The squares of the distances of the offsets in `tuples` from
/// `reference`, summed.
pub open spec fn squared_distances(tuples: Seq<FilterTuple>, reference: int) -> int
    decreases tuples.len(),
{
    if tuples.len() == 0 {
        0
    } else {
        let distance = saturate(tuples.last().offset@ - reference);
        squared_distances(tuples.drop_last(), reference) + distance * distance
    }
}

/// The spread of the offsets in `tuples` around `reference`: the root of the
/// summed squares of their distances, divided by the number of tuples less
/// one, each rounded down, and no more than the largest duration.
///
/// With at most one tuple there is nothing to divide by: the spread is then
/// zero if that tuple lies at `reference` and the largest duration if it
/// lies elsewhere.
pub open spec fn offset_spread(tuples: Seq<FilterTuple>, reference: int) -> int {
    let total = squared_distances(tuples, reference);
    let others = tuples.len() - 1;
    if others <= 0 {
        if total == 0 {
            0
        } else {
            i64::MAX as int
        }
    } else {
        saturate(floor_sqrt(total) / others)
    }
}

/// The jitter of `tuples` around `reference`: their spread, and no less than
/// `precision`.
pub open spec fn jitter_units(tuples: Seq<FilterTuple>, reference: int, precision: int) -> int {
    let spread = offset_spread(tuples, reference);
    if spread >= precision {
        spread
    } else {
        precision
    }
}

/// The valid tuples are a prefix that ends in a tuple that is no dummy, and
/// only dummies follow it.
pub proof fn lemma_valid_len(list: Seq<FilterTuple>)
    ensures
        valid_len(list) <= list.len(),
        valid_len(list) > 0 ==> !list[valid_len(list) - 1].is_dummy(),
        forall|i: int| valid_len(list) <= i < list.len() ==> (#[trigger] list[i]).is_dummy(),
    decreases list.len(),
{
    if list.len() > 0 && list.last().is_dummy() {
        let front = list.drop_last();
        lemma_valid_len(front);
        assert forall|i: int| valid_len(list) <= i < list.len() implies (#[trigger] list[i])
            .is_dummy() by {
            if i < front.len() {
                assert(front[i] == list[i]);
            }
        }
    }
}

/// The register of the filter in the order in which the statistics are drawn
/// from it: by ascending delay.
#[derive(Clone, Copy, Debug, PartialEq, Eq)]
pub struct TemporaryList {
    pub register: [FilterTuple; 8],
}

impl View for TemporaryList {
    type V = Seq<FilterTuple>;

    open spec fn view(&self) -> Seq<FilterTuple> {
        self.register@
    }
}

impl TemporaryList {
    /// Whether the list is in its order: no tuple has a larger delay than
    /// one that follows it. A list that was made from a register is.
    pub open spec fn is_sorted(&self) -> bool {
        is_ordered(self@, delay_key())
    }

    /// A list of dummies only.
    pub fn new() -> (r: Self)
        ensures
            r@ == empty_register(),
            r.is_sorted(),
    {
        let r = TemporaryList { register: [FilterTuple::dummy();8] };
        assert(r@ =~= empty_register());
        r
    }

    /// The contents of the filter's register, see [`sorted_by_delay`].
    pub fn from_clock_filter_contents(source: &LastMeasurements) -> (r: Self)
        ensures
            r@ == sorted_by_delay(source@),
            r.is_sorted(),
            forall|tuple: FilterTuple| r@.contains(tuple) <==> source@.contains(tuple),
    {
        let mut register = source.register;
        let ghost key = delay_key();
        let mut i: usize = 1;
        assert(register@.subrange(0, 1) =~= stable_sorted(source@.subrange(0, 1), key)) by {
            let one = source@.subrange(0, 1);
            assert(one.drop_last().len() == 0);
            assert(stable_sorted(one.drop_last(), key) =~= Seq::empty());
            assert(stable_sorted(one, key) == insert_stable(
                stable_sorted(one.drop_last(), key),
                one.last(),
                key,
            ));
        }
        while i < 8
            invariant
                1 <= i <= 8,
                key == delay_key(),
                source@.len() == 8,
                register@.len() == 8,
                register@.subrange(0, i as int) == stable_sorted(source@.subrange(0, i as int), key),
                forall|k: int| i <= k < 8 ==> register@[k] == source@[k],
            decreases 8 - i,
        {
            let item = register[i];
            let ghost prefix = register@.subrange(0, i as int);
            let mut j: usize = i;
            while j > 0 && register[j - 1].delay > item.delay
                invariant
                    0 <= j <= i < 8,
                    key == delay_key(),
                    register@.len() == 8,
                    source@.len() == 8,
                    prefix.len() == i,
                    item == source@[i as int],
                    forall|k: int| 0 <= k < j ==> register@[k] == prefix[k],
                    forall|k: int| j < k <= i ==> register@[k] == prefix[k - 1],
                    forall|k: int| j <= k < i ==> key(#[trigger] prefix[k]) > key(item),
                    forall|k: int| i < k < 8 ==> register@[k] == source@[k],
                decreases j,
            {
                register[j] = register[j - 1];
                j = j - 1;
            }
            register[j] = item;
            proof {
                lemma_insert_position(prefix, item, key, j as int);
                let next = source@.subrange(0, i + 1);
                assert(next.drop_last() =~= source@.subrange(0, i as int));
                assert(next.last() == item);
                assert(register@.subrange(0, i + 1) =~= prefix.subrange(0, j as int).push(item)
                    + prefix.subrange(j as int, i as int));
            }
            i = i + 1;
        }
        assert(register@.subrange(0, 8) =~= register@);
        assert(source@.subrange(0, 8) =~= source@);
        proof {
            lemma_stable_sorted_ordered(source@, key);
            lemma_stable_sorted_members(source@, key);
        }
        TemporaryList { register }
    }

    /// The tuple in front: in a list that is in its order, one of smallest
    /// delay.
    pub fn smallest_delay(&self) -> (r: &FilterTuple)
        ensures
            *r == self@[0],
            self.is_sorted() ==> forall|i: int|
                0 <= i < 8 ==> r.delay@ <= (#[trigger] self@[i]).delay@,
    {
        assert forall|i: int| 0 <= i < 8 && self.is_sorted() implies self@[0].delay@ <= (
        #[trigger] self@[i]).delay@ by {
            assert(delay_key()(self@[0]) <= delay_key()(self@[i]));
        }
        &self.register[0]
    }

    /// The valid tuples of the list, see [`valid_len`].
    pub fn valid_tuples(&self) -> (r: &[FilterTuple])
        ensures
            r@ == self@.subrange(0, valid_len(self@) as int),
    {
        let mut count: usize = 8;
        assert(self@.subrange(0, 8) =~= self@);
        while count > 0 && self.register[count - 1].is_dummy()
            invariant
                count <= 8,
                self@.len() == 8,
                valid_len(self@) == valid_len(self@.subrange(0, count as int)),
            decreases count,
        {
            assert(self@.subrange(0, count as int).drop_last() =~= self@.subrange(
                0,
                count - 1,
            ));
            count = count - 1;
        }
        slice_subrange(self.register.as_slice(), 0, count)
    }

    /// The dispersion of the list, see [`dispersion_through`].
    pub fn dispersion(&self) -> (r: NtpDuration)
        ensures
            r@ == dispersion_through(self@, 8),
    {
        let mut total = NtpDuration::default();
        let mut divisor: i64 = 1;
        let mut i: usize = 0;
        proof {
            lemma2_to64();
        }
        while i < 8
            invariant
                i <= 8,
                self@.len() == 8,
                divisor == pow2(i as nat),
                1 <= divisor <= 256,
                total@ == dispersion_through(self@, i as nat),
            decreases 8 - i,
        {
            proof {
                lemma_pow2_unfold((i + 1) as nat);
                lemma2_to64();
                lemma_dispersion_is_bounded(self@, (i + 1) as nat);
            }
            divisor = divisor * 2;
            total = total + self.register[i].dispersion / divisor;
            i = i + 1;
        }
        total
    }

    /// The jitter of the valid tuples around the offset of `smallest_delay`,
    /// see [`jitter_units`].
    pub fn jitter(&self, smallest_delay: FilterTuple, system_precision: NtpDuration) -> (r:
        NtpDuration)
        ensures
            r@ == jitter_units(
                self@.subrange(0, valid_len(self@) as int),
                smallest_delay.offset@,
                system_precision@,
            ),
            r@ >= system_precision@,
    {
        proof {
            lemma_valid_len(self@);
        }
        Self::jitter_help(self.valid_tuples(), smallest_delay, system_precision)
    }

    /// The jitter of `valid_tuples` around the offset of `smallest_delay`,
    /// see [`jitter_units`]. The tuples are some of a register, so there
    /// are at most eight.
    pub fn jitter_help(
        valid_tuples: &[FilterTuple],
        smallest_delay: FilterTuple,
        system_precision: NtpDuration,
    ) -> (r: NtpDuration)
        requires
            valid_tuples@.len() <= 8,
        ensures
            r@ == jitter_units(valid_tuples@, smallest_delay.offset@, system_precision@),
            r@ >= system_precision@,
    {
        let ghost reference = smallest_delay.offset@;
        // the sum of the squares, of which `low` holds the 128 lowest bits
        let mut high: u64 = 0;
        let mut low: u128 = 0;
        let mut i: usize = 0;
        assert(valid_tuples@.subrange(0, 0) =~= Seq::empty());
        while i < valid_tuples.len()
            invariant
                i <= valid_tuples@.len() <= 8,
                reference == smallest_delay.offset@,
                wide(high, low) == squared_distances(valid_tuples@.subrange(0, i as int), reference),
                wide(high, low) <= i * 0x4000_0000_0000_0000_0000_0000_0000_0000,
            decreases valid_tuples@.len() - i,
        {
            let distance: i64 = (valid_tuples[i].offset - smallest_delay.offset).to_fixed_int();
            let size: u128 = if distance >= 0 {
                distance as u128
            } else {
                (-(distance + 1)) as u128 + 1
            };
            assert(size * size == distance * distance && size * size
                <= 0x4000_0000_0000_0000_0000_0000_0000_0000) by (nonlinear_arith)
                requires
                    size == distance || size == -distance,
                    0 <= size <= 0x8000_0000_0000_0000,
            ;
            proof {
                let through = valid_tuples@.subrange(0, i + 1);
                assert(through.drop_last() =~= valid_tuples@.subrange(0, i as int));
                assert(through.last() == valid_tuples@[i as int]);
            }
            let square: u128 = size * size;
            match low.checked_add(square) {
                Some(sum) => {
                    low = sum;
                },
                None => {
                    low = low.wrapping_add(square);
                    high = high + 1;
                },
            }
            i = i + 1;
        }
        assert(valid_tuples@.subrange(0, i as int) =~= valid_tuples@);
        let spread: NtpDuration = if valid_tuples.len() <= 1 {
            if high == 0 && low == 0 {
                NtpDuration::zero()
            } else {
                NtpDuration::from_fixed_int(i64::MAX)
            }
        } else {
            let others: u128 = (valid_tuples.len() - 1) as u128;
            let quotient: u128 = integer_sqrt_wide(high, low) / others;
            if quotient > 0x7FFF_FFFF_FFFF_FFFF {
                NtpDuration::from_fixed_int(i64::MAX)
            } else {
                NtpDuration::from_fixed_int(quotient as i64)
            }
        };
        spread.max(system_precision)
    }
}

/// What the filter reports of a register after a measurement: nothing if
/// the system is synchronized and the sample of smallest delay is not later
/// than `peer_time`, the time of the sample that was used last; else the
/// statistics of the register and the time of that sample.
pub open spec fn filter_report(
    register: Seq<FilterTuple>,
    peer_time: NtpTimestamp,
    system_leap_indicator: NtpLeapIndicator,
    system_precision: int,
) -> Option<(PeerStatistics, NtpTimestamp)> {
    let list = sorted_by_delay(register);
    let best = list[0];
    if wrapped_difference(best.time@, peer_time@) <= 0 && system_leap_indicator.is_synchronized() {
        None
    } else {
        Some(
            (
                PeerStatistics {
                    offset: best.offset,
                    delay: best.delay,
                    dispersion: NtpDuration {
                        duration: dispersion_through(list, 8) as i64,
                    },
                    jitter: NtpDuration {
                        duration: jitter_units(
                            list.subrange(0, valid_len(list) as int),
                            best.offset@,
                            system_precision,
                        ) as i64,
                    },
                },
                best.time,
            ),
        )
    }
}

impl LastMeasurements {
    /// Takes a new measurement into the register and reports on it.
    ///
    /// The tuples that were there age by the drift that may have gathered
    /// between `peer_time` and the time of the new tuple, see [`shifted`].
    /// The report is drawn from the register as it then stands, see
    /// [`filter_report`].
    pub fn step(
        &mut self,
        new_tuple: FilterTuple,
        peer_time: NtpTimestamp,
        system_leap_indicator: NtpLeapIndicator,
        system_precision: NtpDuration,
    ) -> (r: Option<(PeerStatistics, NtpTimestamp)>)
        ensures
            final(self)@ == shifted(
                old(self)@,
                new_tuple,
                phi_units(wrapped_difference(new_tuple.time@, peer_time@)),
            ),
            r == filter_report(
                final(self)@,
                peer_time,
                system_leap_indicator,
                system_precision@,
            ),
            r matches Some((statistics, _)) ==> statistics.jitter@ >= system_precision@,
            r matches Some((statistics, _)) ==> forall|i: int|
                0 <= i < 8 ==> statistics.delay@ <= (#[trigger] final(self)@[i]).delay@,
    {
        let dispersion_correction = multiply_by_phi(new_tuple.time - peer_time);
        self.shift_and_insert(new_tuple, dispersion_correction);
        proof {
            lemma_best_has_smallest_delay(self@);
        }

        let temporary_list = TemporaryList::from_clock_filter_contents(self);
        let smallest_delay = *temporary_list.smallest_delay();

        if !(smallest_delay.time - peer_time).is_positive()
            && system_leap_indicator.is_synchronized() {
            return None;
        }
        let offset = smallest_delay.offset;
        let delay = smallest_delay.delay;

        let dispersion = temporary_list.dispersion();
        let jitter = temporary_list.jitter(smallest_delay, system_precision);

        let statistics = PeerStatistics { offset, delay, dispersion, jitter };

        Some((statistics, smallest_delay.time))
    }
}

/// The register after the first measurement: the new tuple, then dummies.
/// If the delay of the new tuple is no larger than that of a dummy, the
/// filter's order leaves the register as it is and only the new tuple can be
/// valid.
pub proof fn lemma_first_measurement(new_tuple: FilterTuple, correction: int)
    requires
        new_tuple.delay@ <= MAX_DISPERSION_UNITS,
    ensures
        shifted(empty_register(), new_tuple, correction) == empty_register().update(0, new_tuple),
        sorted_by_delay(shifted(empty_register(), new_tuple, correction)) == shifted(
            empty_register(),
            new_tuple,
            correction,
        ),
        valid_len(shifted(empty_register(), new_tuple, correction)) <= 1,
{
    let register = shifted(empty_register(), new_tuple, correction);
    assert(register =~= empty_register().update(0, new_tuple));
    let key = delay_key();
    assert forall|i: int, j: int| 0 <= i <= j < register.len() implies key(#[trigger] register[i])
        <= key(#[trigger] register[j]) by {}
    lemma_ordered_is_fixed(register, key);
    reveal_with_fuel(valid_len, 9);
    assert(register.drop_last().len() == 7);
    assert(register.drop_last().drop_last().len() == 6);
    assert(register.drop_last().drop_last().drop_last().len() == 5);
    assert(register.drop_last().drop_last().drop_last().drop_last().len() == 4);
    assert(register.drop_last().drop_last().drop_last().drop_last().drop_last().len() == 3);
    assert(register.drop_last().drop_last().drop_last().drop_last().drop_last().drop_last().len()
        == 2);
    assert(register.drop_last().drop_last().drop_last().drop_last().drop_last().drop_last()
        .drop_last().len() == 1);
}

/// While the system is synchronized, the filter reports nothing on a first
/// measurement that is dated at `peer_time` itself: a sample is used only if
/// it is newer than the one used last.
///
/// This holds of a tuple whose delay is no larger than that of a dummy. One
/// with a larger delay stands behind the dummies, and the report is then
/// drawn from a dummy.
pub proof fn lemma_first_measurement_at_peer_time_is_not_reported(
    new_tuple: FilterTuple,
    peer_time: NtpTimestamp,
    system_leap_indicator: NtpLeapIndicator,
    system_precision: int,
)
    requires
        new_tuple.time == peer_time,
        system_leap_indicator.is_synchronized(),
        new_tuple.delay@ <= MAX_DISPERSION_UNITS,
    ensures
        filter_report(
            shifted(
                empty_register(),
                new_tuple,
                phi_units(wrapped_difference(new_tuple.time@, peer_time@)),
            ),
            peer_time,
            system_leap_indicator,
            system_precision,
        ) is None,
{
    lemma_first_measurement(new_tuple, phi_units(wrapped_difference(new_tuple.time@, peer_time@)));
}

/// The filter reports a first measurement that is later than `peer_time`, or
/// any first measurement while the system is not synchronized: the report
/// carries the offset, the delay and the time of the new tuple, and, since
/// one sample has no spread, a jitter that is zero or, if that is larger,
/// the precision.
///
/// "Later" is meant on the circle of timestamps, see
/// [`NtpTimestamp::is_after`]. The delay of the tuple must be no larger than
/// that of a dummy, as in
/// [`lemma_first_measurement_at_peer_time_is_not_reported`].
pub proof fn lemma_first_measurement_later_is_reported(
    new_tuple: FilterTuple,
    peer_time: NtpTimestamp,
    system_leap_indicator: NtpLeapIndicator,
    system_precision: int,
)
    requires
        new_tuple.time.is_after(peer_time) || !system_leap_indicator.is_synchronized(),
        new_tuple.delay@ <= MAX_DISPERSION_UNITS,
        i64::MIN <= system_precision <= i64::MAX,
    ensures
        filter_report(
            shifted(
                empty_register(),
                new_tuple,
                phi_units(wrapped_difference(new_tuple.time@, peer_time@)),
            ),
            peer_time,
            system_leap_indicator,
            system_precision,
        ) matches Some((statistics, time)) && time == new_tuple.time && statistics.offset
            == new_tuple.offset && statistics.delay == new_tuple.delay && statistics.jitter@ == (
        if system_precision > 0 {
            system_precision
        } else {
            0
        }),
{
    let correction = phi_units(wrapped_difference(new_tuple.time@, peer_time@));
    lemma_first_measurement(new_tuple, correction);
    let list = shifted(empty_register(), new_tuple, correction);
    let valid = list.subrange(0, valid_len(list) as int);
    if valid.len() == 1 {
        assert(valid.last() == new_tuple);
        assert(valid.drop_last().len() == 0);
        assert(squared_distances(valid.drop_last(), new_tuple.offset@) == 0);
        let distance = saturate(valid.last().offset@ - new_tuple.offset@);
        assert(distance == 0);
        assert(distance * distance == 0);
        assert(squared_distances(valid, new_tuple.offset@) == 0);
    } else {
        assert(squared_distances(valid, new_tuple.offset@) == 0);
    }
}

/// The tuple from which the filter draws offset and delay is one of the
/// register, and none of the register has a smaller delay.
pub proof fn lemma_best_has_smallest_delay(register: Seq<FilterTuple>)
    requires
        register.len() > 0,
    ensures
        register.contains(sorted_by_delay(register)[0]),
        forall|i: int|
            0 <= i < register.len() ==> sorted_by_delay(register)[0].delay@ <= (
            #[trigger] register[i]).delay@,
{
    let key = delay_key();
    let list = sorted_by_delay(register);
    lemma_stable_sorted_len(register, key);
    lemma_stable_sorted_ordered(register, key);
    lemma_stable_sorted_members(register, key);
    assert(list.contains(list[0]));
    assert forall|i: int| 0 <= i < register.len() implies list[0].delay@ <= (
    #[trigger] register[i]).delay@ by {
        assert(register.contains(register[i]));
        assert(list.contains(register[i]));
        let place = choose|place: int| 0 <= place < list.len() && list[place] == register[i];
        assert(key(list[0]) <= key(list[place]));
    }
}

/// The dispersion of a list of dummies is 16 seconds less 1/16 second.
pub proof fn lemma_dispersion_of_dummies()
    ensures
        dispersion_through(empty_register(), 8) == MAX_DISPERSION_UNITS - 0x1000_0000,
        MAX_DISPERSION_UNITS - dispersion_through(empty_register(), 8) < UNITS_PER_SECOND / 10,
{
    lemma2_to64();
    reveal_with_fuel(dispersion_through, 9);
}

/// The jitter is never below the precision that it was asked with.
pub proof fn lemma_jitter_floor(tuples: Seq<FilterTuple>, reference: int, precision: int)
    ensures
        jitter_units(tuples, reference, precision) >= precision,
{
}

} // verus!
