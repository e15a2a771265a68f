use std::collections::HashMap;
use vstd::prelude::*;

use crate::external_adapter::{fuse_external_prices, fused_price};
use crate::median::{lemma_weighted_median_within_range, weighted_median, weighted_median_of};
use crate::reputation::{
    adjust_oracle_weight, adjusted, after_submission, counts_ok, default_reputation,
    default_reputation_spec, deviation, deviation_bps, removal_due, should_remove_oracle,
    slash_oracle, slashed, tier_weight, track_oracle_accuracy, MAJOR_DEVIATION_PENALTY,
    MAJOR_DEVIATION_THRESHOLD_BPS,
};
use crate::types::{
    AccountId, ConsensusPriceData, ExternalPrice, OracleError, OracleEvent, OracleReputation,
    PriceSubmission, SlashReason,
};

verus! {

broadcast use vstd::std_specs::hash::group_hash_axioms;

/// Automatic removal never leaves fewer oracles than this.
pub const MIN_ACTIVE_ORACLES: usize = 2;

/// The abstract state of the engine.
pub ghost struct OracleState {
    pub admin: Option<AccountId>,
    /// Registered oracles, in order of registration.
    pub oracles: Seq<AccountId>,
    /// Reputation records; kept for oracles that were removed.
    pub stats: Map<AccountId, OracleReputation>,
    /// The current round's submissions, in order of arrival.
    pub submissions: Seq<PriceSubmission>,
    pub consensus: Option<ConsensusPriceData>,
    pub events: Seq<OracleEvent>,
}

/// The oracle registry, the round buffer and the last accepted price.
pub struct OracleContract {
    admin: Option<AccountId>,
    oracles: Vec<AccountId>,
    stats: HashMap<AccountId, OracleReputation>,
    submissions: Vec<PriceSubmission>,
    consensus: Option<ConsensusPriceData>,
    events: Vec<OracleEvent>,
}

impl View for OracleContract {
    type V = OracleState;

    closed spec fn view(&self) -> OracleState {
        OracleState {
            admin: self.admin,
            oracles: self.oracles@,
            stats: self.stats@,
            submissions: self.submissions@,
            consensus: self.consensus,
            events: self.events@,
        }
    }
}

/// The record of `o`, or the fresh-oracle default when it has none.
pub open spec fn stats_of(stats: Map<AccountId, OracleReputation>, o: AccountId) -> OracleReputation {
    if stats.contains_key(o) {
        stats[o]
    } else {
        default_reputation_spec()
    }
}

/// The state invariant: no oracle registered twice, every record consistent,
/// every buffered price positive.
pub open spec fn state_wf(st: OracleState) -> bool {
    &&& st.oracles.no_duplicates()
    &&& forall|k: AccountId| #[trigger] st.stats.contains_key(k) ==> counts_ok(st.stats[k])
    &&& forall|i: int| 0 <= i < st.submissions.len() ==> #[trigger] st.submissions[i].price > 0
}

/// Every registered oracle's weight is the tier of its score.
pub open spec fn weights_in_sync(st: OracleState) -> bool {
    forall|o: AccountId| #[trigger] st.oracles.contains(o) ==> {
        &&& st.stats.contains_key(o)
        &&& st.stats[o].weight == tier_weight(st.stats[o].reputation_score)
    }
}

/// The prices of a round, in order of arrival.
pub open spec fn submitted_prices(subs: Seq<PriceSubmission>) -> Seq<i128> {
    Seq::new(subs.len(), |i: int| subs[i].price)
}

/// The weight of each submitter as it stands before the round is settled.
pub open spec fn submitter_weights(
    stats: Map<AccountId, OracleReputation>,
    subs: Seq<PriceSubmission>,
) -> Seq<u32> {
    Seq::new(subs.len(), |i: int| stats_of(stats, subs[i].oracle).weight)
}

/// The consensus price of a round.
pub open spec fn round_consensus(st: OracleState) -> int {
    weighted_median_of(submitted_prices(st.submissions), submitter_weights(st.stats, st.submissions))
}

/// One submission's effect on the records: accuracy tracked, and a slash when it
/// deviates from consensus by more than 20%.
pub open spec fn apply_submission(
    stats: Map<AccountId, OracleReputation>,
    s: PriceSubmission,
    consensus: i128,
    now: u64,
) -> Map<AccountId, OracleReputation> {
    let t = after_submission(stats_of(stats, s.oracle), s.price, consensus);
    stats.insert(
        s.oracle,
        if deviation_bps(s.price, consensus) > MAJOR_DEVIATION_THRESHOLD_BPS {
            slashed(t, SlashReason::MajorDeviation, now)
        } else {
            t
        },
    )
}

/// All submissions' effects, in order of arrival.
pub open spec fn apply_submissions(
    stats: Map<AccountId, OracleReputation>,
    subs: Seq<PriceSubmission>,
    consensus: i128,
    now: u64,
) -> Map<AccountId, OracleReputation>
    decreases subs.len(),
{
    if subs.len() == 0 {
        stats
    } else {
        apply_submission(
            apply_submissions(stats, subs.drop_last(), consensus, now),
            subs.last(),
            consensus,
            now,
        )
    }
}

/// Score and weight recomputed for each of `oracles`.
pub open spec fn adjust_all(
    stats: Map<AccountId, OracleReputation>,
    oracles: Seq<AccountId>,
    now: u64,
) -> Map<AccountId, OracleReputation>
    decreases oracles.len(),
{
    if oracles.len() == 0 {
        stats
    } else {
        let s = adjust_all(stats, oracles.drop_last(), now);
        s.insert(oracles.last(), adjusted(stats_of(s, oracles.last()), now))
    }
}

/// An oracle that the removal criteria spare.
pub open spec fn retained(stats: Map<AccountId, OracleReputation>, now: u64) -> spec_fn(
    AccountId,
) -> bool {
    |o: AccountId| !removal_due(stats_of(stats, o), now)
}

/// Registered oracles after quorum-preserving removal: the candidates go only if
/// at least two oracles remain; otherwise nobody goes.
pub open spec fn survivors(
    stats: Map<AccountId, OracleReputation>,
    oracles: Seq<AccountId>,
    now: u64,
) -> Seq<AccountId> {
    let kept = oracles.filter(retained(stats, now));
    if kept.len() >= MIN_ACTIVE_ORACLES {
        kept
    } else {
        oracles
    }
}

/// Any oracle but `o`.
pub open spec fn other_than(o: AccountId) -> spec_fn(AccountId) -> bool {
    |x: AccountId| x != o
}

/// The current weight of each observation's oracle.
pub open spec fn observer_weights(
    stats: Map<AccountId, OracleReputation>,
    prices: Seq<ExternalPrice>,
) -> Seq<u32> {
    Seq::new(prices.len(), |i: int| stats_of(stats, prices[i].oracle).weight)
}

/// A signature-failure slash for every observation whose signature does not hold,
/// in order.
pub open spec fn apply_signature_slashes(
    stats: Map<AccountId, OracleReputation>,
    prices: Seq<ExternalPrice>,
    now: u64,
) -> Map<AccountId, OracleReputation>
    decreases prices.len(),
{
    if prices.len() == 0 {
        stats
    } else {
        let s = apply_signature_slashes(stats, prices.drop_last(), now);
        let p = prices.last();
        if p.signature_valid {
            s
        } else {
            s.insert(p.oracle, slashed(stats_of(s, p.oracle), SlashReason::SignatureFailure, now))
        }
    }
}

/// The records listed, a later entry for the same oracle replacing an earlier one.
pub open spec fn records_map(records: Seq<(AccountId, OracleReputation)>) -> Map<AccountId, OracleReputation>
    decreases records.len(),
{
    if records.len() == 0 {
        Map::empty()
    } else {
        records_map(records.drop_last()).insert(records.last().0, records.last().1)
    }
}

/// Automatic removal leaves at least two oracles, or removes nobody.
pub proof fn lemma_quorum_floor(
    stats: Map<AccountId, OracleReputation>,
    oracles: Seq<AccountId>,
    now: u64,
)
    ensures
        survivors(stats, oracles, now).len() >= MIN_ACTIVE_ORACLES || survivors(stats, oracles, now)
            == oracles,
{
}

/// Recomputing a record always leaves its weight the tier of its score.
pub proof fn lemma_adjusted_weight_in_sync(r: OracleReputation, now: u64)
    ensures
        adjusted(r, now).weight == tier_weight(adjusted(r, now).reputation_score),
{
}

/// The slash notifications of a round, in order of arrival.
pub open spec fn slash_events(subs: Seq<PriceSubmission>, consensus: i128) -> Seq<OracleEvent>
    decreases subs.len(),
{
    if subs.len() == 0 {
        Seq::empty()
    } else {
        let rest = slash_events(subs.drop_last(), consensus);
        let s = subs.last();
        if deviation_bps(s.price, consensus) > MAJOR_DEVIATION_THRESHOLD_BPS {
            rest.push(
                OracleEvent::OracleSlashed {
                    oracle: s.oracle,
                    reason: SlashReason::MajorDeviation,
                    penalty: MAJOR_DEVIATION_PENALTY,
                },
            )
        } else {
            rest
        }
    }
}

/// A notification for every registered oracle whose weight changes, in order of
/// registration.
pub open spec fn weight_events(
    stats: Map<AccountId, OracleReputation>,
    oracles: Seq<AccountId>,
    now: u64,
) -> Seq<OracleEvent>
    decreases oracles.len(),
{
    if oracles.len() == 0 {
        Seq::empty()
    } else {
        let rest = weight_events(stats, oracles.drop_last(), now);
        let o = oracles.last();
        let before = stats_of(stats, o);
        let after = adjusted(before, now);
        if after.weight != before.weight {
            rest.push(
                OracleEvent::WeightAdjusted {
                    oracle: o,
                    old_weight: before.weight,
                    new_weight: after.weight,
                    reputation: after.reputation_score,
                },
            )
        } else {
            rest
        }
    }
}

/// An oracle that meets the removal criteria.
pub open spec fn removal_candidate(stats: Map<AccountId, OracleReputation>, now: u64) -> spec_fn(
    AccountId,
) -> bool {
    |o: AccountId| removal_due(stats_of(stats, o), now)
}

/// A removal notification for every candidate, when the candidates go.
pub open spec fn removal_events(
    stats: Map<AccountId, OracleReputation>,
    oracles: Seq<AccountId>,
    now: u64,
) -> Seq<OracleEvent> {
    let gone = oracles.filter(removal_candidate(stats, now));
    if oracles.filter(retained(stats, now)).len() >= MIN_ACTIVE_ORACLES {
        Seq::new(gone.len(), |k: int| OracleEvent::OracleRemoved { oracle: gone[k] })
    } else {
        Seq::empty()
    }
}

/// A count as a `u32`, capped at `u32::MAX`.
pub open spec fn saturating_u32(n: nat) -> u32 {
    if n > u32::MAX { u32::MAX } else { n as u32 }
}

/// Adjusting a list of oracles leaves the record of any other oracle as it was.
proof fn lemma_adjust_all_other(
    stats: Map<AccountId, OracleReputation>,
    oracles: Seq<AccountId>,
    now: u64,
    o: AccountId,
)
    requires
        !oracles.contains(o),
    ensures
        stats_of(adjust_all(stats, oracles, now), o) == stats_of(stats, o),
    decreases oracles.len(),
{
    if oracles.len() > 0 {
        assert(!oracles.drop_last().contains(o)) by {
            if oracles.drop_last().contains(o) {
                let j = choose|j: int| 0 <= j < oracles.len() - 1 && #[trigger] oracles.drop_last()[j] == o;
                assert(oracles[j] == o);
            }
        }
        assert(oracles[oracles.len() - 1] != o);
        lemma_adjust_all_other(stats, oracles.drop_last(), now, o);
    }
}

impl OracleContract {
    /// The state invariant.
    pub open spec fn wf(&self) -> bool {
        state_wf(self@)
    }

    /// An engine with no administrator, no oracles and no price.
    pub fn new() -> (c: Self)
        ensures
            c.wf(),
            c@.admin is None,
            c@.oracles.len() == 0,
            c@.stats == Map::<AccountId, OracleReputation>::empty(),
            c@.submissions.len() == 0,
            c@.consensus is None,
            c@.events.len() == 0,
    {
        OracleContract {
            admin: None,
            oracles: Vec::new(),
            stats: HashMap::new(),
            submissions: Vec::new(),
            consensus: None,
            events: Vec::new(),
        }
    }

    /// Sets the administrator once; a second call fails with `AlreadyInitialized`.
    pub fn initialize(&mut self, admin: AccountId) -> (r: Result<(), OracleError>)
        requires
            old(self).wf(),
        ensures
            old(self)@.admin is Some ==> r == Err::<(), OracleError>(OracleError::AlreadyInitialized)
                && final(self)@ == old(self)@,
            old(self)@.admin is None ==> r is Ok && final(self)@ == (OracleState {
                admin: Some(admin),
                ..old(self)@
            }),
            final(self).wf(),
    {
        if self.admin.is_some() {
            return Err(OracleError::AlreadyInitialized);
        }
        self.admin = Some(admin);
        assert(self@ == (OracleState { admin: Some(admin), ..old(self)@ }));
        Ok(())
    }

    fn require_admin(&self, caller: AccountId) -> (r: Result<(), OracleError>)
        ensures
            r is Ok <==> self@.admin == Some(caller),
            r is Err ==> r == Err::<(), OracleError>(OracleError::Unauthorized),
    {
        match self.admin {
            Some(a) => {
                if a == caller {
                    Ok(())
                } else {
                    Err(OracleError::Unauthorized)
                }
            },
            None => Err(OracleError::Unauthorized),
        }
    }

    fn is_registered(&self, oracle: AccountId) -> (r: bool)
        ensures
            r == self@.oracles.contains(oracle),
    {
        let mut i: usize = 0;
        while i < self.oracles.len()
            invariant
                0 <= i <= self.oracles.len(),
                forall|j: int| 0 <= j < i ==> self.oracles[j] != oracle,
            decreases self.oracles.len() - i,
        {
            if self.oracles[i] == oracle {
                assert(self@.oracles[i as int] == oracle);
                return true;
            }
            i = i + 1;
        }
        false
    }

    fn stats_for(&self, oracle: AccountId) -> (r: OracleReputation)
        ensures
            r == stats_of(self@.stats, oracle),
    {
        match self.stats.get(&oracle) {
            Some(r) => *r,
            None => default_reputation(),
        }
    }

    /// Registers `oracle` with the fresh-oracle record (score 50, weight 1, no
    /// history). Only the administrator may do so.
    pub fn register_oracle(&mut self, admin: AccountId, oracle: AccountId) -> (r: Result<(), OracleError>)
        requires
            old(self).wf(),
        ensures
            final(self).wf(),
            old(self)@.admin != Some(admin) ==> r == Err::<(), OracleError>(OracleError::Unauthorized)
                && final(self)@ == old(self)@,
            old(self)@.admin == Some(admin) && old(self)@.oracles.contains(oracle) ==> r == Err::<
                (),
                OracleError,
            >(OracleError::OracleAlreadyExists) && final(self)@ == old(self)@,
            old(self)@.admin == Some(admin) && !old(self)@.oracles.contains(oracle) ==> r is Ok
                && final(self)@ == (OracleState {
                oracles: old(self)@.oracles.push(oracle),
                stats: old(self)@.stats.insert(oracle, default_reputation_spec()),
                ..old(self)@
            }),
    {
        self.require_admin(admin)?;
        if self.is_registered(oracle) {
            return Err(OracleError::OracleAlreadyExists);
        }
        self.oracles.push(oracle);
        self.stats.insert(oracle, default_reputation());
        proof {
            assert(self@.oracles.no_duplicates()) by {
                assert forall|i: int, j: int|
                    0 <= i < self@.oracles.len() && 0 <= j < self@.oracles.len() && i != j implies
                    self@.oracles[i] != self@.oracles[j] by {
                    if i == self@.oracles.len() - 1 {
                        assert(old(self)@.oracles.contains(self@.oracles[j]) || j == i);
                    } else if j == self@.oracles.len() - 1 {
                        assert(old(self)@.oracles.contains(self@.oracles[i]));
                    }
                }
            }
            assert(self@ == (OracleState {
                oracles: old(self)@.oracles.push(oracle),
                stats: old(self)@.stats.insert(oracle, default_reputation_spec()),
                ..old(self)@
            }));
        }
        Ok(())
    }

    /// Buffers one price for the current round. Fails with `InvalidPrice` on a
    /// price that is not positive, `OracleNotFound` for an unregistered oracle and
    /// `LowReputation` for an oracle of weight 0, in that order of checking.
    pub fn submit_price(&mut self, oracle: AccountId, price: i128, now: u64) -> (r: Result<(), OracleError>)
        requires
            old(self).wf(),
        ensures
            final(self).wf(),
            price <= 0 ==> r == Err::<(), OracleError>(OracleError::InvalidPrice) && final(self)@
                == old(self)@,
            price > 0 && !old(self)@.oracles.contains(oracle) ==> r == Err::<(), OracleError>(
                OracleError::OracleNotFound,
            ) && final(self)@ == old(self)@,
            price > 0 && old(self)@.oracles.contains(oracle) && stats_of(old(self)@.stats, oracle).weight
                == 0 ==> r == Err::<(), OracleError>(OracleError::LowReputation) && final(self)@
                == old(self)@,
            price > 0 && old(self)@.oracles.contains(oracle) && stats_of(old(self)@.stats, oracle).weight
                != 0 ==> r is Ok && final(self)@ == (OracleState {
                submissions: old(self)@.submissions.push(
                    PriceSubmission { oracle, price, timestamp: now },
                ),
                events: old(self)@.events.push(OracleEvent::PriceSubmitted { oracle, price }),
                ..old(self)@
            }),
    {
        if price <= 0 {
            return Err(OracleError::InvalidPrice);
        }
        if !self.is_registered(oracle) {
            return Err(OracleError::OracleNotFound);
        }
        let stats = self.stats_for(oracle);
        if stats.weight == 0 {
            return Err(OracleError::LowReputation);
        }
        self.submissions.push(PriceSubmission { oracle, price, timestamp: now });
        self.events.push(OracleEvent::PriceSubmitted { oracle, price });
        assert(self@ == (OracleState {
            submissions: old(self)@.submissions.push(PriceSubmission { oracle, price, timestamp: now }),
            events: old(self)@.events.push(OracleEvent::PriceSubmitted { oracle, price }),
            ..old(self)@
        }));
        Ok(())
    }

    /// Settles the current round. Fails with `InsufficientOracles`, changing
    /// nothing, when no price was submitted. Otherwise: the consensus is the weighted
    /// median of the round's prices; every submission is folded into its oracle's
    /// record and slashed when more than 20% off; every registered oracle's score and
    /// weight are recomputed; the removal candidates are removed if at least two
    /// oracles remain, else none is; the consensus is stored and the buffer cleared.
    pub fn calculate_consensus(&mut self, now: u64) -> (r: Result<i128, OracleError>)
        requires
            old(self).wf(),
        ensures
            final(self).wf(),
            old(self)@.submissions.len() == 0 ==> r == Err::<i128, OracleError>(
                OracleError::InsufficientOracles,
            ) && final(self)@ == old(self)@,
            old(self)@.submissions.len() > 0 ==> {
                let c = round_consensus(old(self)@);
                let settled = apply_submissions(old(self)@.stats, old(self)@.submissions, c as i128, now);
                &&& r == Ok::<i128, OracleError>(c as i128)
                &&& final(self)@.stats == adjust_all(settled, old(self)@.oracles, now)
                &&& final(self)@.oracles == survivors(settled, old(self)@.oracles, now)
                &&& final(self)@.submissions.len() == 0
                &&& final(self)@.consensus == Some(
                    (ConsensusPriceData {
                        price: c as i128,
                        timestamp: now,
                        num_oracles: saturating_u32(old(self)@.submissions.len()),
                    }),
                )
                &&& final(self)@.admin == old(self)@.admin
                &&& final(self)@.events == old(self)@.events + slash_events(
                    old(self)@.submissions,
                    c as i128,
                ) + weight_events(settled, old(self)@.oracles, now) + removal_events(
                    settled,
                    old(self)@.oracles,
                    now,
                ) + seq![
                    OracleEvent::ConsensusReached {
                        price: c as i128,
                        num_oracles: saturating_u32(old(self)@.submissions.len()),
                    },
                ]
                // the consensus lies between the lowest and the highest submitted price
                &&& exists|i: int| 0 <= i < old(self)@.submissions.len()
                    && #[trigger] old(self)@.submissions[i].price <= c
                &&& exists|j: int| 0 <= j < old(self)@.submissions.len()
                    && c <= #[trigger] old(self)@.submissions[j].price
                // every registered oracle's weight is the tier of its score
                &&& weights_in_sync(final(self)@)
                // automatic removal never leaves fewer than two oracles
                &&& final(self)@.oracles.len() >= MIN_ACTIVE_ORACLES || final(self)@.oracles
                    == old(self)@.oracles
            },
    {
        if self.submissions.len() == 0 {
            return Err(OracleError::InsufficientOracles);
        }
        let ghost st0 = self@;

        // prices and current weights of the round
        let mut prices: Vec<i128> = Vec::new();
        let mut weights: Vec<u32> = Vec::new();
        let mut i: usize = 0;
        while i < self.submissions.len()
            invariant
                0 <= i <= self.submissions.len(),
                self@ == st0,
                prices@ == submitted_prices(st0.submissions).take(i as int),
                weights@ == submitter_weights(st0.stats, st0.submissions).take(i as int),
            decreases self.submissions.len() - i,
        {
            let s = self.submissions[i];
            prices.push(s.price);
            let rec = self.stats_for(s.oracle);
            weights.push(rec.weight);
            i = i + 1;
            assert(prices@ =~= submitted_prices(st0.submissions).take(i as int));
            assert(weights@ =~= submitter_weights(st0.stats, st0.submissions).take(i as int));
        }
        assert(prices@ =~= submitted_prices(st0.submissions));
        assert(weights@ =~= submitter_weights(st0.stats, st0.submissions));
        let consensus = weighted_median(&prices, &weights);
        proof {
            lemma_weighted_median_within_range(prices@, weights@);
            let k = choose|k: int| 0 <= k < prices@.len() && prices@[k] <= weighted_median_of(prices@, weights@);
            assert(st0.submissions[k].price <= consensus);
            let m = choose|m: int| 0 <= m < prices@.len() && weighted_median_of(prices@, weights@) <= prices@[m];
            assert(consensus <= st0.submissions[m].price);
        }

        // accuracy tracking and slashing, in order of arrival
        let mut i: usize = 0;
        while i < self.submissions.len()
            invariant
                0 <= i <= self.submissions.len(),
                consensus > 0,
                self@.submissions == st0.submissions,
                self@.oracles == st0.oracles,
                self@.admin == st0.admin,
                state_wf(st0),
                self@.stats == apply_submissions(st0.stats, st0.submissions.take(i as int), consensus, now),
                forall|k: AccountId| #[trigger] self@.stats.contains_key(k) ==> counts_ok(self@.stats[k]),
                self@.events == st0.events + slash_events(st0.submissions.take(i as int), consensus),
            decreases self.submissions.len() - i,
        {
            let s = self.submissions[i];
            assert(s.price > 0);
            let mut rec = self.stats_for(s.oracle);
            track_oracle_accuracy(&mut rec, s.price, consensus);
            let dev = deviation(s.price, consensus);
            if dev > MAJOR_DEVIATION_THRESHOLD_BPS {
                slash_oracle(&mut rec, SlashReason::MajorDeviation, now);
                self.events.push(
                    OracleEvent::OracleSlashed {
                        oracle: s.oracle,
                        reason: SlashReason::MajorDeviation,
                        penalty: MAJOR_DEVIATION_PENALTY,
                    },
                );
            }
            self.stats.insert(s.oracle, rec);
            proof {
                assert(st0.submissions.take(i + 1).drop_last() =~= st0.submissions.take(i as int));
                assert(st0.submissions.take(i + 1).last() == s);
                assert(self@.events =~= st0.events + slash_events(st0.submissions.take(i + 1), consensus));
            }
            i = i + 1;
        }
        assert(st0.submissions.take(st0.submissions.len() as int) =~= st0.submissions);
        let ghost settled = self@.stats;
        let ghost after_slashes = self@.events;

        // weights of every registered oracle, and the removal candidates
        let mut kept: Vec<AccountId> = Vec::new();
        let mut removed: Vec<AccountId> = Vec::new();
        let mut i: usize = 0;
        while i < self.oracles.len()
            invariant
                0 <= i <= self.oracles.len(),
                self@.oracles == st0.oracles,
                self@.submissions == st0.submissions,
                self@.admin == st0.admin,
                st0.oracles.no_duplicates(),
                self@.stats == adjust_all(settled, st0.oracles.take(i as int), now),
                forall|k: AccountId| #[trigger] self@.stats.contains_key(k) ==> counts_ok(self@.stats[k]),
                forall|j: int| 0 <= j < i ==> {
                    &&& self@.stats.contains_key(#[trigger] st0.oracles[j])
                    &&& self@.stats[st0.oracles[j]].weight == tier_weight(self@.stats[st0.oracles[j]].reputation_score)
                },
                kept@ == st0.oracles.take(i as int).filter(retained(settled, now)),
                removed@ == st0.oracles.take(i as int).filter(removal_candidate(settled, now)),
                kept@.no_duplicates(),
                forall|x: AccountId| kept@.contains(x) ==> st0.oracles.take(i as int).contains(x),
                self@.events == after_slashes + weight_events(settled, st0.oracles.take(i as int), now),
            decreases self.oracles.len() - i,
        {
            let o = self.oracles[i];
            let ghost old_kept = kept@;
            proof {
                reveal(Seq::filter);
                assert(st0.oracles.take(i + 1).drop_last() =~= st0.oracles.take(i as int));
                assert(!st0.oracles.take(i as int).contains(o)) by {
                    if st0.oracles.take(i as int).contains(o) {
                        let j = choose|j: int| 0 <= j < i && #[trigger] st0.oracles.take(i as int)[j] == o;
                        assert(st0.oracles[j] == st0.oracles[i as int]);
                    }
                }
                assert(!kept@.contains(o));
                lemma_adjust_all_other(settled, st0.oracles.take(i as int), now, o);
            }
            let mut rec = self.stats_for(o);
            let old_weight = rec.weight;
            let new_weight = adjust_oracle_weight(&mut rec, now);
            self.stats.insert(o, rec);
            if new_weight != old_weight {
                self.events.push(
                    OracleEvent::WeightAdjusted {
                        oracle: o,
                        old_weight,
                        new_weight,
                        reputation: rec.reputation_score,
                    },
                );
            }
            if should_remove_oracle(&rec, now) {
                removed.push(o);
            } else {
                kept.push(o);
            }
            i = i + 1;
            proof {
                assert(st0.oracles.take(i as int).last() == o);
                assert(self@.events =~= after_slashes + weight_events(settled, st0.oracles.take(i as int), now));
                assert forall|x: AccountId| kept@.contains(x) implies st0.oracles.take(i as int).contains(x) by {
                    if x != o {
                        assert(old_kept.contains(x));
                        assert(st0.oracles.take(i - 1).contains(x));
                        let j = choose|j: int| 0 <= j < i - 1 && #[trigger] st0.oracles.take(i - 1)[j] == x;
                        assert(st0.oracles.take(i as int)[j] == x);
                    } else {
                        assert(st0.oracles.take(i as int)[i - 1] == x);
                    }
                }
            }
        }
        assert(st0.oracles.take(st0.oracles.len() as int) =~= st0.oracles);
        let ghost adjusted_stats = self@.stats;
        let ghost after_weights = self@.events;
        assert(forall|x: AccountId| kept@.contains(x) ==> st0.oracles.contains(x));

        // quorum-preserving removal: all candidates or none
        if kept.len() >= MIN_ACTIVE_ORACLES {
            let mut j: usize = 0;
            while j < removed.len()
                invariant
                    0 <= j <= removed.len(),
                    self@.stats == adjusted_stats,
                    self@.oracles == st0.oracles,
                    self@.submissions == st0.submissions,
                    self@.admin == st0.admin,
                    self@.events == after_weights + Seq::new(
                        j as nat,
                        |k: int| OracleEvent::OracleRemoved { oracle: removed@[k] },
                    ),
                decreases removed.len() - j,
            {
                self.events.push(OracleEvent::OracleRemoved { oracle: removed[j] });
                j = j + 1;
                assert(self@.events =~= after_weights + Seq::new(
                    j as nat,
                    |k: int| OracleEvent::OracleRemoved { oracle: removed@[k] },
                ));
            }
            assert(self@.events =~= after_weights + removal_events(settled, st0.oracles, now));
            self.oracles = kept;
        }

        proof {
            if kept.len() < MIN_ACTIVE_ORACLES {
                assert(removal_events(settled, st0.oracles, now) =~= Seq::<OracleEvent>::empty());
                assert(self@.events =~= after_weights + removal_events(settled, st0.oracles, now));
            }
        }
        let n = self.submissions.len();
        let num_oracles: u32 = if n > u32::MAX as usize { u32::MAX } else { n as u32 };
        self.consensus = Some(ConsensusPriceData { price: consensus, timestamp: now, num_oracles });
        self.submissions = Vec::new();
        self.events.push(OracleEvent::ConsensusReached { price: consensus, num_oracles });
        proof {
            assert forall|o: AccountId| #[trigger] self@.oracles.contains(o) implies {
                &&& self@.stats.contains_key(o)
                &&& self@.stats[o].weight == tier_weight(self@.stats[o].reputation_score)
            } by {
                assert(st0.oracles.contains(o));
                let j = choose|j: int| 0 <= j < st0.oracles.len() && st0.oracles[j] == o;
                assert(adjusted_stats.contains_key(st0.oracles[j]));
                assert(self@.stats == adjusted_stats);
            }
            assert(self@.oracles.no_duplicates());
            assert(self@.submissions.len() == 0);
        }
        Ok(consensus)
    }

    /// Folds a batch of signed external observations into one weight-proportional
    /// average (see `fuse_external_prices`), weighting each by its oracle's current
    /// weight. On success every observation whose signature failed slashes its
    /// oracle by 30; on an error nothing changes.
    pub fn process_external_prices(&mut self, prices: &Vec<ExternalPrice>, now: u64) -> (r: Result<i128, OracleError>)
        requires
            old(self).wf(),
        ensures
            final(self).wf(),
            r == fused_price(prices@, observer_weights(old(self)@.stats, prices@), now),
            r is Err ==> final(self)@ == old(self)@,
            r is Ok ==> final(self)@ == (OracleState {
                stats: apply_signature_slashes(old(self)@.stats, prices@, now),
                ..old(self)@
            }),
    {
        let ghost st0 = self@;
        let mut weights: Vec<u32> = Vec::new();
        let mut i: usize = 0;
        while i < prices.len()
            invariant
                0 <= i <= prices.len(),
                self@ == st0,
                weights@ == observer_weights(st0.stats, prices@).take(i as int),
            decreases prices.len() - i,
        {
            let rec = self.stats_for(prices[i].oracle);
            weights.push(rec.weight);
            i = i + 1;
            assert(weights@ =~= observer_weights(st0.stats, prices@).take(i as int));
        }
        assert(weights@ =~= observer_weights(st0.stats, prices@));
        let price = fuse_external_prices(prices, &weights, now)?;

        let mut i: usize = 0;
        while i < prices.len()
            invariant
                0 <= i <= prices.len(),
                self@ == (OracleState {
                    stats: apply_signature_slashes(st0.stats, prices@.take(i as int), now),
                    ..st0
                }),
                state_wf(st0),
                forall|k: AccountId| #[trigger] self@.stats.contains_key(k) ==> counts_ok(self@.stats[k]),
            decreases prices.len() - i,
        {
            let p = prices[i];
            proof {
                assert(prices@.take(i + 1).drop_last() =~= prices@.take(i as int));
                assert(prices@.take(i + 1).last() == p);
            }
            if !p.signature_valid {
                let mut rec = self.stats_for(p.oracle);
                slash_oracle(&mut rec, SlashReason::SignatureFailure, now);
                self.stats.insert(p.oracle, rec);
            }
            i = i + 1;
            assert(self@ == (OracleState {
                stats: apply_signature_slashes(st0.stats, prices@.take(i as int), now),
                ..st0
            }));
        }
        assert(prices@.take(prices.len() as int) =~= prices@);
        Ok(price)
    }

    /// The administrator, once set.
    pub fn get_admin(&self) -> (r: Option<AccountId>)
        ensures
            r == self@.admin,
    {
        self.admin
    }

    /// Rebuilds an engine from stored parts, with an empty event log. Refuses
    /// (`None`) parts that break the state invariant: an oracle listed twice, a
    /// record with more accurate than total submissions or a negative average
    /// deviation, or a buffered price that is not positive.
    pub fn restore(
        admin: Option<AccountId>,
        oracles: Vec<AccountId>,
        records: Vec<(AccountId, OracleReputation)>,
        submissions: Vec<PriceSubmission>,
        consensus: Option<ConsensusPriceData>,
    ) -> (r: Option<Self>)
        ensures
            r is Some <==> {
                &&& oracles@.no_duplicates()
                &&& forall|i: int| 0 <= i < records@.len() ==> counts_ok(#[trigger] records@[i].1)
                &&& forall|i: int| 0 <= i < submissions@.len() ==> #[trigger] submissions@[i].price > 0
            },
            r matches Some(c) ==> c.wf() && c@ == (OracleState {
                admin,
                oracles: oracles@,
                stats: records_map(records@),
                submissions: submissions@,
                consensus,
                events: Seq::empty(),
            }),
    {
        let mut i: usize = 0;
        while i < oracles.len()
            invariant
                0 <= i <= oracles.len(),
                forall|a: int, b: int| 0 <= a < b < oracles@.len() && a < i ==> oracles@[a] != oracles@[b],
            decreases oracles.len() - i,
        {
            let mut j: usize = i + 1;
            while j < oracles.len()
                invariant
                    i < j <= oracles.len(),
                    forall|b: int| i < b < j ==> oracles@[i as int] != oracles@[b],
                decreases oracles.len() - j,
            {
                if oracles[i] == oracles[j] {
                    return None;
                }
                j = j + 1;
            }
            i = i + 1;
        }
        let mut k: usize = 0;
        while k < submissions.len()
            invariant
                0 <= k <= submissions.len(),
                forall|t: int| 0 <= t < k ==> #[trigger] submissions@[t].price > 0,
            decreases submissions.len() - k,
        {
            if submissions[k].price <= 0 {
                return None;
            }
            k = k + 1;
        }
        let mut stats: HashMap<AccountId, OracleReputation> = HashMap::new();
        let mut k: usize = 0;
        while k < records.len()
            invariant
                0 <= k <= records.len(),
                stats@ == records_map(records@.take(k as int)),
                forall|t: int| 0 <= t < k ==> counts_ok(#[trigger] records@[t].1),
                forall|key: AccountId| #[trigger] stats@.contains_key(key) ==> counts_ok(stats@[key]),
            decreases records.len() - k,
        {
            let (key, rec) = records[k];
            if rec.accurate_submissions > rec.total_submissions || rec.avg_deviation < 0 {
                return None;
            }
            stats.insert(key, rec);
            proof {
                assert(records@.take(k + 1).drop_last() =~= records@.take(k as int));
            }
            k = k + 1;
        }
        assert(records@.take(records@.len() as int) =~= records@);
        let c = OracleContract { admin, oracles, stats, submissions, consensus, events: Vec::new() };
        assert(c@.events =~= Seq::<OracleEvent>::empty());
        Some(c)
    }

    /// The reputation record of `oracle`; the fresh-oracle default if it has none.
    pub fn get_oracle_reputation(&self, oracle: AccountId) -> (r: OracleReputation)
        ensures
            r == stats_of(self@.stats, oracle),
    {
        self.stats_for(oracle)
    }

    /// The registered oracles, in order of registration.
    pub fn get_oracles(&self) -> (r: Vec<AccountId>)
        ensures
            r@ == self@.oracles,
    {
        let mut r: Vec<AccountId> = Vec::new();
        let mut i: usize = 0;
        while i < self.oracles.len()
            invariant
                0 <= i <= self.oracles.len(),
                r@ == self@.oracles.take(i as int),
            decreases self.oracles.len() - i,
        {
            r.push(self.oracles[i]);
            i = i + 1;
            assert(r@ =~= self@.oracles.take(i as int));
        }
        assert(self@.oracles.take(i as int) =~= self@.oracles);
        r
    }

    /// The price accepted by the last successful round, if any.
    pub fn get_consensus_price(&self) -> (r: Option<ConsensusPriceData>)
        ensures
            r == self@.consensus,
    {
        self.consensus
    }

    /// The submissions buffered for the current round.
    pub fn get_price_submissions(&self) -> (r: Vec<PriceSubmission>)
        ensures
            r@ == self@.submissions,
    {
        let mut r: Vec<PriceSubmission> = Vec::new();
        let mut i: usize = 0;
        while i < self.submissions.len()
            invariant
                0 <= i <= self.submissions.len(),
                r@ == self@.submissions.take(i as int),
            decreases self.submissions.len() - i,
        {
            r.push(self.submissions[i]);
            i = i + 1;
            assert(r@ =~= self@.submissions.take(i as int));
        }
        assert(self@.submissions.take(i as int) =~= self@.submissions);
        r
    }

    /// Hands out the events produced so far and clears the log.
    pub fn take_events(&mut self) -> (r: Vec<OracleEvent>)
        requires
            old(self).wf(),
        ensures
            final(self).wf(),
            r@ == old(self)@.events,
            final(self)@ == (OracleState { events: Seq::empty(), ..old(self)@ }),
    {
        let mut r: Vec<OracleEvent> = Vec::new();
        std::mem::swap(&mut r, &mut self.events);
        assert(self@ == (OracleState { events: Seq::empty(), ..old(self)@ }));
        r
    }

    /// Administrative removal of `oracle`, with no quorum floor.
    pub fn remove_oracle(&mut self, admin: AccountId, oracle: AccountId) -> (r: Result<(), OracleError>)
        requires
            old(self).wf(),
        ensures
            final(self).wf(),
            old(self)@.admin != Some(admin) ==> r == Err::<(), OracleError>(OracleError::Unauthorized)
                && final(self)@ == old(self)@,
            old(self)@.admin == Some(admin) ==> r is Ok && final(self)@ == (OracleState {
                oracles: old(self)@.oracles.filter(other_than(oracle)),
                ..old(self)@
            }),
    {
        self.require_admin(admin)?;
        self.remove_oracle_internal(oracle);
        Ok(())
    }

    fn remove_oracle_internal(&mut self, oracle: AccountId)
        requires
            old(self).wf(),
        ensures
            final(self).wf(),
            final(self)@ == (OracleState {
                oracles: old(self)@.oracles.filter(other_than(oracle)),
                ..old(self)@
            }),
    {
        let ghost all = self@.oracles;
        let mut kept: Vec<AccountId> = Vec::new();
        let mut i: usize = 0;
        while i < self.oracles.len()
            invariant
                0 <= i <= self.oracles.len(),
                self@.oracles == all,
                all.no_duplicates(),
                kept@ == all.take(i as int).filter(other_than(oracle)),
                kept@.no_duplicates(),
                forall|x: AccountId| kept@.contains(x) ==> all.take(i as int).contains(x),
            decreases self.oracles.len() - i,
        {
            let o = self.oracles[i];
            let ghost old_kept = kept@;
            proof {
                reveal(Seq::filter);
                assert(all.take(i + 1).drop_last() =~= all.take(i as int));
                assert(!all.take(i as int).contains(o)) by {
                    if all.take(i as int).contains(o) {
                        let j = choose|j: int| 0 <= j < i && #[trigger] all.take(i as int)[j] == o;
                        assert(all[j] == all[i as int]);
                    }
                }
                assert(!kept@.contains(o));
            }
            if o != oracle {
                kept.push(o);
            }
            i = i + 1;
            proof {
                assert forall|x: AccountId| kept@.contains(x) implies all.take(i as int).contains(x) by {
                    if x != o {
                        assert(old_kept.contains(x));
                        assert(all.take(i - 1).contains(x));
                        let j = choose|j: int| 0 <= j < i - 1 && #[trigger] all.take(i - 1)[j] == x;
                        assert(all.take(i as int)[j] == x);
                    } else {
                        assert(all.take(i as int)[i - 1] == x);
                    }
                }
            }
        }
        assert(all.take(all.len() as int) =~= all);
        self.oracles = kept;
    }
}

} // verus!
