use vstd::prelude::*;

use std::collections::BTreeMap;

verus! {

broadcast use vstd::std_specs::btree::group_btree_axioms;

/// Fixed resource dimensions of one event.
#[derive(Clone, Copy, Debug, PartialEq, Eq, Structural, PartialOrd, Ord, Hash)]
pub enum BudgetDimension {
    ModelCalls,
    ModelTokens,
    ExternalReads,
    ExternalWrites,
    Approvals,
    MoneyMicrounits,
}

/// Position of a dimension in the ledger's capacity table.
pub open spec fn dimension_slot(dimension: BudgetDimension) -> int {
    match dimension {
        BudgetDimension::ModelCalls => 0,
        BudgetDimension::ModelTokens => 1,
        BudgetDimension::ExternalReads => 2,
        BudgetDimension::ExternalWrites => 3,
        BudgetDimension::Approvals => 4,
        BudgetDimension::MoneyMicrounits => 5,
    }
}

fn slot(dimension: BudgetDimension) -> (index: usize)
    ensures
        index == dimension_slot(dimension),
{
    match dimension {
        BudgetDimension::ModelCalls => 0,
        BudgetDimension::ModelTokens => 1,
        BudgetDimension::ExternalReads => 2,
        BudgetDimension::ExternalWrites => 3,
        BudgetDimension::Approvals => 4,
        BudgetDimension::MoneyMicrounits => 5,
    }
}

/// One outstanding maximum reservation.
#[derive(Clone, Copy, Debug, PartialEq, Eq, Structural)]
pub struct Reservation {
    id: u64,
    dimension: BudgetDimension,
    maximum: u64,
}

impl Reservation {
    /// Ledger-assigned identity.
    pub closed spec fn spec_id(&self) -> u64 {
        self.id
    }

    /// Reserved dimension.
    pub closed spec fn spec_dimension(&self) -> BudgetDimension {
        self.dimension
    }

    /// Reserved maximum use.
    pub closed spec fn spec_maximum(&self) -> u64 {
        self.maximum
    }
}

/// Deterministic budget admission or settlement failure.
#[derive(Clone, Copy, Debug, PartialEq, Eq, Structural)]
pub enum BudgetError {
    /// Maximum reservation exceeds remaining capacity.
    Exhausted(BudgetDimension),
    /// Driver reported usage above its declared maximum.
    ActualExceedsReservation,
    /// Reservation is stale, forged, or already settled.
    UnknownReservation,
}

impl BudgetError {
    /// Human-readable description of the failure.
    pub fn message(&self) -> (text: String)
        ensures
            text@ == budget_error_message(*self),
    {
        match self {
            BudgetError::Exhausted(dimension) => {
                let mut text = String::from_str("budget exhausted for ");
                crate::text::push_str(&mut text, dimension_name(*dimension));
                text
            },
            BudgetError::ActualExceedsReservation => String::from_str(
                "actual usage exceeds reservation",
            ),
            BudgetError::UnknownReservation => String::from_str("unknown budget reservation"),
        }
    }
}

/// Name of a dimension as it appears in messages.
pub open spec fn dimension_name_text(dimension: BudgetDimension) -> Seq<char> {
    match dimension {
        BudgetDimension::ModelCalls => "ModelCalls"@,
        BudgetDimension::ModelTokens => "ModelTokens"@,
        BudgetDimension::ExternalReads => "ExternalReads"@,
        BudgetDimension::ExternalWrites => "ExternalWrites"@,
        BudgetDimension::Approvals => "Approvals"@,
        BudgetDimension::MoneyMicrounits => "MoneyMicrounits"@,
    }
}

fn dimension_name(dimension: BudgetDimension) -> (name: &'static str)
    ensures
        name@ == dimension_name_text(dimension),
{
    match dimension {
        BudgetDimension::ModelCalls => "ModelCalls",
        BudgetDimension::ModelTokens => "ModelTokens",
        BudgetDimension::ExternalReads => "ExternalReads",
        BudgetDimension::ExternalWrites => "ExternalWrites",
        BudgetDimension::Approvals => "Approvals",
        BudgetDimension::MoneyMicrounits => "MoneyMicrounits",
    }
}

/// Message of a budget error.
pub open spec fn budget_error_message(error: BudgetError) -> Seq<char> {
    match error {
        BudgetError::Exhausted(dimension) => "budget exhausted for "@ + dimension_name_text(
            dimension,
        ),
        BudgetError::ActualExceedsReservation => "actual usage exceeds reservation"@,
        BudgetError::UnknownReservation => "unknown budget reservation"@,
    }
}

/// Capacity given to `dimension` by a list of limits: the last entry for it,
/// or zero when it is omitted.
pub open spec fn limit_of(limits: Seq<(BudgetDimension, u64)>, dimension: BudgetDimension) -> u64
    decreases limits.len(),
{
    if limits.len() == 0 {
        0
    } else if limits.last().0 == dimension {
        limits.last().1
    } else {
        limit_of(limits.drop_last(), dimension)
    }
}

/// Remaining and reserved resource ledger.
#[derive(Clone, Debug, PartialEq, Eq)]
pub struct Budget {
    remaining: Vec<u64>,
    reservations: BTreeMap<u64, Reservation>,
    next_id: u64,
}

impl Budget {
    /// The capacity table holds every dimension; each outstanding
    /// reservation is filed under its own identity, which lies below the
    /// next identity unless identities are exhausted.
    pub closed spec fn wf(&self) -> bool {
        &&& self.remaining@.len() == 6
        &&& forall|id: u64| #[trigger]
            self.reservations@.contains_key(id) ==> self.reservations@[id].id == id && (id
                < self.next_id || self.next_id == u64::MAX)
    }

    /// Remaining capacity of one dimension.
    pub closed spec fn remaining_of(&self, dimension: BudgetDimension) -> u64 {
        self.remaining@[dimension_slot(dimension)]
    }

    /// Outstanding reservations by identity.
    pub closed spec fn outstanding(&self) -> Map<u64, Reservation> {
        self.reservations@
    }

    /// Identity the next reservation receives.
    pub closed spec fn next_reservation_id(&self) -> u64 {
        self.next_id
    }

    /// Outstanding reservations carry their own identity, and identities
    /// below the next one, unless identities are exhausted.
    pub proof fn lemma_outstanding_identities(&self)
        requires
            self.wf(),
        ensures
            forall|id: u64| #[trigger]
                self.outstanding().contains_key(id) ==> self.outstanding()[id].spec_id() == id && (
                id < self.next_reservation_id() || self.next_reservation_id() == u64::MAX),
    {
    }

    /// Creates a budget; omitted dimensions have zero capacity, and a later
    /// entry for a dimension replaces an earlier one.
    pub fn new(limits: Vec<(BudgetDimension, u64)>) -> (budget: Budget)
        ensures
            budget.wf(),
            forall|d: BudgetDimension| #[trigger] budget.remaining_of(d) == limit_of(limits@, d),
            budget.outstanding() == Map::<u64, Reservation>::empty(),
            budget.next_reservation_id() == 0,
    {
        let mut remaining: Vec<u64> = vec![0, 0, 0, 0, 0, 0];
        let mut k: usize = 0;
        while k < limits.len()
            invariant
                k <= limits@.len(),
                remaining@.len() == 6,
                forall|d: BudgetDimension| #[trigger]
                    remaining@[dimension_slot(d)] == limit_of(limits@.take(k as int), d),
            decreases limits@.len() - k,
        {
            let (dimension, limit) = limits[k];
            let index = slot(dimension);
            remaining.set(index, limit);
            proof {
                let next = limits@.take(k + 1);
                assert(next.drop_last() =~= limits@.take(k as int));
                assert(next.last() == limits@[k as int]);
                assert forall|d: BudgetDimension| #[trigger]
                    remaining@[dimension_slot(d)] == limit_of(next, d) by {
                    if d != dimension {
                        assert(dimension_slot(d) != dimension_slot(dimension));
                    }
                }
            }
            k = k + 1;
        }
        proof {
            assert(limits@.take(limits@.len() as int) =~= limits@);
        }
        Budget { remaining, reservations: BTreeMap::new(), next_id: 0 }
    }

    /// Reserves the maximum resource use before an external effect; on
    /// exhaustion the ledger is left unchanged.
    pub fn reserve(&mut self, dimension: BudgetDimension, maximum: u64) -> (result: Result<
        Reservation,
        BudgetError,
    >)
        requires
            old(self).wf(),
        ensures
            final(self).wf(),
            reserve_outcome(*old(self), dimension, maximum, result, *final(self)),
    {
        let index = slot(dimension);
        let remaining = self.remaining[index];
        if maximum > remaining {
            return Err(BudgetError::Exhausted(dimension));
        }
        let after = remaining - maximum;
        let reservation = Reservation { id: self.next_id, dimension, maximum };
        self.next_id = self.next_id.saturating_add(1);
        self.remaining.set(index, after);
        self.reservations.insert(reservation.id, reservation);
        proof {
            assert forall|d: BudgetDimension| d != dimension implies #[trigger] self.remaining_of(d)
                == old(self).remaining_of(d) by {
                assert(dimension_slot(d) != dimension_slot(dimension));
            }
        }
        Ok(reservation)
    }

    /// Settles actual use and releases the unused part of the reservation.
    ///
    /// Usage above the declared maximum is rejected with the ledger
    /// unchanged. Otherwise the reservation's identity is withdrawn; when the
    /// withdrawn entry was not this exact reservation (stale, forged or
    /// already settled) nothing is released and the settlement is rejected.
    pub fn settle(&mut self, reservation: Reservation, actual: u64) -> (result: Result<
        (),
        BudgetError,
    >)
        requires
            old(self).wf(),
        ensures
            final(self).wf(),
            settle_outcome(*old(self), reservation, actual, result, *final(self)),
    {
        if actual > reservation.maximum {
            return Err(BudgetError::ActualExceedsReservation);
        }
        let removed = self.reservations.remove(&reservation.id);
        let known = match removed {
            Some(stored) => stored == reservation,
            None => false,
        };
        if known {
            let index = slot(reservation.dimension);
            let released = reservation.maximum - actual;
            let current = self.remaining[index];
            self.remaining.set(index, current.saturating_add(released));
        }
        proof {
            assert forall|d: BudgetDimension| d != reservation.spec_dimension() implies #[trigger] self.remaining_of(d)
                == old(self).remaining_of(d) by {
                assert(dimension_slot(d) != dimension_slot(reservation.spec_dimension()));
            }
        }
        if known {
            Ok(())
        } else {
            Err(BudgetError::UnknownReservation)
        }
    }

    /// Returns remaining capacity for one dimension.
    pub fn remaining(&self, dimension: BudgetDimension) -> (capacity: u64)
        requires
            self.wf(),
        ensures
            capacity == self.remaining_of(dimension),
    {
        self.remaining[slot(dimension)]
    }
}


/// What `reserve` does: with enough capacity it files a new reservation
/// under the next identity and takes its maximum from the dimension;
/// otherwise it reports exhaustion and leaves the ledger unchanged.
pub open spec fn reserve_outcome(
    before: Budget,
    dimension: BudgetDimension,
    maximum: u64,
    result: Result<Reservation, BudgetError>,
    after: Budget,
) -> bool {
    if maximum <= before.remaining_of(dimension) {
        &&& result matches Ok(r)
        &&& r.spec_id() == before.next_reservation_id()
        &&& r.spec_dimension() == dimension
        &&& r.spec_maximum() == maximum
        &&& after.remaining_of(dimension) == before.remaining_of(dimension) - maximum
        &&& forall|d: BudgetDimension|
            d != dimension ==> #[trigger] after.remaining_of(d) == before.remaining_of(d)
        &&& after.outstanding() == before.outstanding().insert(r.spec_id(), r)
        &&& after.next_reservation_id() == saturating_sum(before.next_reservation_id() as int, 1)
    } else {
        &&& result == Err::<Reservation, BudgetError>(BudgetError::Exhausted(dimension))
        &&& after == before
    }
}

/// What `settle` does: usage above the maximum is rejected with the ledger
/// unchanged; otherwise the identity is withdrawn, and only the exact
/// outstanding reservation releases its unused part.
pub open spec fn settle_outcome(
    before: Budget,
    reservation: Reservation,
    actual: u64,
    result: Result<(), BudgetError>,
    after: Budget,
) -> bool {
    if actual > reservation.spec_maximum() {
        &&& result == Err::<(), BudgetError>(BudgetError::ActualExceedsReservation)
        &&& after == before
    } else {
        &&& after.outstanding() == before.outstanding().remove(reservation.spec_id())
        &&& after.next_reservation_id() == before.next_reservation_id()
        &&& if before.outstanding().contains_key(reservation.spec_id())
            && before.outstanding()[reservation.spec_id()] == reservation {
            &&& result is Ok
            &&& after.remaining_of(reservation.spec_dimension()) == saturating_sum(
                before.remaining_of(reservation.spec_dimension()) as int,
                reservation.spec_maximum() - actual,
            )
            &&& forall|d: BudgetDimension|
                d != reservation.spec_dimension() ==> #[trigger] after.remaining_of(d)
                    == before.remaining_of(d)
        } else {
            &&& result == Err::<(), BudgetError>(BudgetError::UnknownReservation)
            &&& forall|d: BudgetDimension| #[trigger] after.remaining_of(d) == before.remaining_of(d)
        }
    }
}

/// Reserving and then settling the reservation consumes exactly the actual
/// use from its dimension, touches no other dimension, and leaves no
/// reservation outstanding that was not outstanding before.
pub proof fn lemma_reserve_then_settle_consumes_actual(
    b0: Budget,
    dimension: BudgetDimension,
    maximum: u64,
    reserved: Result<Reservation, BudgetError>,
    b1: Budget,
    actual: u64,
    settled: Result<(), BudgetError>,
    b2: Budget,
)
    requires
        b0.wf(),
        b0.next_reservation_id() < u64::MAX,
        maximum <= b0.remaining_of(dimension),
        actual <= maximum,
        reserve_outcome(b0, dimension, maximum, reserved, b1),
        settle_outcome(b1, reserved->Ok_0, actual, settled, b2),
    ensures
        settled is Ok,
        b2.remaining_of(dimension) == b0.remaining_of(dimension) - actual,
        forall|d: BudgetDimension| d != dimension ==> #[trigger] b2.remaining_of(d) == b0.remaining_of(d),
        b2.outstanding() == b0.outstanding(),
{
    let r = reserved->Ok_0;
    b0.lemma_outstanding_identities();
    assert(!b0.outstanding().contains_key(r.spec_id()));
    assert(b2.outstanding() =~= b0.outstanding());
}

/// A settled reservation cannot be settled again: the second settlement is
/// rejected and releases nothing.
pub proof fn lemma_settle_is_single_use(
    b1: Budget,
    reservation: Reservation,
    actual: u64,
    b2: Budget,
    again: u64,
    result: Result<(), BudgetError>,
    b3: Budget,
)
    requires
        settle_outcome(b1, reservation, actual, Ok(()), b2),
        again <= reservation.spec_maximum(),
        settle_outcome(b2, reservation, again, result, b3),
    ensures
        result == Err::<(), BudgetError>(BudgetError::UnknownReservation),
        forall|d: BudgetDimension| #[trigger] b3.remaining_of(d) == b2.remaining_of(d),
{
}

/// `a + b`, capped at the largest `u64`.
pub open spec fn saturating_sum(a: int, b: int) -> int {
    if a + b > u64::MAX {
        u64::MAX as int
    } else {
        a + b
    }
}

} // verus!
