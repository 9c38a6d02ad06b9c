use vstd::prelude::*;
use crate::model::{
    blocking, overlaps, ranges_overlap, transition_allowed, Customer, Day, EngineError, Note,
    Reservation, Spot, Status,
};
use crate::pricing::{compute_price, stay_price};

verus! {

/// A reservation that occupies `spot_id` on a day of `[check_in, check_out)`,
/// unless it is the one named by `exclude`.
pub open spec fn blocks(r: Reservation, spot_id: u64, check_in: int, check_out: int, exclude: Option<u64>) -> bool {
    &&& r.spot_id == spot_id
    &&& blocking(r.status)
    &&& exclude != Some(r.id)
    &&& ranges_overlap(r.check_in as int, r.check_out as int, check_in, check_out)
}

/// No reservation of `res` blocks the range on the spot.
pub open spec fn range_free(
    res: Seq<Reservation>,
    spot_id: u64,
    check_in: int,
    check_out: int,
    exclude: Option<u64>,
) -> bool {
    forall|k: int| 0 <= k < res.len() ==> !#[trigger] blocks(res[k], spot_id, check_in, check_out, exclude)
}

/// The central consistency rule: two blocking reservations of one spot never share a day.
pub open spec fn no_double_booking(res: Seq<Reservation>) -> bool {
    forall|i: int, j: int|
        0 <= i < res.len() && 0 <= j < res.len() && i != j && #[trigger] res[i].spot_id == #[trigger] res[j].spot_id
            && blocking(res[i].status) && blocking(res[j].status) ==> !ranges_overlap(
            res[i].check_in as int,
            res[i].check_out as int,
            res[j].check_in as int,
            res[j].check_out as int,
        )
}

/// The notes of `notes` that belong to reservation `rid`, oldest first.
pub open spec fn notes_of(notes: Seq<Note>, rid: u64) -> Seq<Note>
    decreases notes.len(),
{
    if notes.len() == 0 {
        Seq::empty()
    } else {
        let rest = notes_of(notes.drop_last(), rid);
        if notes.last().reservation_id == rid {
            rest.push(notes.last())
        } else {
            rest
        }
    }
}

/// The mathematical state of an engine: every record slot, indexed by id.
/// A removed customer or spot leaves an empty slot; reservations and notes are never removed.
pub struct EngineView {
    pub customers: Seq<Option<Customer>>,
    pub spots: Seq<Option<Spot>>,
    pub reservations: Seq<Reservation>,
    pub notes: Seq<Note>,
}

impl EngineView {
    pub open spec fn has_spot(&self, id: int) -> bool {
        0 <= id < self.spots.len() && self.spots[id] is Some
    }

    pub open spec fn spot(&self, id: int) -> Spot {
        self.spots[id]->Some_0
    }

    pub open spec fn has_customer(&self, id: int) -> bool {
        0 <= id < self.customers.len() && self.customers[id] is Some
    }

    pub open spec fn customer(&self, id: int) -> Customer {
        self.customers[id]->Some_0
    }

    pub open spec fn has_reservation(&self, id: int) -> bool {
        0 <= id < self.reservations.len()
    }

    pub open spec fn spots_wf(&self) -> bool {
        forall|k: int| #[trigger] self.has_spot(k) ==> self.spot(k).id == k && self.spot(k).valid()
    }

    pub open spec fn customers_wf(&self) -> bool {
        &&& forall|k: int| #[trigger] self.has_customer(k) ==> self.customer(k).id == k
        &&& forall|a: int, b: int|
            #[trigger] self.has_customer(a) && #[trigger] self.has_customer(b) && a != b
                ==> self.customer(a).email@ != self.customer(b).email@
    }

    pub open spec fn reservations_wf(&self) -> bool {
        &&& forall|i: int|
            0 <= i < self.reservations.len() ==> {
                let r = #[trigger] self.reservations[i];
                &&& r.id == i
                &&& r.check_in < r.check_out
                &&& self.has_spot(r.spot_id as int)
                &&& self.has_customer(r.customer_id as int)
            }
        &&& no_double_booking(self.reservations)
    }

    pub open spec fn notes_wf(&self) -> bool {
        forall|n: int|
            0 <= n < self.notes.len() ==> (#[trigger] self.notes[n]).id == n && self.has_reservation(
                self.notes[n].reservation_id as int,
            )
    }

    pub open spec fn wf(&self) -> bool {
        &&& self.spots_wf()
        &&& self.customers_wf()
        &&& self.reservations_wf()
        &&& self.notes_wf()
    }

    /// Why a booking request would be refused, checked in this order; `None` when it is accepted.
    pub open spec fn create_check(
        &self,
        spot_id: u64,
        customer_id: u64,
        check_in: int,
        check_out: int,
        adults: int,
    ) -> Option<EngineError> {
        if !(check_in < check_out) {
            Some(EngineError::InvalidRange)
        } else if adults < 1 {
            Some(EngineError::InvalidGuests)
        } else if !self.has_spot(spot_id as int) || !self.has_customer(customer_id as int) {
            Some(EngineError::NotFound)
        } else if !self.spot(spot_id as int).is_active {
            Some(EngineError::SpotInactive)
        } else if !range_free(self.reservations, spot_id, check_in, check_out, None) {
            Some(EngineError::Conflict)
        } else {
            None
        }
    }

    /// Why a status change would be refused; `None` when it is accepted.
    pub open spec fn status_check(&self, id: u64, target: Status, today: int) -> Option<EngineError> {
        if !self.has_reservation(id as int) {
            Some(EngineError::NotFound)
        } else if !transition_allowed(self.reservations[id as int].status, target) {
            Some(EngineError::InvalidTransition)
        } else if (target is CheckedIn || target is CheckedOut) && today
            < self.reservations[id as int].check_in {
            Some(EngineError::TooEarly)
        } else {
            None
        }
    }

    /// Why a change of dates would be refused; `None` when it is accepted.
    pub open spec fn modify_check(&self, id: u64, check_in: int, check_out: int) -> Option<EngineError> {
        if !self.has_reservation(id as int) {
            Some(EngineError::NotFound)
        } else if !(self.reservations[id as int].status is Hold
            || self.reservations[id as int].status is Confirmed) {
            Some(EngineError::InvalidState)
        } else if !(check_in < check_out) {
            Some(EngineError::InvalidRange)
        } else if !range_free(
            self.reservations,
            self.reservations[id as int].spot_id,
            check_in,
            check_out,
            Some(id),
        ) {
            Some(EngineError::Conflict)
        } else {
            None
        }
    }

    /// Whether some present customer already uses `email`.
    pub open spec fn email_taken(&self, email: Seq<char>) -> bool {
        exists|k: int| #[trigger] self.has_customer(k) && self.customer(k).email@ == email
    }

    /// Whether a present customer other than `id` uses `email`.
    pub open spec fn email_taken_by_other(&self, email: Seq<char>, id: int) -> bool {
        exists|k: int| #[trigger] self.has_customer(k) && k != id && self.customer(k).email@ == email
    }

    /// Whether some reservation, of any status, refers to customer `id`.
    pub open spec fn customer_referenced(&self, id: u64) -> bool {
        exists|i: int| 0 <= i < self.reservations.len() && (#[trigger] self.reservations[i]).customer_id == id
    }

    /// Whether some reservation, of any status, refers to spot `id`.
    pub open spec fn spot_referenced(&self, id: u64) -> bool {
        exists|i: int| 0 <= i < self.reservations.len() && (#[trigger] self.reservations[i]).spot_id == id
    }
}

/// Spot and customer facts carry over to a state with the same spot and customer slots.
proof fn lemma_same_directory(prev: EngineView, v: EngineView)
    requires
        prev.spots_wf(),
        prev.customers_wf(),
        v.spots == prev.spots,
        v.customers == prev.customers,
    ensures
        v.spots_wf(),
        v.customers_wf(),
        forall|k: int| #[trigger] v.has_spot(k) == prev.has_spot(k),
        forall|k: int| #[trigger] v.has_customer(k) == prev.has_customer(k),
{
    lemma_same_spots(prev, v);
    lemma_same_directory_customers(prev, v);
}

/// Spot facts carry over to a state with the same spot slots.
proof fn lemma_same_spots(prev: EngineView, v: EngineView)
    requires
        prev.spots_wf(),
        v.spots == prev.spots,
    ensures
        v.spots_wf(),
        forall|k: int| #[trigger] v.has_spot(k) == prev.has_spot(k),
{
    assert forall|k: int| #[trigger] v.has_spot(k) implies v.spot(k).id == k && v.spot(k).valid() by {
        assert(prev.has_spot(k));
    }
}

/// The reservation and availability engine: customers, spots, their bookings and notes.
pub struct Engine {
    customers: Vec<Option<Customer>>,
    spots: Vec<Option<Spot>>,
    reservations: Vec<Reservation>,
    notes: Vec<Note>,
}

impl View for Engine {
    type V = EngineView;

    closed spec fn view(&self) -> EngineView {
        EngineView {
            customers: self.customers@,
            spots: self.spots@,
            reservations: self.reservations@,
            notes: self.notes@,
        }
    }
}

impl Engine {
    pub open spec fn wf(&self) -> bool {
        self@.wf()
    }

    /// An engine with no records.
    pub fn new() -> (r: Engine)
        ensures
            r.wf(),
            r@.customers.len() == 0,
            r@.spots.len() == 0,
            r@.reservations.len() == 0,
            r@.notes.len() == 0,
    {
        Engine { customers: Vec::new(), spots: Vec::new(), reservations: Vec::new(), notes: Vec::new() }
    }

    /// Whether any reservation of the engine blocks the range; a pure read.
    fn scan_free(&self, spot_id: u64, check_in: Day, check_out: Day, exclude: Option<u64>) -> (r: bool)
        ensures
            r == range_free(self@.reservations, spot_id, check_in as int, check_out as int, exclude),
    {
        let n = self.reservations.len();
        let mut k: usize = 0;
        while k < n
            invariant
                n == self.reservations@.len(),
                0 <= k <= n,
                forall|j: int| 0 <= j < k ==> !#[trigger] blocks(
                    self.reservations@[j],
                    spot_id,
                    check_in as int,
                    check_out as int,
                    exclude,
                ),
            decreases n - k,
        {
            let r = self.reservations[k];
            let excluded = match exclude {
                Some(x) => x == r.id,
                None => false,
            };
            if r.spot_id == spot_id && r.status.is_blocking() && !excluded && overlaps(
                r.check_in,
                r.check_out,
                check_in,
                check_out,
            ) {
                assert(blocks(self@.reservations[k as int], spot_id, check_in as int, check_out as int, exclude));
                return false;
            }
            k = k + 1;
        }
        proof {
            assert forall|j: int| 0 <= j < self@.reservations.len() implies !#[trigger] blocks(
                self@.reservations[j],
                spot_id,
                check_in as int,
                check_out as int,
                exclude,
            ) by {
                assert(self@.reservations[j] == self.reservations@[j]);
            }
        }
        true
    }

    fn spot_present(&self, id: u64) -> (r: bool)
        ensures
            r == self@.has_spot(id as int),
    {
        if id < self.spots.len() as u64 {
            self.spots[id as usize].is_some()
        } else {
            false
        }
    }

    fn customer_present(&self, id: u64) -> (r: bool)
        ensures
            r == self@.has_customer(id as int),
    {
        if id < self.customers.len() as u64 {
            self.customers[id as usize].is_some()
        } else {
            false
        }
    }

    /// Whether present spot `spot_id` takes new bookings.
    fn spot_is_active(&self, spot_id: u64) -> (r: bool)
        requires
            self@.has_spot(spot_id as int),
        ensures
            r == self@.spot(spot_id as int).is_active,
    {
        assert(spot_id < self.spots.len());
        match &self.spots[spot_id as usize] {
            Some(spot) => spot.is_active,
            None => false,
        }
    }

    /// Price of a stay on present spot `spot_id` at its current nightly rate.
    fn price_on_spot(&self, spot_id: u64, check_in: Day, check_out: Day) -> (r: u64)
        requires
            self.wf(),
            self@.has_spot(spot_id as int),
            check_in < check_out,
        ensures
            r as int == stay_price(self@.spot(spot_id as int).price_per_night as int, check_in as int, check_out as int),
    {
        assert(spot_id < self.spots.len());
        assert(self@.spot(spot_id as int).valid());
        match &self.spots[spot_id as usize] {
            Some(spot) => compute_price(spot, check_in, check_out),
            None => 0,
        }
    }

    /// Whether spot `spot_id` is free over `[check_in, check_out)`, ignoring the
    /// reservation `exclude` if one is named. Only blocking reservations count.
    pub fn is_available(&self, spot_id: u64, check_in: Day, check_out: Day, exclude: Option<u64>) -> (r: Result<
        bool,
        EngineError,
    >)
        ensures
            r == (if self@.has_spot(spot_id as int) {
                Ok(range_free(self@.reservations, spot_id, check_in as int, check_out as int, exclude))
            } else {
                Err(EngineError::NotFound)
            }),
    {
        if !self.spot_present(spot_id) {
            return Err(EngineError::NotFound);
        }
        Ok(self.scan_free(spot_id, check_in, check_out, exclude))
    }
}


impl Engine {
    /// Books spot `spot_id` for customer `customer_id` over `[check_in, check_out)`.
    /// The availability check and the insertion happen under one exclusive borrow of
    /// the engine, so no other booking can slip in between them.
    /// The new reservation starts in `Hold`, priced at the spot's current nightly rate.
    pub fn create_reservation(
        &mut self,
        spot_id: u64,
        customer_id: u64,
        check_in: Day,
        check_out: Day,
        adults: u32,
        children: u32,
    ) -> (r: Result<u64, EngineError>)
        requires
            old(self).wf(),
        ensures
            final(self).wf(),
            match r {
                Ok(id) => {
                    &&& old(self)@.create_check(spot_id, customer_id, check_in as int, check_out as int, adults as int) is None
                    &&& id == old(self)@.reservations.len()
                    &&& final(self)@ == (EngineView {
                        reservations: old(self)@.reservations.push(
                            Reservation {
                                id,
                                spot_id,
                                customer_id,
                                check_in,
                                check_out,
                                status: Status::Hold,
                                total_price: stay_price(
                                    old(self)@.spot(spot_id as int).price_per_night as int,
                                    check_in as int,
                                    check_out as int,
                                ) as u64,
                                adults,
                                children,
                            },
                        ),
                        ..old(self)@
                    })
                },
                Err(e) => {
                    &&& old(self)@.create_check(spot_id, customer_id, check_in as int, check_out as int, adults as int) == Some(e)
                    &&& final(self)@ == old(self)@
                },
            },
    {
        if check_in >= check_out {
            return Err(EngineError::InvalidRange);
        }
        if adults < 1 {
            return Err(EngineError::InvalidGuests);
        }
        if !self.spot_present(spot_id) || !self.customer_present(customer_id) {
            return Err(EngineError::NotFound);
        }
        if !self.spot_is_active(spot_id) {
            return Err(EngineError::SpotInactive);
        }
        if !self.scan_free(spot_id, check_in, check_out, None) {
            return Err(EngineError::Conflict);
        }
        let total_price = self.price_on_spot(spot_id, check_in, check_out);
        let id = self.reservations.len() as u64;
        let res = Reservation {
            id,
            spot_id,
            customer_id,
            check_in,
            check_out,
            status: Status::Hold,
            total_price,
            adults,
            children,
        };
        let ghost prev = self@;
        self.reservations.push(res);
        proof {
            let v = self@;
            assert(v.reservations == prev.reservations.push(res));
            assert(v.spots == prev.spots && v.customers == prev.customers && v.notes == prev.notes);
            lemma_same_directory(prev, v);
            assert forall|i: int, j: int|
                0 <= i < v.reservations.len() && 0 <= j < v.reservations.len() && i != j
                    && #[trigger] v.reservations[i].spot_id == #[trigger] v.reservations[j].spot_id
                    && blocking(v.reservations[i].status) && blocking(v.reservations[j].status)
                implies !ranges_overlap(
                v.reservations[i].check_in as int,
                v.reservations[i].check_out as int,
                v.reservations[j].check_in as int,
                v.reservations[j].check_out as int,
            ) by {
                let last = prev.reservations.len() as int;
                if i == last {
                    assert(!blocks(prev.reservations[j], spot_id, check_in as int, check_out as int, None));
                } else if j == last {
                    assert(!blocks(prev.reservations[i], spot_id, check_in as int, check_out as int, None));
                } else {
                    assert(v.reservations[i] == prev.reservations[i]);
                    assert(v.reservations[j] == prev.reservations[j]);
                }
            }
            assert forall|n: int| 0 <= n < v.notes.len() implies (#[trigger] v.notes[n]).id == n
                && v.has_reservation(v.notes[n].reservation_id as int) by {
                assert(prev.notes[n] == v.notes[n]);
            }
            assert(v =~= (EngineView { reservations: prev.reservations.push(res), ..prev }));
        }
        Ok(id)
    }
}


/// Reservation facts carry over when one reservation is replaced by one with the same
/// id, spot and customer that is either no longer blocking or free of every other one.
proof fn lemma_replace_reservation(prev: EngineView, v: EngineView, i: int, nr: Reservation)
    requires
        prev.wf(),
        0 <= i < prev.reservations.len(),
        v.spots == prev.spots,
        v.customers == prev.customers,
        v.notes == prev.notes,
        v.reservations == prev.reservations.update(i, nr),
        nr.id == prev.reservations[i].id,
        nr.spot_id == prev.reservations[i].spot_id,
        nr.customer_id == prev.reservations[i].customer_id,
        nr.check_in < nr.check_out,
        blocking(nr.status) ==> range_free(
            prev.reservations,
            nr.spot_id,
            nr.check_in as int,
            nr.check_out as int,
            Some(nr.id),
        ),
    ensures
        v.wf(),
{
    lemma_same_directory(prev, v);
    assert forall|k: int| 0 <= k < v.reservations.len() implies {
        let r = #[trigger] v.reservations[k];
        &&& r.id == k
        &&& r.check_in < r.check_out
        &&& v.has_spot(r.spot_id as int)
        &&& v.has_customer(r.customer_id as int)
    } by {
        let r0 = prev.reservations[k];
        assert(v.has_spot(r0.spot_id as int) && v.has_customer(r0.customer_id as int));
    }
    assert forall|a: int, b: int|
        0 <= a < v.reservations.len() && 0 <= b < v.reservations.len() && a != b
            && #[trigger] v.reservations[a].spot_id == #[trigger] v.reservations[b].spot_id
            && blocking(v.reservations[a].status) && blocking(v.reservations[b].status)
        implies !ranges_overlap(
        v.reservations[a].check_in as int,
        v.reservations[a].check_out as int,
        v.reservations[b].check_in as int,
        v.reservations[b].check_out as int,
    ) by {
        if a == i {
            assert(prev.reservations[b].id == b);
            assert(!blocks(prev.reservations[b], nr.spot_id, nr.check_in as int, nr.check_out as int, Some(nr.id)));
        } else if b == i {
            assert(prev.reservations[a].id == a);
            assert(!blocks(prev.reservations[a], nr.spot_id, nr.check_in as int, nr.check_out as int, Some(nr.id)));
        } else {
            assert(v.reservations[a] == prev.reservations[a]);
            assert(v.reservations[b] == prev.reservations[b]);
        }
    }
    assert forall|n: int| 0 <= n < v.notes.len() implies (#[trigger] v.notes[n]).id == n
        && v.has_reservation(v.notes[n].reservation_id as int) by {
        assert(prev.notes[n] == v.notes[n]);
    }
}

impl Engine {
    /// Moves reservation `id` along one edge of its lifecycle. Arrival and departure are
    /// refused before the check-in day `today` is reached. The dates do not change, so no
    /// availability check is needed: a blocking target status can only follow a blocking one.
    pub fn change_status(&mut self, id: u64, target: Status, today: Day) -> (r: Result<(), EngineError>)
        requires
            old(self).wf(),
        ensures
            final(self).wf(),
            match r {
                Ok(()) => {
                    &&& old(self)@.status_check(id, target, today as int) is None
                    &&& final(self)@ == (EngineView {
                        reservations: old(self)@.reservations.update(
                            id as int,
                            Reservation { status: target, ..old(self)@.reservations[id as int] },
                        ),
                        ..old(self)@
                    })
                },
                Err(e) => {
                    &&& old(self)@.status_check(id, target, today as int) == Some(e)
                    &&& final(self)@ == old(self)@
                },
            },
    {
        if id >= self.reservations.len() as u64 {
            return Err(EngineError::NotFound);
        }
        let idx: usize = id as usize;
        let cur = self.reservations[idx];
        if !cur.status.can_transition_to(target) {
            return Err(EngineError::InvalidTransition);
        }
        let arriving_or_leaving = match target {
            Status::CheckedIn | Status::CheckedOut => true,
            _ => false,
        };
        if arriving_or_leaving && today < cur.check_in {
            return Err(EngineError::TooEarly);
        }
        let updated = Reservation { status: target, ..cur };
        let ghost prev = self@;
        self.reservations.set(idx, updated);
        proof {
            let v = self@;
            assert(blocking(cur.status));
            assert forall|k: int| 0 <= k < prev.reservations.len() implies !#[trigger] blocks(
                prev.reservations[k],
                cur.spot_id,
                cur.check_in as int,
                cur.check_out as int,
                Some(cur.id),
            ) by {
                if k != idx as int {
                    assert(prev.reservations[k].id == k);
                }
            }
            lemma_replace_reservation(prev, v, idx as int, updated);
            assert(v =~= (EngineView { reservations: prev.reservations.update(id as int, updated), ..prev }));
        }
        Ok(())
    }

    /// Moves reservation `id` to `[check_in, check_out)` and reprices it at its spot's
    /// current nightly rate. Only a held or confirmed reservation can move, and only to a
    /// range that no other blocking reservation of the spot touches.
    pub fn modify_dates(&mut self, id: u64, check_in: Day, check_out: Day) -> (r: Result<(), EngineError>)
        requires
            old(self).wf(),
        ensures
            final(self).wf(),
            match r {
                Ok(()) => {
                    let cur = old(self)@.reservations[id as int];
                    &&& old(self)@.modify_check(id, check_in as int, check_out as int) is None
                    &&& final(self)@ == (EngineView {
                        reservations: old(self)@.reservations.update(
                            id as int,
                            Reservation {
                                check_in,
                                check_out,
                                total_price: stay_price(
                                    old(self)@.spot(cur.spot_id as int).price_per_night as int,
                                    check_in as int,
                                    check_out as int,
                                ) as u64,
                                ..cur
                            },
                        ),
                        ..old(self)@
                    })
                },
                Err(e) => {
                    &&& old(self)@.modify_check(id, check_in as int, check_out as int) == Some(e)
                    &&& final(self)@ == old(self)@
                },
            },
    {
        if id >= self.reservations.len() as u64 {
            return Err(EngineError::NotFound);
        }
        let idx: usize = id as usize;
        let cur = self.reservations[idx];
        let movable = match cur.status {
            Status::Hold | Status::Confirmed => true,
            _ => false,
        };
        if !movable {
            return Err(EngineError::InvalidState);
        }
        if check_in >= check_out {
            return Err(EngineError::InvalidRange);
        }
        if !self.scan_free(cur.spot_id, check_in, check_out, Some(id)) {
            return Err(EngineError::Conflict);
        }
        assert(self@.reservations[idx as int] == cur);
        let total_price = self.price_on_spot(cur.spot_id, check_in, check_out);
        let updated = Reservation { check_in, check_out, total_price, ..cur };
        let ghost prev = self@;
        self.reservations.set(idx, updated);
        proof {
            let v = self@;
            lemma_replace_reservation(prev, v, idx as int, updated);
            assert(v =~= (EngineView { reservations: prev.reservations.update(id as int, updated), ..prev }));
        }
        Ok(())
    }
}


impl Engine {
    /// Appends a note to the audit trail of reservation `reservation_id`.
    /// Earlier notes are never touched.
    pub fn add_note(
        &mut self,
        reservation_id: u64,
        text: String,
        author: String,
        created_at: String,
    ) -> (r: Result<u64, EngineError>)
        requires
            old(self).wf(),
        ensures
            final(self).wf(),
            r == Err::<u64, EngineError>(EngineError::NotFound) <==> !old(self)@.has_reservation(reservation_id as int),
            r == Err::<u64, EngineError>(EngineError::EmptyNote) <==> old(self)@.has_reservation(reservation_id as int)
                && text@.len() == 0,
            r is Ok <==> old(self)@.has_reservation(reservation_id as int) && text@.len() > 0,
            r is Err ==> final(self)@ == old(self)@,
            r matches Ok(id) ==> id == old(self)@.notes.len() && final(self)@ == (EngineView {
                notes: old(self)@.notes.push(Note { id, reservation_id, text, author, created_at }),
                ..old(self)@
            }),
    {
        if reservation_id >= self.reservations.len() as u64 {
            return Err(EngineError::NotFound);
        }
        if text.as_str().is_empty() {
            return Err(EngineError::EmptyNote);
        }
        let id = self.notes.len() as u64;
        let note = Note { id, reservation_id, text, author, created_at };
        let ghost prev = self@;
        self.notes.push(note);
        proof {
            let v = self@;
            lemma_same_directory(prev, v);
            assert(v.reservations == prev.reservations);
            assert forall|n: int| 0 <= n < v.notes.len() implies (#[trigger] v.notes[n]).id == n
                && v.has_reservation(v.notes[n].reservation_id as int) by {
                if n < prev.notes.len() {
                    assert(prev.notes[n] == v.notes[n]);
                }
            }
            assert forall|k: int| 0 <= k < v.reservations.len() implies {
                let r = #[trigger] v.reservations[k];
                &&& r.id == k
                &&& r.check_in < r.check_out
                &&& v.has_spot(r.spot_id as int)
                &&& v.has_customer(r.customer_id as int)
            } by {
                let r0 = prev.reservations[k];
                assert(v.has_spot(r0.spot_id as int) && v.has_customer(r0.customer_id as int));
            }
            assert(v =~= (EngineView { notes: prev.notes.push(note), ..prev }));
        }
        Ok(id)
    }

    /// The notes of reservation `reservation_id`, oldest first.
    pub fn notes_for(&self, reservation_id: u64) -> (r: Vec<Note>)
        ensures
            r@ == notes_of(self@.notes, reservation_id),
    {
        let mut out: Vec<Note> = Vec::new();
        let n = self.notes.len();
        let mut k: usize = 0;
        while k < n
            invariant
                n == self.notes@.len(),
                0 <= k <= n,
                out@ == notes_of(self.notes@.subrange(0, k as int), reservation_id),
            decreases n - k,
        {
            let note = &self.notes[k];
            proof {
                let pre = self.notes@.subrange(0, k as int + 1);
                assert(pre.drop_last() =~= self.notes@.subrange(0, k as int));
                assert(pre.last() == self.notes@[k as int]);
            }
            if note.reservation_id == reservation_id {
                out.push(note.duplicate());
            }
            k = k + 1;
        }
        proof {
            assert(self.notes@.subrange(0, n as int) =~= self.notes@);
        }
        out
    }

    /// Whether some present customer already uses `email`.
    fn email_in_use(&self, email: &String) -> (r: bool)
        ensures
            r == self@.email_taken(email@),
    {
        let n = self.customers.len();
        let mut k: usize = 0;
        while k < n
            invariant
                n == self.customers@.len(),
                0 <= k <= n,
                forall|j: int| 0 <= j < k && #[trigger] self@.has_customer(j) ==> self@.customer(j).email@ != email@,
            decreases n - k,
        {
            match &self.customers[k] {
                Some(c) => {
                    if c.email == *email {
                        assert(self@.has_customer(k as int) && self@.customer(k as int).email@ == email@);
                        return true;
                    }
                },
                None => {},
            }
            k = k + 1;
        }
        false
    }

    /// Registers a customer under a fresh id. Email addresses are unique among customers.
    pub fn add_customer(
        &mut self,
        first_name: String,
        last_name: String,
        email: String,
        phone: String,
        city: Option<String>,
        province: Option<String>,
    ) -> (r: Result<u64, EngineError>)
        requires
            old(self).wf(),
        ensures
            final(self).wf(),
            r is Ok <==> !old(self)@.email_taken(email@),
            r is Err ==> r == Err::<u64, EngineError>(EngineError::DuplicateEmail) && final(self)@ == old(self)@,
            r matches Ok(id) ==> id == old(self)@.customers.len() && final(self)@ == (EngineView {
                customers: old(self)@.customers.push(
                    Some(Customer { id, first_name, last_name, email, phone, city, province }),
                ),
                ..old(self)@
            }),
    {
        if self.email_in_use(&email) {
            return Err(EngineError::DuplicateEmail);
        }
        let id = self.customers.len() as u64;
        let c = Customer { id, first_name, last_name, email, phone, city, province };
        let ghost prev = self@;
        let ghost cv = c;
        self.customers.push(Some(c));
        proof {
            let v = self@;
            assert(v.customers == prev.customers.push(Some(cv)));
            assert forall|k: int| #[trigger] v.has_customer(k) implies v.customer(k).id == k by {
                if k < prev.customers.len() {
                    assert(prev.has_customer(k));
                }
            }
            assert forall|a: int, b: int|
                #[trigger] v.has_customer(a) && #[trigger] v.has_customer(b) && a != b
                implies v.customer(a).email@ != v.customer(b).email@ by {
                if a < prev.customers.len() {
                    assert(prev.has_customer(a));
                }
                if b < prev.customers.len() {
                    assert(prev.has_customer(b));
                }
            }
            lemma_same_spots(prev, v);
            assert forall|k: int| 0 <= k < v.reservations.len() implies {
                let r = #[trigger] v.reservations[k];
                &&& r.id == k
                &&& r.check_in < r.check_out
                &&& v.has_spot(r.spot_id as int)
                &&& v.has_customer(r.customer_id as int)
            } by {
                let r0 = prev.reservations[k];
                assert(prev.has_spot(r0.spot_id as int) && prev.has_customer(r0.customer_id as int));
                assert(v.customers[r0.customer_id as int] == prev.customers[r0.customer_id as int]);
            }
            assert forall|n: int| 0 <= n < v.notes.len() implies (#[trigger] v.notes[n]).id == n
                && v.has_reservation(v.notes[n].reservation_id as int) by {
                assert(prev.notes[n] == v.notes[n]);
            }
            assert(v =~= (EngineView { customers: prev.customers.push(Some(cv)), ..prev }));
        }
        Ok(id)
    }
}


/// Reservation and note facts carry over to a state with the same reservations and
/// notes, as long as every referenced spot and customer is still present.
proof fn lemma_directory_change(prev: EngineView, v: EngineView)
    requires
        prev.wf(),
        v.reservations == prev.reservations,
        v.notes == prev.notes,
        v.spots_wf(),
        v.customers_wf(),
        forall|i: int|
            0 <= i < prev.reservations.len() ==> v.has_spot((#[trigger] prev.reservations[i]).spot_id as int)
                && v.has_customer(prev.reservations[i].customer_id as int),
    ensures
        v.wf(),
{
    assert forall|n: int| 0 <= n < v.notes.len() implies (#[trigger] v.notes[n]).id == n
        && v.has_reservation(v.notes[n].reservation_id as int) by {
        assert(prev.notes[n] == v.notes[n]);
    }
}

impl Engine {
    /// Removes customer `id`, which no reservation may refer to.
    pub fn remove_customer(&mut self, id: u64) -> (r: Result<(), EngineError>)
        requires
            old(self).wf(),
        ensures
            final(self).wf(),
            r == Err::<(), EngineError>(EngineError::NotFound) <==> !old(self)@.has_customer(id as int),
            r == Err::<(), EngineError>(EngineError::InUse) <==> old(self)@.has_customer(id as int)
                && old(self)@.customer_referenced(id),
            r is Ok <==> old(self)@.has_customer(id as int) && !old(self)@.customer_referenced(id),
            r is Err ==> final(self)@ == old(self)@,
            r is Ok ==> final(self)@ == (EngineView {
                customers: old(self)@.customers.update(id as int, None),
                ..old(self)@
            }),
    {
        if !self.customer_present(id) {
            return Err(EngineError::NotFound);
        }
        if self.customer_in_use(id) {
            return Err(EngineError::InUse);
        }
        let ghost prev = self@;
        assert(id < self.customers.len());
        self.customers.set(id as usize, None);
        proof {
            let v = self@;
            assert(v.customers == prev.customers.update(id as int, None));
            lemma_same_spots(prev, v);
            assert forall|k: int| #[trigger] v.has_customer(k) implies v.customer(k).id == k by {
                assert(prev.has_customer(k));
            }
            assert forall|a: int, b: int|
                #[trigger] v.has_customer(a) && #[trigger] v.has_customer(b) && a != b
                implies v.customer(a).email@ != v.customer(b).email@ by {
                assert(prev.has_customer(a) && prev.has_customer(b));
            }
            assert forall|i: int| 0 <= i < prev.reservations.len() implies v.has_spot(
                (#[trigger] prev.reservations[i]).spot_id as int,
            ) && v.has_customer(prev.reservations[i].customer_id as int) by {
                assert(prev.has_spot(prev.reservations[i].spot_id as int));
                assert(prev.has_customer(prev.reservations[i].customer_id as int));
            }
            lemma_directory_change(prev, v);
            assert(v =~= (EngineView { customers: prev.customers.update(id as int, None), ..prev }));
        }
        Ok(())
    }

    /// Provisions a spot under a fresh id; the `id` field of `spot` is ignored.
    pub fn add_spot(&mut self, spot: Spot) -> (r: Result<u64, EngineError>)
        requires
            old(self).wf(),
        ensures
            final(self).wf(),
            r is Ok <==> spot.valid(),
            r is Err ==> r == Err::<u64, EngineError>(EngineError::InvalidSpot) && final(self)@ == old(self)@,
            r matches Ok(id) ==> id == old(self)@.spots.len() && final(self)@ == (EngineView {
                spots: old(self)@.spots.push(Some(Spot { id, ..spot })),
                ..old(self)@
            }),
    {
        if spot.capacity < 1 || spot.price_per_night > crate::model::MAX_NIGHTLY_PRICE {
            return Err(EngineError::InvalidSpot);
        }
        let id = self.spots.len() as u64;
        let mut spot = spot;
        spot.id = id;
        let ghost prev = self@;
        let ghost sv = spot;
        self.spots.push(Some(spot));
        proof {
            let v = self@;
            assert(v.spots == prev.spots.push(Some(sv)));
            assert forall|k: int| #[trigger] v.has_spot(k) implies v.spot(k).id == k && v.spot(k).valid() by {
                if k < prev.spots.len() {
                    assert(prev.has_spot(k));
                }
            }
            lemma_same_directory_customers(prev, v);
            assert forall|i: int| 0 <= i < prev.reservations.len() implies v.has_spot(
                (#[trigger] prev.reservations[i]).spot_id as int,
            ) && v.has_customer(prev.reservations[i].customer_id as int) by {
                assert(prev.has_spot(prev.reservations[i].spot_id as int));
                assert(prev.has_customer(prev.reservations[i].customer_id as int));
                assert(v.spots[prev.reservations[i].spot_id as int] == prev.spots[prev.reservations[i].spot_id as int]);
            }
            lemma_directory_change(prev, v);
            assert(v =~= (EngineView { spots: prev.spots.push(Some(sv)), ..prev }));
        }
        Ok(id)
    }
}

/// Customer facts carry over to a state with the same customer slots.
proof fn lemma_same_directory_customers(prev: EngineView, v: EngineView)
    requires
        prev.customers_wf(),
        v.customers == prev.customers,
    ensures
        v.customers_wf(),
        forall|k: int| #[trigger] v.has_customer(k) == prev.has_customer(k),
{
    assert forall|k: int| #[trigger] v.has_customer(k) implies v.customer(k).id == k by {
        assert(prev.has_customer(k));
    }
    assert forall|a: int, b: int|
        #[trigger] v.has_customer(a) && #[trigger] v.has_customer(b) && a != b
        implies v.customer(a).email@ != v.customer(b).email@ by {
        assert(prev.has_customer(a) && prev.has_customer(b));
    }
}


impl Engine {
    /// Whether some reservation refers to customer `id`.
    fn customer_in_use(&self, id: u64) -> (r: bool)
        ensures
            r == self@.customer_referenced(id),
    {
        let n = self.reservations.len();
        let mut k: usize = 0;
        while k < n
            invariant
                n == self.reservations@.len(),
                0 <= k <= n,
                forall|j: int| 0 <= j < k ==> (#[trigger] self.reservations@[j]).customer_id != id,
            decreases n - k,
        {
            if self.reservations[k].customer_id == id {
                assert(self@.reservations[k as int].customer_id == id);
                return true;
            }
            k = k + 1;
        }
        proof {
            assert forall|i: int| 0 <= i < self@.reservations.len() implies (#[trigger] self@.reservations[i]).customer_id
                != id by {
                assert(self@.reservations[i] == self.reservations@[i]);
            }
        }
        false
    }

    /// Whether some reservation refers to spot `id`.
    fn spot_in_use(&self, id: u64) -> (r: bool)
        ensures
            r == self@.spot_referenced(id),
    {
        let n = self.reservations.len();
        let mut k: usize = 0;
        while k < n
            invariant
                n == self.reservations@.len(),
                0 <= k <= n,
                forall|j: int| 0 <= j < k ==> (#[trigger] self.reservations@[j]).spot_id != id,
            decreases n - k,
        {
            if self.reservations[k].spot_id == id {
                assert(self@.reservations[k as int].spot_id == id);
                return true;
            }
            k = k + 1;
        }
        proof {
            assert forall|i: int| 0 <= i < self@.reservations.len() implies (#[trigger] self@.reservations[i]).spot_id
                != id by {
                assert(self@.reservations[i] == self.reservations@[i]);
            }
        }
        false
    }
}


/// Spot facts hold after slot `id` is overwritten with a valid spot carrying that id,
/// and every reservation still finds its spot and customer.
proof fn lemma_spot_replaced(prev: EngineView, v: EngineView, id: int, sp: Spot)
    requires
        prev.wf(),
        prev.has_spot(id),
        sp.id == id,
        sp.valid(),
        v.spots == prev.spots.update(id, Some(sp)),
        v.customers == prev.customers,
        v.reservations == prev.reservations,
        v.notes == prev.notes,
    ensures
        v.wf(),
{
    assert forall|k: int| #[trigger] v.has_spot(k) implies v.spot(k).id == k && v.spot(k).valid() by {
        if k != id {
            assert(prev.has_spot(k));
        }
    }
    lemma_same_directory_customers(prev, v);
    assert forall|i: int| 0 <= i < prev.reservations.len() implies v.has_spot(
        (#[trigger] prev.reservations[i]).spot_id as int,
    ) && v.has_customer(prev.reservations[i].customer_id as int) by {
        assert(prev.has_spot(prev.reservations[i].spot_id as int));
        assert(prev.has_customer(prev.reservations[i].customer_id as int));
    }
    lemma_directory_change(prev, v);
}

impl Engine {
    /// Replaces the details of spot `id` by those of `spot`, keeping its id.
    pub fn update_spot(&mut self, id: u64, spot: Spot) -> (r: Result<(), EngineError>)
        requires
            old(self).wf(),
        ensures
            final(self).wf(),
            r == Err::<(), EngineError>(EngineError::NotFound) <==> !old(self)@.has_spot(id as int),
            r == Err::<(), EngineError>(EngineError::InvalidSpot) <==> old(self)@.has_spot(id as int) && !spot.valid(),
            r is Ok <==> old(self)@.has_spot(id as int) && spot.valid(),
            r is Err ==> final(self)@ == old(self)@,
            r is Ok ==> final(self)@ == (EngineView {
                spots: old(self)@.spots.update(id as int, Some(Spot { id, ..spot })),
                ..old(self)@
            }),
    {
        if !self.spot_present(id) {
            return Err(EngineError::NotFound);
        }
        if spot.capacity < 1 || spot.price_per_night > crate::model::MAX_NIGHTLY_PRICE {
            return Err(EngineError::InvalidSpot);
        }
        let mut spot = spot;
        spot.id = id;
        let ghost prev = self@;
        let ghost sv = spot;
        assert(id < self.spots.len());
        self.spots.set(id as usize, Some(spot));
        proof {
            lemma_spot_replaced(prev, self@, id as int, sv);
            assert(self@ =~= (EngineView { spots: prev.spots.update(id as int, Some(sv)), ..prev }));
        }
        Ok(())
    }

    /// Activates or deactivates spot `id`. An inactive spot takes no new bookings;
    /// its existing reservations stay as they are.
    pub fn set_spot_active(&mut self, id: u64, active: bool) -> (r: Result<(), EngineError>)
        requires
            old(self).wf(),
        ensures
            final(self).wf(),
            r is Err <==> !old(self)@.has_spot(id as int),
            r is Err ==> r == Err::<(), EngineError>(EngineError::NotFound) && final(self)@ == old(self)@,
            r is Ok ==> final(self)@ == (EngineView {
                spots: old(self)@.spots.update(
                    id as int,
                    Some(Spot { is_active: active, ..old(self)@.spot(id as int) }),
                ),
                ..old(self)@
            }),
    {
        if !self.spot_present(id) {
            return Err(EngineError::NotFound);
        }
        let ghost prev = self@;
        assert(id < self.spots.len());
        let idx: usize = id as usize;
        let ghost sv = Spot { is_active: active, ..prev.spot(id as int) };
        match &mut self.spots[idx] {
            Some(sp) => {
                sp.is_active = active;
            },
            None => {},
        }
        proof {
            assert(prev.has_spot(id as int));
            assert(self@.spots =~= prev.spots.update(id as int, Some(sv)));
            lemma_spot_replaced(prev, self@, id as int, sv);
            assert(self@ =~= (EngineView { spots: prev.spots.update(id as int, Some(sv)), ..prev }));
        }
        Ok(())
    }

    /// Removes spot `id`, which no reservation may refer to.
    pub fn remove_spot(&mut self, id: u64) -> (r: Result<(), EngineError>)
        requires
            old(self).wf(),
        ensures
            final(self).wf(),
            r == Err::<(), EngineError>(EngineError::NotFound) <==> !old(self)@.has_spot(id as int),
            r == Err::<(), EngineError>(EngineError::InUse) <==> old(self)@.has_spot(id as int)
                && old(self)@.spot_referenced(id),
            r is Ok <==> old(self)@.has_spot(id as int) && !old(self)@.spot_referenced(id),
            r is Err ==> final(self)@ == old(self)@,
            r is Ok ==> final(self)@ == (EngineView { spots: old(self)@.spots.update(id as int, None), ..old(self)@ }),
    {
        if !self.spot_present(id) {
            return Err(EngineError::NotFound);
        }
        if self.spot_in_use(id) {
            return Err(EngineError::InUse);
        }
        let ghost prev = self@;
        assert(id < self.spots.len());
        self.spots.set(id as usize, None);
        proof {
            let v = self@;
            assert(v.spots == prev.spots.update(id as int, None));
            assert forall|k: int| #[trigger] v.has_spot(k) implies v.spot(k).id == k && v.spot(k).valid() by {
                assert(prev.has_spot(k));
            }
            lemma_same_directory_customers(prev, v);
            assert forall|i: int| 0 <= i < prev.reservations.len() implies v.has_spot(
                (#[trigger] prev.reservations[i]).spot_id as int,
            ) && v.has_customer(prev.reservations[i].customer_id as int) by {
                assert(prev.has_spot(prev.reservations[i].spot_id as int));
                assert(prev.has_customer(prev.reservations[i].customer_id as int));
            }
            lemma_directory_change(prev, v);
            assert(v =~= (EngineView { spots: prev.spots.update(id as int, None), ..prev }));
        }
        Ok(())
    }

    /// Reservation `id`, if it exists.
    pub fn reservation(&self, id: u64) -> (r: Option<Reservation>)
        ensures
            r == (if self@.has_reservation(id as int) {
                Some(self@.reservations[id as int])
            } else {
                None
            }),
    {
        if id < self.reservations.len() as u64 {
            Some(self.reservations[id as usize])
        } else {
            None
        }
    }

    /// Spot `id`, if it is present.
    pub fn spot(&self, id: u64) -> (r: Option<&Spot>)
        ensures
            r is Some <==> self@.has_spot(id as int),
            r matches Some(s) ==> *s == self@.spot(id as int),
    {
        if id < self.spots.len() as u64 {
            match &self.spots[id as usize] {
                Some(s) => Some(s),
                None => None,
            }
        } else {
            None
        }
    }

    /// Customer `id`, if it is present.
    pub fn customer(&self, id: u64) -> (r: Option<&Customer>)
        ensures
            r is Some <==> self@.has_customer(id as int),
            r matches Some(c) ==> *c == self@.customer(id as int),
    {
        if id < self.customers.len() as u64 {
            match &self.customers[id as usize] {
                Some(c) => Some(c),
                None => None,
            }
        } else {
            None
        }
    }

    /// The id of the present spot whose catalogue code is `code`, if any; the lowest such id.
    pub fn find_spot_by_code(&self, code: &String) -> (r: Option<u64>)
        ensures
            r matches Some(k) ==> self@.has_spot(k as int) && self@.spot(k as int).code@ == code@,
            r matches Some(k) ==> forall|j: int| 0 <= j < k && #[trigger] self@.has_spot(j) ==> self@.spot(j).code@ != code@,
            r is None ==> forall|k: int| #[trigger] self@.has_spot(k) ==> self@.spot(k).code@ != code@,
    {
        let n = self.spots.len();
        let mut k: usize = 0;
        while k < n
            invariant
                n == self.spots@.len(),
                0 <= k <= n,
                forall|j: int| 0 <= j < k && #[trigger] self@.has_spot(j) ==> self@.spot(j).code@ != code@,
            decreases n - k,
        {
            match &self.spots[k] {
                Some(sp) => {
                    if sp.code == *code {
                        assert(self@.has_spot(k as int));
                        return Some(k as u64);
                    }
                },
                None => {},
            }
            k = k + 1;
        }
        None
    }

    /// Number of reservations ever made; reservation ids run below it.
    pub fn reservation_count(&self) -> (r: usize)
        ensures
            r == self@.reservations.len(),
    {
        self.reservations.len()
    }
}


impl Engine {
    /// Moves the check-out day of a checked-in stay to `check_out`, before the guest
    /// leaves, and reprices it at its spot's current nightly rate. A later day must be
    /// free of every other blocking reservation of the spot.
    pub fn adjust_check_out(&mut self, id: u64, check_out: Day) -> (r: Result<(), EngineError>)
        requires
            old(self).wf(),
        ensures
            final(self).wf(),
            ({
                let cur = old(self)@.reservations[id as int];
                let refusal = if !old(self)@.has_reservation(id as int) {
                    Some(EngineError::NotFound)
                } else if !(cur.status is CheckedIn) {
                    Some(EngineError::InvalidState)
                } else if !(cur.check_in < check_out) {
                    Some(EngineError::InvalidRange)
                } else if !range_free(old(self)@.reservations, cur.spot_id, cur.check_in as int, check_out as int, Some(id)) {
                    Some(EngineError::Conflict)
                } else {
                    None
                };
                match r {
                    Ok(()) => {
                        &&& refusal is None
                        &&& final(self)@ == (EngineView {
                            reservations: old(self)@.reservations.update(
                                id as int,
                                Reservation {
                                    check_out,
                                    total_price: stay_price(
                                        old(self)@.spot(cur.spot_id as int).price_per_night as int,
                                        cur.check_in as int,
                                        check_out as int,
                                    ) as u64,
                                    ..cur
                                },
                            ),
                            ..old(self)@
                        })
                    },
                    Err(e) => refusal == Some(e) && final(self)@ == old(self)@,
                }
            }),
    {
        if id >= self.reservations.len() as u64 {
            return Err(EngineError::NotFound);
        }
        let idx: usize = id as usize;
        let cur = self.reservations[idx];
        let staying = match cur.status {
            Status::CheckedIn => true,
            _ => false,
        };
        if !staying {
            return Err(EngineError::InvalidState);
        }
        if cur.check_in >= check_out {
            return Err(EngineError::InvalidRange);
        }
        if !self.scan_free(cur.spot_id, cur.check_in, check_out, Some(id)) {
            return Err(EngineError::Conflict);
        }
        assert(self@.reservations[idx as int] == cur);
        let total_price = self.price_on_spot(cur.spot_id, cur.check_in, check_out);
        let updated = Reservation { check_out, total_price, ..cur };
        let ghost prev = self@;
        self.reservations.set(idx, updated);
        proof {
            let v = self@;
            lemma_replace_reservation(prev, v, idx as int, updated);
            assert(v =~= (EngineView { reservations: prev.reservations.update(id as int, updated), ..prev }));
        }
        Ok(())
    }
}


impl Engine {
    /// Whether a present customer other than `id` uses `email`.
    fn email_used_by_other(&self, email: &String, id: u64) -> (r: bool)
        ensures
            r == self@.email_taken_by_other(email@, id as int),
    {
        let n = self.customers.len();
        let mut k: usize = 0;
        while k < n
            invariant
                n == self.customers@.len(),
                0 <= k <= n,
                forall|j: int|
                    0 <= j < k && #[trigger] self@.has_customer(j) && j != id ==> self@.customer(j).email@ != email@,
            decreases n - k,
        {
            if k as u64 != id {
                match &self.customers[k] {
                    Some(c) => {
                        if c.email == *email {
                            assert(self@.has_customer(k as int) && self@.customer(k as int).email@ == email@);
                            return true;
                        }
                    },
                    None => {},
                }
            }
            k = k + 1;
        }
        false
    }

    /// Replaces the details of customer `id`, keeping its id. The new email address must
    /// not be one that another customer uses.
    pub fn update_customer(
        &mut self,
        id: u64,
        first_name: String,
        last_name: String,
        email: String,
        phone: String,
        city: Option<String>,
        province: Option<String>,
    ) -> (r: Result<(), EngineError>)
        requires
            old(self).wf(),
        ensures
            final(self).wf(),
            r == Err::<(), EngineError>(EngineError::NotFound) <==> !old(self)@.has_customer(id as int),
            r == Err::<(), EngineError>(EngineError::DuplicateEmail) <==> old(self)@.has_customer(id as int)
                && old(self)@.email_taken_by_other(email@, id as int),
            r is Ok <==> old(self)@.has_customer(id as int) && !old(self)@.email_taken_by_other(email@, id as int),
            r is Err ==> final(self)@ == old(self)@,
            r is Ok ==> final(self)@ == (EngineView {
                customers: old(self)@.customers.update(
                    id as int,
                    Some(Customer { id, first_name, last_name, email, phone, city, province }),
                ),
                ..old(self)@
            }),
    {
        if !self.customer_present(id) {
            return Err(EngineError::NotFound);
        }
        if self.email_used_by_other(&email, id) {
            return Err(EngineError::DuplicateEmail);
        }
        let c = Customer { id, first_name, last_name, email, phone, city, province };
        let ghost prev = self@;
        let ghost cv = c;
        assert(id < self.customers.len());
        self.customers.set(id as usize, Some(c));
        proof {
            let v = self@;
            assert(v.customers == prev.customers.update(id as int, Some(cv)));
            lemma_same_spots(prev, v);
            assert forall|k: int| #[trigger] v.has_customer(k) == prev.has_customer(k) by {}
            assert forall|k: int| #[trigger] v.has_customer(k) implies v.customer(k).id == k by {
                assert(prev.has_customer(k));
            }
            assert forall|a: int, b: int|
                #[trigger] v.has_customer(a) && #[trigger] v.has_customer(b) && a != b
                implies v.customer(a).email@ != v.customer(b).email@ by {
                assert(prev.has_customer(a) && prev.has_customer(b));
            }
            assert forall|i: int| 0 <= i < prev.reservations.len() implies v.has_spot(
                (#[trigger] prev.reservations[i]).spot_id as int,
            ) && v.has_customer(prev.reservations[i].customer_id as int) by {
                assert(prev.has_spot(prev.reservations[i].spot_id as int));
                assert(prev.has_customer(prev.reservations[i].customer_id as int));
            }
            lemma_directory_change(prev, v);
            assert(v =~= (EngineView { customers: prev.customers.update(id as int, Some(cv)), ..prev }));
        }
        Ok(())
    }
}

} // verus!
