use vstd::prelude::*;
use crate::engine::{blocks, notes_of, range_free, EngineView};
use crate::model::{blocking, ranges_overlap, terminal, transition_allowed, EngineError, Note, Reservation, Status};
use crate::pricing::stay_price;

verus! {

/// A booking whose range overlaps a blocking reservation of the same spot is refused;
/// once the request is otherwise valid, the refusal is `Conflict`.
pub proof fn overlapping_booking_refused(
    e: EngineView,
    i: int,
    customer_id: u64,
    check_in: int,
    check_out: int,
    adults: int,
)
    requires
        e.wf(),
        0 <= i < e.reservations.len(),
        blocking(e.reservations[i].status),
        ranges_overlap(
            e.reservations[i].check_in as int,
            e.reservations[i].check_out as int,
            check_in,
            check_out,
        ),
    ensures
        e.create_check(e.reservations[i].spot_id, customer_id, check_in, check_out, adults) is Some,
        check_in < check_out && adults >= 1 && e.has_customer(customer_id as int) && e.spot(
            e.reservations[i].spot_id as int,
        ).is_active ==> e.create_check(e.reservations[i].spot_id, customer_id, check_in, check_out, adults)
            == Some(EngineError::Conflict),
{
    let r = e.reservations[i];
    assert(e.has_spot(r.spot_id as int));
    assert(blocks(e.reservations[i], r.spot_id, check_in, check_out, None));
}

/// Of two identical booking requests made one after the other, the first is accepted
/// and the second is refused with `Conflict`.
pub proof fn same_booking_twice_conflicts(
    e: EngineView,
    spot_id: u64,
    customer_id: u64,
    check_in: u32,
    check_out: u32,
    adults: u32,
    children: u32,
)
    requires
        e.wf(),
        e.create_check(spot_id, customer_id, check_in as int, check_out as int, adults as int) is None,
    ensures
        (EngineView {
            reservations: e.reservations.push(
                Reservation {
                    id: e.reservations.len() as u64,
                    spot_id,
                    customer_id,
                    check_in,
                    check_out,
                    status: Status::Hold,
                    total_price: stay_price(
                        e.spot(spot_id as int).price_per_night as int,
                        check_in as int,
                        check_out as int,
                    ) as u64,
                    adults,
                    children,
                },
            ),
            ..e
        }).create_check(spot_id, customer_id, check_in as int, check_out as int, adults as int) == Some(
            EngineError::Conflict,
        ),
{
    let r = Reservation {
        id: e.reservations.len() as u64,
        spot_id,
        customer_id,
        check_in,
        check_out,
        status: Status::Hold,
        total_price: stay_price(e.spot(spot_id as int).price_per_night as int, check_in as int, check_out as int) as u64,
        adults,
        children,
    };
    let after = EngineView { reservations: e.reservations.push(r), ..e };
    let last = e.reservations.len() as int;
    assert(after.reservations[last] == r);
    assert(blocks(after.reservations[last], spot_id, check_in as int, check_out as int, None));
}

/// Every stored reservation has a check-in day strictly before its check-out day,
/// and a request for an empty or reversed range is refused with `InvalidRange`.
pub proof fn ranges_stay_valid(
    e: EngineView,
    spot_id: u64,
    customer_id: u64,
    id: u64,
    check_in: int,
    check_out: int,
    adults: int,
)
    requires
        e.wf(),
    ensures
        forall|k: int| 0 <= k < e.reservations.len() ==> #[trigger] e.reservations[k].check_in < e.reservations[k].check_out,
        check_in >= check_out ==> e.create_check(spot_id, customer_id, check_in, check_out, adults) == Some(
            EngineError::InvalidRange,
        ),
        check_in >= check_out && e.has_reservation(id as int) && (e.reservations[id as int].status is Hold
            || e.reservations[id as int].status is Confirmed) ==> e.modify_check(id, check_in, check_out) == Some(
            EngineError::InvalidRange,
        ),
{
}

/// Cancelling a reservation frees its spot over its whole range at once.
pub proof fn cancel_frees_range(e: EngineView, id: u64, today: int)
    requires
        e.wf(),
        e.status_check(id, Status::Cancelled, today) is None,
    ensures
        range_free(
            e.reservations.update(id as int, Reservation { status: Status::Cancelled, ..e.reservations[id as int] }),
            e.reservations[id as int].spot_id,
            e.reservations[id as int].check_in as int,
            e.reservations[id as int].check_out as int,
            None,
        ),
{
    let r = e.reservations[id as int];
    let after = e.reservations.update(id as int, Reservation { status: Status::Cancelled, ..r });
    assert(blocking(r.status));
    assert forall|k: int| 0 <= k < after.len() implies !#[trigger] blocks(
        after[k],
        r.spot_id,
        r.check_in as int,
        r.check_out as int,
        None,
    ) by {
        if k != id as int {
            assert(after[k] == e.reservations[k]);
            if e.reservations[k].spot_id == e.reservations[id as int].spot_id && blocking(e.reservations[k].status) {
                assert(!ranges_overlap(
                    e.reservations[k].check_in as int,
                    e.reservations[k].check_out as int,
                    e.reservations[id as int].check_in as int,
                    e.reservations[id as int].check_out as int,
                ));
            }
        }
    }
}

/// The price of a stay depends on the nightly rate and the number of nights alone.
pub proof fn price_depends_on_nights_only(rate: int, in1: int, out1: int, in2: int, out2: int)
    requires
        out1 - in1 == out2 - in2,
    ensures
        stay_price(rate, in1, out1) == stay_price(rate, in2, out2),
{
}

/// `CheckedOut` and `Cancelled` are terminal: every status change out of them is
/// refused with `InvalidTransition`.
pub proof fn terminal_statuses_are_final(e: EngineView, id: u64, target: Status, today: int)
    requires
        e.has_reservation(id as int),
        terminal(e.reservations[id as int].status),
    ensures
        forall|t: Status| !transition_allowed(e.reservations[id as int].status, t),
        e.status_check(id, target, today) == Some(EngineError::InvalidTransition),
{
}

/// Adding a note leaves the notes already recorded for every reservation as they were,
/// in the same order, and places the new note last among its reservation's notes.
pub proof fn adding_note_keeps_history(notes: Seq<Note>, note: Note, rid: u64)
    ensures
        notes_of(notes.push(note), rid) == (if note.reservation_id == rid {
            notes_of(notes, rid).push(note)
        } else {
            notes_of(notes, rid)
        }),
        notes_of(notes, rid).is_prefix_of(notes_of(notes.push(note), rid)),
{
    assert(notes.push(note).drop_last() =~= notes);
    if note.reservation_id == rid {
        assert(notes_of(notes, rid).push(note).subrange(0, notes_of(notes, rid).len() as int) =~= notes_of(
            notes,
            rid,
        ));
    } else {
        assert(notes_of(notes, rid).subrange(0, notes_of(notes, rid).len() as int) =~= notes_of(notes, rid));
    }
}

proof fn lemma_notes_of_ordered(s: Seq<Note>, rid: u64)
    requires
        forall|n: int| 0 <= n < s.len() ==> (#[trigger] s[n]).id == n,
    ensures
        forall|a: int|
            0 <= a < notes_of(s, rid).len() ==> (#[trigger] notes_of(s, rid)[a]).id < s.len()
                && notes_of(s, rid)[a].reservation_id == rid,
        forall|a: int, b: int|
            0 <= a < b < notes_of(s, rid).len() ==> (#[trigger] notes_of(s, rid)[a]).id
                < (#[trigger] notes_of(s, rid)[b]).id,
    decreases s.len(),
{
    if s.len() > 0 {
        let t = s.drop_last();
        assert forall|n: int| 0 <= n < t.len() implies (#[trigger] t[n]).id == n by {
            assert(t[n] == s[n]);
        }
        lemma_notes_of_ordered(t, rid);
        let rest = notes_of(t, rid);
        assert(s.last().id == s.len() - 1);
        if s.last().reservation_id == rid {
            let out = rest.push(s.last());
            assert(notes_of(s, rid) == out);
            assert forall|a: int| 0 <= a < out.len() implies (#[trigger] out[a]).id < s.len()
                && out[a].reservation_id == rid by {
                if a < rest.len() {
                    assert(out[a] == rest[a]);
                }
            }
            assert forall|a: int, b: int| 0 <= a < b < out.len() implies (#[trigger] out[a]).id
                < (#[trigger] out[b]).id by {
                assert(out[a] == rest[a]);
                assert(rest[a].id < t.len());
                if b < rest.len() {
                    assert(out[b] == rest[b]);
                }
            }
        } else {
            assert(notes_of(s, rid) == rest);
        }
    }
}

/// The notes of a reservation come back oldest first: in strictly increasing order of
/// creation, and each one belongs to that reservation.
pub proof fn notes_in_creation_order(e: EngineView, rid: u64)
    requires
        e.wf(),
    ensures
        forall|a: int, b: int|
            0 <= a < b < notes_of(e.notes, rid).len() ==> (#[trigger] notes_of(e.notes, rid)[a]).id
                < (#[trigger] notes_of(e.notes, rid)[b]).id,
        forall|a: int|
            0 <= a < notes_of(e.notes, rid).len() ==> (#[trigger] notes_of(e.notes, rid)[a]).reservation_id == rid,
{
    lemma_notes_of_ordered(e.notes, rid);
}


/// Over any run of added notes, a reservation's notes come back as the ones it had,
/// followed by exactly the ones added for it, in the order they were added.
pub proof fn notes_follow_additions(earlier: Seq<Note>, added: Seq<Note>, rid: u64)
    ensures
        notes_of(earlier + added, rid) == notes_of(earlier, rid) + notes_of(added, rid),
        (forall|k: int| 0 <= k < added.len() ==> (#[trigger] added[k]).reservation_id == rid) ==> notes_of(
            added,
            rid,
        ) == added,
    decreases added.len(),
{
    if added.len() == 0 {
        assert(earlier + added =~= earlier);
        assert(notes_of(earlier, rid) + notes_of(added, rid) =~= notes_of(earlier, rid));
    } else {
        let init = added.drop_last();
        notes_follow_additions(earlier, init, rid);
        assert((earlier + added).drop_last() =~= earlier + init);
        assert((earlier + added).last() == added.last());
        if added.last().reservation_id == rid {
            assert(notes_of(earlier, rid) + notes_of(init, rid).push(added.last()) =~= (notes_of(earlier, rid)
                + notes_of(init, rid)).push(added.last()));
        }
        if forall|k: int| 0 <= k < added.len() ==> (#[trigger] added[k]).reservation_id == rid {
            assert forall|k: int| 0 <= k < init.len() implies (#[trigger] init[k]).reservation_id == rid by {
                assert(init[k] == added[k]);
            }
            assert(init.push(added.last()) =~= added);
        }
    }
}

} // verus!
