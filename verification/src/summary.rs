//! Headline views derived from the store: the landing-page event summaries
//! and one person's event history, both gated by participation verification.
//!
//! A participant relation carries a verified flag. Unverified rows stay
//! visible in the roster views for administrators, but only verified rows
//! count toward public statistics — the happened-events counts and a
//! person's participation history both apply that gate.

use vstd::prelude::*;

use crate::dates::EventDate;
use crate::error::{Entity, VentError};
use crate::model::{DbEvent, EventV, ParticipantRelV, ParticipantRelation, Person, PrefectRelV};
use crate::roster::event_photos;
use crate::store::{
    event_of, events_has, has_person, lemma_unique_event_ix, lemma_unique_person_ix, person_of,
    Store, StoreV,
};

verus! {

/// The verification gate: a participant relation counts toward public
/// statistics and reward eligibility exactly when it is verified.
pub open spec fn spec_counts_toward_stats(r: ParticipantRelV) -> bool {
    r.is_verified
}

/// The verification gate, on an executable relation row.
pub fn counts_toward_stats(r: &ParticipantRelation) -> (b: bool)
    ensures
        b == spec_counts_toward_stats(r@),
{
    r.is_verified
}

/// How many prefect relations the event has.
pub open spec fn prefect_count(s: StoreV, event_id: int) -> int {
    s.prefects.filter(|r: PrefectRelV| r.event_id == event_id).len() as int
}

/// How many participant relations the event has, verified or not.
pub open spec fn participant_count(s: StoreV, event_id: int) -> int {
    s.participants.filter(|r: ParticipantRelV| r.event_id == event_id).len() as int
}

/// How many verified participant relations the event has: the count that
/// public statistics may use.
pub open spec fn verified_participant_count(s: StoreV, event_id: int) -> int {
    s.participants.filter(
        |r: ParticipantRelV| r.event_id == event_id && spec_counts_toward_stats(r),
    ).len() as int
}

/// How many photo rows the event has.
pub open spec fn photo_count(s: StoreV, event_id: int) -> int {
    event_photos(s, event_id).len() as int
}

/// Spec image of an [`EventRef`].
#[verifier::ext_equal]
pub struct EventRefV {
    pub id: int,
    pub event_name: Seq<char>,
    pub date: EventDate,
}

/// A light reference to an event, as history lists render it.
#[derive(Debug)]
pub struct EventRef {
    pub id: i32,
    pub event_name: String,
    pub date: EventDate,
}

impl View for EventRef {
    type V = EventRefV;

    open spec fn view(&self) -> EventRefV {
        EventRefV { id: self.id as int, event_name: self.event_name@, date: self.date }
    }
}

/// The reference an event renders to.
pub open spec fn event_ref_of(e: EventV) -> EventRefV {
    EventRefV { id: e.id, event_name: e.event_name, date: e.date }
}

/// The events a person supervises as a prefect, in relation order.
pub open spec fn supervised_events(s: StoreV, person_id: int) -> Seq<EventV> {
    s.prefects.filter(|r: PrefectRelV| r.person_id == person_id).map_values(
        |r: PrefectRelV| event_of(s, r.event_id),
    )
}

/// The events a person verifiably took part in, in relation order: the
/// verification gate drops unverified rows here.
pub open spec fn verified_participations(s: StoreV, person_id: int) -> Seq<EventV> {
    s.participants.filter(
        |r: ParticipantRelV| r.person_id == person_id && spec_counts_toward_stats(r),
    ).map_values(|r: ParticipantRelV| event_of(s, r.event_id))
}

/// One person's profile together with their event history.
#[derive(Debug)]
pub struct PersonHistory {
    pub person: Person,
    pub events_supervised: Vec<EventRef>,
    pub events_participated: Vec<EventRef>,
}

impl Store {
    /// Builds one person's history view: their profile, the events they
    /// supervise as a prefect, and the events they verifiably took part in
    /// — unverified participations are visible in rosters but never here.
    /// An unknown person id is reported.
    pub fn person_history(&self, person_id: i32) -> (r: Result<PersonHistory, VentError>)
        requires
            self.wf(),
        ensures
            match r {
                Ok(h) => {
                    &&& has_person(self@, person_id as int)
                    &&& h.person@ == person_of(self@, person_id as int)
                    &&& h.events_supervised@.map_values(|e: EventRef| e@) =~= supervised_events(
                        self@,
                        person_id as int,
                    ).map_values(|e: EventV| event_ref_of(e))
                    &&& h.events_participated@.map_values(|e: EventRef| e@)
                        =~= verified_participations(self@, person_id as int).map_values(
                        |e: EventV| event_ref_of(e),
                    )
                },
                Err(e) => {
                    &&& !has_person(self@, person_id as int)
                    &&& e == (VentError::NotFound { entity: Entity::Person, id: person_id })
                },
            },
    {
        let pix = match self.find_person_index(person_id) {
            Some(pix) => pix,
            None => {
                return Err(VentError::NotFound { entity: Entity::Person, id: person_id });
            },
        };
        proof {
            lemma_unique_person_ix(self@, person_id as int, pix as int);
        }
        let person = self.people[pix].clone();

        let ghost s = self@;
        let ghost spred = |rv: PrefectRelV| rv.person_id == person_id as int;
        let ghost sref = |rv: PrefectRelV| event_ref_of(event_of(s, rv.event_id));
        let mut events_supervised: Vec<EventRef> = Vec::new();
        let mut i: usize = 0;
        proof {
            reveal(Seq::filter);
            assert(s.prefects.take(0) =~= Seq::<PrefectRelV>::empty());
            assert(events_supervised@.map_values(|e: EventRef| e@) =~= s.prefects.take(0).filter(
                spred,
            ).map_values(sref));
        }
        while i < self.prefects.len()
            invariant
                self.wf(),
                i <= self.prefects.len(),
                s == self@,
                spred == (|rv: PrefectRelV| rv.person_id == person_id as int),
                sref == (|rv: PrefectRelV| event_ref_of(event_of(s, rv.event_id))),
                events_supervised@.map_values(|e: EventRef| e@) =~= s.prefects.take(
                    i as int,
                ).filter(spred).map_values(sref),
            decreases self.prefects.len() - i,
        {
            proof {
                reveal(Seq::filter);
                assert(s.prefects.take(i + 1).drop_last() =~= s.prefects.take(i as int));
                assert(s.prefects.take(i + 1).last() == s.prefects[i as int]);
            }
            if self.prefects[i].person_id == person_id {
                proof {
                    assert(events_has(s.events, s.prefects[i as int].event_id));
                }
                let eix = match self.find_event_index(self.prefects[i].event_id) {
                    Some(eix) => eix,
                    None => {
                        proof {
                            assert(false);
                        }
                        0
                    },
                };
                proof {
                    lemma_unique_event_ix(s, s.prefects[i as int].event_id, eix as int);
                }
                let ev = &self.events[eix];
                events_supervised.push(
                    EventRef { id: ev.id, event_name: ev.event_name.clone(), date: ev.date },
                );
                proof {
                    assert(spred(s.prefects[i as int]));
                    assert(s.prefects.take(i + 1).filter(spred) =~= s.prefects.take(
                        i as int,
                    ).filter(spred).push(s.prefects[i as int]));
                    assert(event_of(s, s.prefects[i as int].event_id) == s.events[eix as int]);
                    assert(events_supervised@.last()@ == sref(s.prefects[i as int]));
                    assert(s.prefects.take(i + 1).filter(spred).map_values(sref)
                        =~= s.prefects.take(i as int).filter(spred).map_values(sref).push(
                        sref(s.prefects[i as int]),
                    ));
                    assert(events_supervised@.map_values(|e: EventRef| e@)
                        =~= events_supervised@.drop_last().map_values(|e: EventRef| e@).push(
                        events_supervised@.last()@,
                    ));
                }
            } else {
                proof {
                    assert(!spred(s.prefects[i as int]));
                    assert(s.prefects.take(i + 1).filter(spred) =~= s.prefects.take(
                        i as int,
                    ).filter(spred));
                }
            }
            i = i + 1;
        }
        proof {
            assert(s.prefects.take(self.prefects.len() as int) =~= s.prefects);
        }

        let ghost ppred = |rv: ParticipantRelV| rv.person_id == person_id as int
            && spec_counts_toward_stats(rv);
        let ghost pref = |rv: ParticipantRelV| event_ref_of(event_of(s, rv.event_id));
        let mut events_participated: Vec<EventRef> = Vec::new();
        let mut j: usize = 0;
        proof {
            reveal(Seq::filter);
            assert(s.participants.take(0) =~= Seq::<ParticipantRelV>::empty());
            assert(events_participated@.map_values(|e: EventRef| e@) =~= s.participants.take(
                0,
            ).filter(ppred).map_values(pref));
        }
        while j < self.participants.len()
            invariant
                self.wf(),
                j <= self.participants.len(),
                s == self@,
                ppred == (|rv: ParticipantRelV| rv.person_id == person_id as int
                    && spec_counts_toward_stats(rv)),
                pref == (|rv: ParticipantRelV| event_ref_of(event_of(s, rv.event_id))),
                events_participated@.map_values(|e: EventRef| e@) =~= s.participants.take(
                    j as int,
                ).filter(ppred).map_values(pref),
            decreases self.participants.len() - j,
        {
            proof {
                reveal(Seq::filter);
                assert(s.participants.take(j + 1).drop_last() =~= s.participants.take(j as int));
                assert(s.participants.take(j + 1).last() == s.participants[j as int]);
            }
            if self.participants[j].person_id == person_id && counts_toward_stats(
                &self.participants[j],
            ) {
                proof {
                    assert(events_has(s.events, s.participants[j as int].event_id));
                }
                let eix = match self.find_event_index(self.participants[j].event_id) {
                    Some(eix) => eix,
                    None => {
                        proof {
                            assert(false);
                        }
                        0
                    },
                };
                proof {
                    lemma_unique_event_ix(s, s.participants[j as int].event_id, eix as int);
                }
                let ev = &self.events[eix];
                events_participated.push(
                    EventRef { id: ev.id, event_name: ev.event_name.clone(), date: ev.date },
                );
                proof {
                    assert(ppred(s.participants[j as int]));
                    assert(s.participants.take(j + 1).filter(ppred) =~= s.participants.take(
                        j as int,
                    ).filter(ppred).push(s.participants[j as int]));
                    assert(event_of(s, s.participants[j as int].event_id) == s.events[eix as int]);
                    assert(events_participated@.last()@ == pref(s.participants[j as int]));
                    assert(s.participants.take(j + 1).filter(ppred).map_values(pref)
                        =~= s.participants.take(j as int).filter(ppred).map_values(pref).push(
                        pref(s.participants[j as int]),
                    ));
                    assert(events_participated@.map_values(|e: EventRef| e@)
                        =~= events_participated@.drop_last().map_values(|e: EventRef| e@).push(
                        events_participated@.last()@,
                    ));
                }
            } else {
                proof {
                    assert(!ppred(s.participants[j as int]));
                    assert(s.participants.take(j + 1).filter(ppred) =~= s.participants.take(
                        j as int,
                    ).filter(ppred));
                }
            }
            j = j + 1;
        }
        proof {
            assert(s.participants.take(self.participants.len() as int) =~= s.participants);
        }

        Ok(PersonHistory { person, events_supervised, events_participated })
    }
}

/// Spec image of a [`WholeEvent`].
#[verifier::ext_equal]
pub struct WholeEventV {
    pub event: EventV,
    pub participants: int,
    pub prefects: int,
    pub no_photos: int,
}

/// One landing-page line: an event and its headline counts.
#[derive(Debug)]
pub struct WholeEvent {
    pub event: DbEvent,
    pub participants: usize,
    pub prefects: usize,
    pub no_photos: usize,
}

impl View for WholeEvent {
    type V = WholeEventV;

    open spec fn view(&self) -> WholeEventV {
        WholeEventV {
            event: self.event@,
            participants: self.participants as int,
            prefects: self.prefects as int,
            no_photos: self.no_photos as int,
        }
    }
}

/// The landing-page view: the next events to happen, earliest first, and
/// the latest events that already happened, most recent first.
#[derive(Debug)]
pub struct IndexView {
    pub events_to_happen: Vec<WholeEvent>,
    pub happened_events: Vec<WholeEvent>,
}

/// The events scheduled after the cutoff, in store order.
pub open spec fn upcoming_events(s: StoreV, cutoff: EventDate) -> Seq<EventV> {
    s.events.filter(|e: EventV| !e.date.spec_le(cutoff))
}

/// The events scheduled before the cutoff, in store order.
pub open spec fn happened_events(s: StoreV, cutoff: EventDate) -> Seq<EventV> {
    s.events.filter(|e: EventV| !cutoff.spec_le(e.date))
}

/// Events in ascending date order.
pub open spec fn events_sorted_asc(evs: Seq<EventV>) -> bool {
    forall|i: int, j: int|
        0 <= i < j < evs.len() ==> (#[trigger] evs[i]).date.spec_le((#[trigger] evs[j]).date)
}

/// Events in descending date order.
pub open spec fn events_sorted_desc(evs: Seq<EventV>) -> bool {
    forall|i: int, j: int|
        0 <= i < j < evs.len() ==> (#[trigger] evs[j]).date.spec_le((#[trigger] evs[i]).date)
}

/// The events behind a list of landing-page lines.
pub open spec fn entries_events(ws: Seq<WholeEventV>) -> Seq<EventV> {
    ws.map_values(|w: WholeEventV| w.event)
}

/// An upcoming line counts prefects, all participants, and photos.
pub open spec fn upcoming_entry_ok(s: StoreV, w: WholeEventV) -> bool {
    &&& w.prefects == prefect_count(s, w.event.id)
    &&& w.participants == participant_count(s, w.event.id)
    &&& w.no_photos == photo_count(s, w.event.id)
}

/// A happened line counts prefects, only verified participants — the
/// verification gate — and photos.
pub open spec fn happened_entry_ok(s: StoreV, w: WholeEventV) -> bool {
    &&& w.prefects == prefect_count(s, w.event.id)
    &&& w.participants == verified_participant_count(s, w.event.id)
    &&& w.no_photos == photo_count(s, w.event.id)
}

impl Store {
    /// How many prefect relations the event has.
    pub fn count_prefects(&self, event_id: i32) -> (n: usize)
        ensures
            n == prefect_count(self@, event_id as int),
    {
        let ghost s = self@;
        let ghost pred = |r: PrefectRelV| r.event_id == event_id as int;
        let mut n: usize = 0;
        let mut i: usize = 0;
        proof {
            reveal(Seq::filter);
            assert(s.prefects.take(0) =~= Seq::<PrefectRelV>::empty());
        }
        while i < self.prefects.len()
            invariant
                i <= self.prefects.len(),
                s == self@,
                pred == (|r: PrefectRelV| r.event_id == event_id as int),
                n == s.prefects.take(i as int).filter(pred).len(),
                n <= i,
            decreases self.prefects.len() - i,
        {
            proof {
                reveal(Seq::filter);
                assert(s.prefects.take(i + 1).drop_last() =~= s.prefects.take(i as int));
                assert(s.prefects.take(i + 1).last() == s.prefects[i as int]);
            }
            if self.prefects[i].event_id == event_id {
                n = n + 1;
            }
            i = i + 1;
        }
        proof {
            assert(s.prefects.take(self.prefects.len() as int) =~= s.prefects);
        }
        n
    }

    /// How many participant relations the event has, verified or not.
    pub fn count_participants(&self, event_id: i32) -> (n: usize)
        ensures
            n == participant_count(self@, event_id as int),
    {
        let ghost s = self@;
        let ghost pred = |r: ParticipantRelV| r.event_id == event_id as int;
        let mut n: usize = 0;
        let mut i: usize = 0;
        proof {
            reveal(Seq::filter);
            assert(s.participants.take(0) =~= Seq::<ParticipantRelV>::empty());
        }
        while i < self.participants.len()
            invariant
                i <= self.participants.len(),
                s == self@,
                pred == (|r: ParticipantRelV| r.event_id == event_id as int),
                n == s.participants.take(i as int).filter(pred).len(),
                n <= i,
            decreases self.participants.len() - i,
        {
            proof {
                reveal(Seq::filter);
                assert(s.participants.take(i + 1).drop_last() =~= s.participants.take(i as int));
                assert(s.participants.take(i + 1).last() == s.participants[i as int]);
            }
            if self.participants[i].event_id == event_id {
                n = n + 1;
            }
            i = i + 1;
        }
        proof {
            assert(s.participants.take(self.participants.len() as int) =~= s.participants);
        }
        n
    }

    /// How many verified participant relations the event has: the count the
    /// verification gate lets through.
    pub fn count_verified_participants(&self, event_id: i32) -> (n: usize)
        ensures
            n == verified_participant_count(self@, event_id as int),
    {
        let ghost s = self@;
        let ghost pred = |r: ParticipantRelV| r.event_id == event_id as int
            && spec_counts_toward_stats(r);
        let mut n: usize = 0;
        let mut i: usize = 0;
        proof {
            reveal(Seq::filter);
            assert(s.participants.take(0) =~= Seq::<ParticipantRelV>::empty());
        }
        while i < self.participants.len()
            invariant
                i <= self.participants.len(),
                s == self@,
                pred == (|r: ParticipantRelV| r.event_id == event_id as int
                    && spec_counts_toward_stats(r)),
                n == s.participants.take(i as int).filter(pred).len(),
                n <= i,
            decreases self.participants.len() - i,
        {
            proof {
                reveal(Seq::filter);
                assert(s.participants.take(i + 1).drop_last() =~= s.participants.take(i as int));
                assert(s.participants.take(i + 1).last() == s.participants[i as int]);
            }
            if self.participants[i].event_id == event_id && counts_toward_stats(
                &self.participants[i],
            ) {
                n = n + 1;
            }
            i = i + 1;
        }
        proof {
            assert(s.participants.take(self.participants.len() as int) =~= s.participants);
        }
        n
    }

    /// How many photo rows the event has.
    pub fn count_photos(&self, event_id: i32) -> (n: usize)
        ensures
            n == photo_count(self@, event_id as int),
    {
        let ghost s = self@;
        let ghost pred = |p: crate::model::PhotoV| p.event_id == event_id as int;
        let mut n: usize = 0;
        let mut i: usize = 0;
        proof {
            reveal(Seq::filter);
            assert(s.photos.take(0) =~= Seq::<crate::model::PhotoV>::empty());
        }
        while i < self.photos.len()
            invariant
                i <= self.photos.len(),
                s == self@,
                pred == (|p: crate::model::PhotoV| p.event_id == event_id as int),
                n == s.photos.take(i as int).filter(pred).len(),
                n <= i,
            decreases self.photos.len() - i,
        {
            proof {
                reveal(Seq::filter);
                assert(s.photos.take(i + 1).drop_last() =~= s.photos.take(i as int));
                assert(s.photos.take(i + 1).last() == s.photos[i as int]);
            }
            if self.photos[i].event_id == event_id {
                n = n + 1;
            }
            i = i + 1;
        }
        proof {
            assert(s.photos.take(self.photos.len() as int) =~= s.photos);
        }
        n
    }
}

/// Sorts events into ascending date order.
fn sort_events_asc(v: Vec<DbEvent>) -> (r: Vec<DbEvent>)
    ensures
        r@.map_values(|e: DbEvent| e@).to_multiset() == v@.map_values(
            |e: DbEvent| e@,
        ).to_multiset(),
        events_sorted_asc(r@.map_values(|e: DbEvent| e@)),
{
    broadcast use vstd::seq_lib::group_to_multiset_ensures;

    let ghost orig = v@.map_values(|e: DbEvent| e@);
    let mut v = v;
    let mut r: Vec<DbEvent> = Vec::new();
    proof {
        assert(r@.map_values(|e: DbEvent| e@) =~= Seq::<EventV>::empty());
        assert(r@.map_values(|e: DbEvent| e@).to_multiset().add(
            v@.map_values(|e: DbEvent| e@).to_multiset(),
        ) =~= orig.to_multiset());
    }
    while v.len() > 0
        invariant
            events_sorted_asc(r@.map_values(|e: DbEvent| e@)),
            r@.map_values(|e: DbEvent| e@).to_multiset().add(
                v@.map_values(|e: DbEvent| e@).to_multiset(),
            ) == orig.to_multiset(),
        decreases v.len(),
    {
        let ghost rv0 = r@.map_values(|e: DbEvent| e@);
        let ghost vv0 = v@.map_values(|e: DbEvent| e@);
        let x = match v.pop() {
            Some(x) => x,
            None => {
                proof {
                    assert(false);
                }
                continue
            },
        };
        proof {
            assert(v@.map_values(|e: DbEvent| e@).push(x@) =~= vv0);
            vstd::seq_lib::to_multiset_build(v@.map_values(|e: DbEvent| e@), x@);
        }
        let mut k: usize = 0;
        while k < r.len() && r[k].date.le(&x.date)
            invariant_except_break
                k <= r.len(),
                rv0 == r@.map_values(|e: DbEvent| e@),
                forall|m: int| 0 <= m < k ==> (#[trigger] rv0[m]).date.spec_le(x@.date),
            ensures
                k <= r.len(),
                rv0 == r@.map_values(|e: DbEvent| e@),
                forall|m: int| 0 <= m < k ==> (#[trigger] rv0[m]).date.spec_le(x@.date),
                k < r.len() ==> !rv0[k as int].date.spec_le(x@.date),
            decreases r.len() - k,
        {
            k = k + 1;
        }
        r.insert(k, x);
        proof {
            let rv1 = r@.map_values(|e: DbEvent| e@);
            assert(rv1 =~= rv0.insert(k as int, x@));
            vstd::seq_lib::to_multiset_insert(rv0, k as int, x@);
            assert(rv1.to_multiset().add(v@.map_values(|e: DbEvent| e@).to_multiset())
                =~= orig.to_multiset());
            assert forall|m: int, l: int|
                0 <= m < l < rv1.len() implies (#[trigger] rv1[m]).date.spec_le(
                (#[trigger] rv1[l]).date,
            ) by {
                if l < k as int {
                    assert(rv1[m] == rv0[m] && rv1[l] == rv0[l]);
                } else if l == k as int {
                    assert(rv1[m] == rv0[m]);
                } else {
                    if m < k as int {
                        assert(rv1[m] == rv0[m] && rv1[l] == rv0[l - 1]);
                    } else if m == k as int {
                        assert(rv1[l] == rv0[l - 1]);
                    } else {
                        assert(rv1[m] == rv0[m - 1] && rv1[l] == rv0[l - 1]);
                    }
                }
            }
        }
    }
    proof {
        assert(v@.map_values(|e: DbEvent| e@) =~= Seq::<EventV>::empty());
        assert(r@.map_values(|e: DbEvent| e@).to_multiset() =~= orig.to_multiset());
    }
    r
}

/// Sorts events into descending date order.
fn sort_events_desc(v: Vec<DbEvent>) -> (r: Vec<DbEvent>)
    ensures
        r@.map_values(|e: DbEvent| e@).to_multiset() == v@.map_values(
            |e: DbEvent| e@,
        ).to_multiset(),
        events_sorted_desc(r@.map_values(|e: DbEvent| e@)),
{
    broadcast use vstd::seq_lib::group_to_multiset_ensures;

    let ghost orig = v@.map_values(|e: DbEvent| e@);
    let mut v = v;
    let mut r: Vec<DbEvent> = Vec::new();
    proof {
        assert(r@.map_values(|e: DbEvent| e@) =~= Seq::<EventV>::empty());
        assert(r@.map_values(|e: DbEvent| e@).to_multiset().add(
            v@.map_values(|e: DbEvent| e@).to_multiset(),
        ) =~= orig.to_multiset());
    }
    while v.len() > 0
        invariant
            events_sorted_desc(r@.map_values(|e: DbEvent| e@)),
            r@.map_values(|e: DbEvent| e@).to_multiset().add(
                v@.map_values(|e: DbEvent| e@).to_multiset(),
            ) == orig.to_multiset(),
        decreases v.len(),
    {
        let ghost rv0 = r@.map_values(|e: DbEvent| e@);
        let ghost vv0 = v@.map_values(|e: DbEvent| e@);
        let x = match v.pop() {
            Some(x) => x,
            None => {
                proof {
                    assert(false);
                }
                continue
            },
        };
        proof {
            assert(v@.map_values(|e: DbEvent| e@).push(x@) =~= vv0);
            vstd::seq_lib::to_multiset_build(v@.map_values(|e: DbEvent| e@), x@);
        }
        let mut k: usize = 0;
        while k < r.len() && x.date.le(&r[k].date)
            invariant_except_break
                k <= r.len(),
                rv0 == r@.map_values(|e: DbEvent| e@),
                forall|m: int| 0 <= m < k ==> x@.date.spec_le((#[trigger] rv0[m]).date),
            ensures
                k <= r.len(),
                rv0 == r@.map_values(|e: DbEvent| e@),
                forall|m: int| 0 <= m < k ==> x@.date.spec_le((#[trigger] rv0[m]).date),
                k < r.len() ==> !x@.date.spec_le(rv0[k as int].date),
            decreases r.len() - k,
        {
            k = k + 1;
        }
        r.insert(k, x);
        proof {
            let rv1 = r@.map_values(|e: DbEvent| e@);
            assert(rv1 =~= rv0.insert(k as int, x@));
            vstd::seq_lib::to_multiset_insert(rv0, k as int, x@);
            assert(rv1.to_multiset().add(v@.map_values(|e: DbEvent| e@).to_multiset())
                =~= orig.to_multiset());
            assert forall|m: int, l: int|
                0 <= m < l < rv1.len() implies (#[trigger] rv1[l]).date.spec_le(
                (#[trigger] rv1[m]).date,
            ) by {
                if l < k as int {
                    assert(rv1[m] == rv0[m] && rv1[l] == rv0[l]);
                } else if l == k as int {
                    assert(rv1[m] == rv0[m]);
                } else {
                    if m < k as int {
                        assert(rv1[m] == rv0[m] && rv1[l] == rv0[l - 1]);
                    } else if m == k as int {
                        assert(rv1[l] == rv0[l - 1]);
                    } else {
                        assert(rv1[m] == rv0[m - 1] && rv1[l] == rv0[l - 1]);
                    }
                }
            }
        }
    }
    proof {
        assert(v@.map_values(|e: DbEvent| e@) =~= Seq::<EventV>::empty());
        assert(r@.map_values(|e: DbEvent| e@).to_multiset() =~= orig.to_multiset());
    }
    r
}

/// Cutting a sorted event list after its first `n` entries keeps it sorted,
/// keeps its multiset within the source, and leaves out only events no
/// earlier than everything kept.
proof fn lemma_sorted_prefix_asc(up: Seq<EventV>, sorted: Seq<EventV>, n: int)
    requires
        sorted.to_multiset() == up.to_multiset(),
        events_sorted_asc(sorted),
        0 <= n <= sorted.len(),
    ensures
        events_sorted_asc(sorted.take(n)),
        forall|x: EventV| #[trigger]
            sorted.take(n).to_multiset().count(x) <= up.to_multiset().count(x),
        forall|x: EventV|
            up.to_multiset().count(x) > #[trigger] sorted.take(n).to_multiset().count(x)
                ==> forall|i: int|
                0 <= i < n ==> (#[trigger] sorted.take(n)[i]).date.spec_le(x.date),
{
    broadcast use vstd::seq_lib::group_to_multiset_ensures;
    broadcast use vstd::multiset::group_multiset_axioms;

    let listed = sorted.take(n);
    let rest = sorted.skip(n);
    assert(sorted =~= listed + rest);
    vstd::seq_lib::lemma_multiset_commutative(listed, rest);
    assert forall|x: EventV|
        up.to_multiset().count(x) > #[trigger] listed.to_multiset().count(x) implies forall|
        i: int,
    |
        0 <= i < n ==> (#[trigger] listed[i]).date.spec_le(x.date) by {
        assert(rest.to_multiset().count(x) > 0);
        assert(rest.contains(x));
        let j = choose|j: int| 0 <= j < rest.len() && rest[j] == x;
        assert(sorted[n + j] == x);
        assert forall|i: int| 0 <= i < n implies (#[trigger] listed[i]).date.spec_le(
            x.date,
        ) by {
            assert(listed[i] == sorted[i]);
            assert(sorted[i].date.spec_le(sorted[n + j].date));
        }
    }
}

/// The descending counterpart of [`lemma_sorted_prefix_asc`]: the entries
/// left out are no later than everything kept.
proof fn lemma_sorted_prefix_desc(up: Seq<EventV>, sorted: Seq<EventV>, n: int)
    requires
        sorted.to_multiset() == up.to_multiset(),
        events_sorted_desc(sorted),
        0 <= n <= sorted.len(),
    ensures
        events_sorted_desc(sorted.take(n)),
        forall|x: EventV| #[trigger]
            sorted.take(n).to_multiset().count(x) <= up.to_multiset().count(x),
        forall|x: EventV|
            up.to_multiset().count(x) > #[trigger] sorted.take(n).to_multiset().count(x)
                ==> forall|i: int|
                0 <= i < n ==> x.date.spec_le((#[trigger] sorted.take(n)[i]).date),
{
    broadcast use vstd::seq_lib::group_to_multiset_ensures;
    broadcast use vstd::multiset::group_multiset_axioms;

    let listed = sorted.take(n);
    let rest = sorted.skip(n);
    assert(sorted =~= listed + rest);
    vstd::seq_lib::lemma_multiset_commutative(listed, rest);
    assert forall|x: EventV|
        up.to_multiset().count(x) > #[trigger] listed.to_multiset().count(x) implies forall|
        i: int,
    |
        0 <= i < n ==> x.date.spec_le((#[trigger] listed[i]).date) by {
        assert(rest.to_multiset().count(x) > 0);
        assert(rest.contains(x));
        let j = choose|j: int| 0 <= j < rest.len() && rest[j] == x;
        assert(sorted[n + j] == x);
        assert forall|i: int| 0 <= i < n implies x.date.spec_le(
            (#[trigger] listed[i]).date,
        ) by {
            assert(listed[i] == sorted[i]);
            assert(sorted[n + j].date.spec_le(sorted[i].date));
        }
    }
}

impl Store {
    /// Builds the landing-page view around the given cutoff — in a
    /// request flow the clock twelve hours ago, supplied by the caller
    /// since the clock is outside this library.
    ///
    /// Events after the cutoff come back earliest first, at most fifteen,
    /// counting all participants; events before the cutoff come back most
    /// recent first, at most ten, counting only verified participants — the
    /// verification gate on public statistics. Anything cut off by the two
    /// limits is no nearer the cutoff than what is shown.
    pub fn index_view(&self, cutoff: EventDate) -> (r: IndexView)
        requires
            self.wf(),
        ensures
            ({
                let up = upcoming_events(self@, cutoff);
                let evs = entries_events(r.events_to_happen@.map_values(|w: WholeEvent| w@));
                &&& forall|k: int|
                    0 <= k < r.events_to_happen@.len() ==> upcoming_entry_ok(
                        self@,
                        (#[trigger] r.events_to_happen@[k])@,
                    )
                &&& events_sorted_asc(evs)
                &&& evs.len() == (if up.len() <= 15 {
                    up.len() as int
                } else {
                    15
                })
                &&& forall|x: EventV| #[trigger]
                    evs.to_multiset().count(x) <= up.to_multiset().count(x)
                &&& forall|x: EventV|
                    up.to_multiset().count(x) > #[trigger] evs.to_multiset().count(x)
                        ==> forall|i: int|
                        0 <= i < evs.len() ==> (#[trigger] evs[i]).date.spec_le(x.date)
            }),
            ({
                let hp = happened_events(self@, cutoff);
                let evs = entries_events(r.happened_events@.map_values(|w: WholeEvent| w@));
                &&& forall|k: int|
                    0 <= k < r.happened_events@.len() ==> happened_entry_ok(
                        self@,
                        (#[trigger] r.happened_events@[k])@,
                    )
                &&& events_sorted_desc(evs)
                &&& evs.len() == (if hp.len() <= 10 {
                    hp.len() as int
                } else {
                    10
                })
                &&& forall|x: EventV| #[trigger]
                    evs.to_multiset().count(x) <= hp.to_multiset().count(x)
                &&& forall|x: EventV|
                    hp.to_multiset().count(x) > #[trigger] evs.to_multiset().count(x)
                        ==> forall|i: int|
                        0 <= i < evs.len() ==> x.date.spec_le((#[trigger] evs[i]).date)
            }),
    {
        let ghost s = self@;

        let ghost upred = |e: EventV| !e.date.spec_le(cutoff);
        let mut upcoming: Vec<DbEvent> = Vec::new();
        let mut i: usize = 0;
        proof {
            reveal(Seq::filter);
            assert(s.events.take(0) =~= Seq::<EventV>::empty());
            assert(upcoming@.map_values(|e: DbEvent| e@) =~= s.events.take(0).filter(upred));
        }
        while i < self.events.len()
            invariant
                i <= self.events.len(),
                s == self@,
                upred == (|e: EventV| !e.date.spec_le(cutoff)),
                upcoming@.map_values(|e: DbEvent| e@) =~= s.events.take(i as int).filter(upred),
            decreases self.events.len() - i,
        {
            proof {
                reveal(Seq::filter);
                assert(s.events.take(i + 1).drop_last() =~= s.events.take(i as int));
                assert(s.events.take(i + 1).last() == s.events[i as int]);
            }
            if !self.events[i].date.le(&cutoff) {
                upcoming.push(self.events[i].clone());
                proof {
                    assert(upred(s.events[i as int]));
                    assert(s.events.take(i + 1).filter(upred) =~= s.events.take(i as int).filter(
                        upred,
                    ).push(s.events[i as int]));
                }
            } else {
                proof {
                    assert(!upred(s.events[i as int]));
                    assert(s.events.take(i + 1).filter(upred) =~= s.events.take(i as int).filter(
                        upred,
                    ));
                }
            }
            i = i + 1;
        }
        proof {
            assert(s.events.take(self.events.len() as int) =~= s.events);
        }
        let mut sorted_up = sort_events_asc(upcoming);
        let ghost sorted_up_full = sorted_up@.map_values(|e: DbEvent| e@);
        if sorted_up.len() > 15 {
            sorted_up.truncate(15);
        }
        let ghost upn = if sorted_up_full.len() <= 15 {
            sorted_up_full.len() as int
        } else {
            15
        };
        proof {
            lemma_sorted_prefix_asc(upcoming_events(s, cutoff), sorted_up_full, upn);
            assert(sorted_up@.map_values(|e: DbEvent| e@) =~= sorted_up_full.take(upn));
        }
        let mut events_to_happen: Vec<WholeEvent> = Vec::new();
        let mut i: usize = 0;
        proof {
            assert(entries_events(events_to_happen@.map_values(|w: WholeEvent| w@))
                =~= sorted_up@.map_values(|e: DbEvent| e@).take(0));
        }
        while i < sorted_up.len()
            invariant
                self.wf(),
                i <= sorted_up.len(),
                s == self@,
                events_to_happen@.len() == i,
                forall|k: int|
                    0 <= k < i ==> upcoming_entry_ok(s, (#[trigger] events_to_happen@[k])@),
                entries_events(events_to_happen@.map_values(|w: WholeEvent| w@))
                    =~= sorted_up@.map_values(|e: DbEvent| e@).take(i as int),
            decreases sorted_up.len() - i,
        {
            let event_id = sorted_up[i].id;
            let prefects = self.count_prefects(event_id);
            let participants = self.count_participants(event_id);
            let no_photos = self.count_photos(event_id);
            events_to_happen.push(
                WholeEvent { event: sorted_up[i].clone(), participants, prefects, no_photos },
            );
            proof {
                assert(events_to_happen@.last()@.event == sorted_up@.map_values(
                    |e: DbEvent| e@,
                )[i as int]);
                assert(entries_events(events_to_happen@.map_values(|w: WholeEvent| w@))
                    =~= sorted_up@.map_values(|e: DbEvent| e@).take(i + 1));
            }
            i = i + 1;
        }
        proof {
            assert(sorted_up@.map_values(|e: DbEvent| e@).take(sorted_up@.len() as int)
                =~= sorted_up@.map_values(|e: DbEvent| e@));
        }

        let ghost hpred = |e: EventV| !cutoff.spec_le(e.date);
        let mut happened: Vec<DbEvent> = Vec::new();
        let mut i: usize = 0;
        proof {
            reveal(Seq::filter);
            assert(s.events.take(0) =~= Seq::<EventV>::empty());
            assert(happened@.map_values(|e: DbEvent| e@) =~= s.events.take(0).filter(hpred));
        }
        while i < self.events.len()
            invariant
                i <= self.events.len(),
                s == self@,
                hpred == (|e: EventV| !cutoff.spec_le(e.date)),
                happened@.map_values(|e: DbEvent| e@) =~= s.events.take(i as int).filter(hpred),
            decreases self.events.len() - i,
        {
            proof {
                reveal(Seq::filter);
                assert(s.events.take(i + 1).drop_last() =~= s.events.take(i as int));
                assert(s.events.take(i + 1).last() == s.events[i as int]);
            }
            if !cutoff.le(&self.events[i].date) {
                happened.push(self.events[i].clone());
                proof {
                    assert(hpred(s.events[i as int]));
                    assert(s.events.take(i + 1).filter(hpred) =~= s.events.take(i as int).filter(
                        hpred,
                    ).push(s.events[i as int]));
                }
            } else {
                proof {
                    assert(!hpred(s.events[i as int]));
                    assert(s.events.take(i + 1).filter(hpred) =~= s.events.take(i as int).filter(
                        hpred,
                    ));
                }
            }
            i = i + 1;
        }
        proof {
            assert(s.events.take(self.events.len() as int) =~= s.events);
        }
        let mut sorted_hp = sort_events_desc(happened);
        let ghost sorted_hp_full = sorted_hp@.map_values(|e: DbEvent| e@);
        if sorted_hp.len() > 10 {
            sorted_hp.truncate(10);
        }
        let ghost hpn = if sorted_hp_full.len() <= 10 {
            sorted_hp_full.len() as int
        } else {
            10
        };
        proof {
            lemma_sorted_prefix_desc(happened_events(s, cutoff), sorted_hp_full, hpn);
            assert(sorted_hp@.map_values(|e: DbEvent| e@) =~= sorted_hp_full.take(hpn));
        }
        let mut happened_entries: Vec<WholeEvent> = Vec::new();
        let mut i: usize = 0;
        proof {
            assert(entries_events(happened_entries@.map_values(|w: WholeEvent| w@))
                =~= sorted_hp@.map_values(|e: DbEvent| e@).take(0));
        }
        while i < sorted_hp.len()
            invariant
                self.wf(),
                i <= sorted_hp.len(),
                s == self@,
                happened_entries@.len() == i,
                forall|k: int|
                    0 <= k < i ==> happened_entry_ok(s, (#[trigger] happened_entries@[k])@),
                entries_events(happened_entries@.map_values(|w: WholeEvent| w@))
                    =~= sorted_hp@.map_values(|e: DbEvent| e@).take(i as int),
            decreases sorted_hp.len() - i,
        {
            let event_id = sorted_hp[i].id;
            let prefects = self.count_prefects(event_id);
            let participants = self.count_verified_participants(event_id);
            let no_photos = self.count_photos(event_id);
            happened_entries.push(
                WholeEvent { event: sorted_hp[i].clone(), participants, prefects, no_photos },
            );
            proof {
                assert(happened_entries@.last()@.event == sorted_hp@.map_values(
                    |e: DbEvent| e@,
                )[i as int]);
                assert(entries_events(happened_entries@.map_values(|w: WholeEvent| w@))
                    =~= sorted_hp@.map_values(|e: DbEvent| e@).take(i + 1));
            }
            i = i + 1;
        }
        proof {
            assert(sorted_hp@.map_values(|e: DbEvent| e@).take(sorted_hp@.len() as int)
                =~= sorted_hp@.map_values(|e: DbEvent| e@));
        }

        proof {
            broadcast use vstd::seq_lib::group_to_multiset_ensures;

            let up = upcoming_events(s, cutoff);
            assert(sorted_up_full.to_multiset() == up.to_multiset());
            assert(sorted_up_full.len() == sorted_up_full.to_multiset().len());
            assert(up.len() == up.to_multiset().len());
            assert(sorted_up_full.len() == up.len());
            assert(entries_events(events_to_happen@.map_values(|w: WholeEvent| w@))
                =~= sorted_up_full.take(upn));

            let hp = happened_events(s, cutoff);
            assert(sorted_hp_full.to_multiset() == hp.to_multiset());
            assert(sorted_hp_full.len() == sorted_hp_full.to_multiset().len());
            assert(hp.len() == hp.to_multiset().len());
            assert(sorted_hp_full.len() == hp.len());
            assert(entries_events(happened_entries@.map_values(|w: WholeEvent| w@))
                =~= sorted_hp_full.take(hpn));
        }
        IndexView { events_to_happen, happened_events: happened_entries }
    }
}

} // verus!
