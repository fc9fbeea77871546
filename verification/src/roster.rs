//! The roster aggregator: cohort-grouped views of an event's people.
//!
//! For one event the aggregator computes four lists — existing prefects,
//! existing participants, and the people who could still be added in either
//! role — each grouped by cohort ("form") and presented in ascending form
//! order, with a deterministic order inside every group: existing rows in
//! relation order, eligible people in people-table order.

use vstd::prelude::*;

use crate::error::{Entity, VentError};
use crate::lex::{lemma_lex_total, lemma_lex_transitive, lex_le, str_le};
use crate::model::{DbEvent, ParticipantRelV, Person, PersonV, Photo, PhotoV, PrefectRelV};
use crate::store::{
    event_of, has_event, lemma_filter_element_index, lemma_unique_event_ix,
    lemma_unique_person_ix, participants_has_pair, people_has, person_ix, person_of,
    prefects_has_pair, store_wf, Store, StoreV,
};

verus! {

/// Spec image of a [`PersonPlusRelId`].
#[verifier::ext_equal]
pub struct PersonPlusRelIdV {
    pub id: int,
    pub first_name: Seq<char>,
    pub surname: Seq<char>,
    pub form: Seq<char>,
    pub relation_id: int,
}

/// One existing-roster row: a person joined with the relation that enrolls
/// them, so the rendered view can offer removal by relation id.
#[derive(Debug)]
pub struct PersonPlusRelId {
    pub id: i32,
    pub first_name: String,
    pub surname: String,
    pub form: String,
    pub relation_id: i32,
}

impl View for PersonPlusRelId {
    type V = PersonPlusRelIdV;

    open spec fn view(&self) -> PersonPlusRelIdV {
        PersonPlusRelIdV {
            id: self.id as int,
            first_name: self.first_name@,
            surname: self.surname@,
            form: self.form@,
            relation_id: self.relation_id as int,
        }
    }
}

impl Clone for PersonPlusRelId {
    fn clone(&self) -> (r: Self)
        ensures
            r@ == self@,
    {
        PersonPlusRelId {
            id: self.id,
            first_name: self.first_name.clone(),
            surname: self.surname.clone(),
            form: self.form.clone(),
            relation_id: self.relation_id,
        }
    }
}

/// Spec image of a [`RelFormGroup`].
#[verifier::ext_equal]
pub struct RelFormGroupV {
    pub form: Seq<char>,
    pub people: Seq<PersonPlusRelIdV>,
}

/// One cohort of an existing-roster list: the form label and its enrolled
/// people in relation order.
#[derive(Debug)]
pub struct RelFormGroup {
    pub form: String,
    pub people: Vec<PersonPlusRelId>,
}

impl View for RelFormGroup {
    type V = RelFormGroupV;

    open spec fn view(&self) -> RelFormGroupV {
        RelFormGroupV {
            form: self.form@,
            people: self.people@.map_values(|p: PersonPlusRelId| p@),
        }
    }
}

/// Spec image of a [`DbFormGroup`].
#[verifier::ext_equal]
pub struct DbFormGroupV {
    pub form: Seq<char>,
    pub people: Seq<PersonV>,
}

/// One cohort of an eligible-people list: the form label and the people of
/// that form who could still be added, in people-table order.
#[derive(Debug)]
pub struct DbFormGroup {
    pub form: String,
    pub people: Vec<Person>,
}

impl View for DbFormGroup {
    type V = DbFormGroupV;

    open spec fn view(&self) -> DbFormGroupV {
        DbFormGroupV { form: self.form@, people: self.people@.map_values(|p: Person| p@) }
    }
}

/// The row a prefect relation renders to: the enrolled person plus the
/// relation's own id.
pub open spec fn prefect_row_of(s: StoreV, r: PrefectRelV) -> PersonPlusRelIdV {
    let p = person_of(s, r.person_id);
    PersonPlusRelIdV {
        id: p.id,
        first_name: p.first_name,
        surname: p.surname,
        form: p.form,
        relation_id: r.relation_id,
    }
}

/// The row a participant relation renders to.
pub open spec fn participant_row_of(s: StoreV, r: ParticipantRelV) -> PersonPlusRelIdV {
    let p = person_of(s, r.person_id);
    PersonPlusRelIdV {
        id: p.id,
        first_name: p.first_name,
        surname: p.surname,
        form: p.form,
        relation_id: r.relation_id,
    }
}

/// The event's existing prefect rows, in relation order.
pub open spec fn prefect_rows(s: StoreV, event_id: int) -> Seq<PersonPlusRelIdV> {
    s.prefects.filter(|r: PrefectRelV| r.event_id == event_id).map_values(
        |r: PrefectRelV| prefect_row_of(s, r),
    )
}

/// The event's existing participant rows, in relation order.
pub open spec fn participant_rows(s: StoreV, event_id: int) -> Seq<PersonPlusRelIdV> {
    s.participants.filter(|r: ParticipantRelV| r.event_id == event_id).map_values(
        |r: ParticipantRelV| participant_row_of(s, r),
    )
}

/// The people who could still be added as prefects: flagged as prefects and
/// not yet enrolled for this event, in people-table order.
pub open spec fn possible_prefect_people(s: StoreV, event_id: int) -> Seq<PersonV> {
    s.people.filter(
        |p: PersonV| p.is_prefect && !prefects_has_pair(s.prefects, event_id, p.id),
    )
}

/// The people who could still be added as participants: everyone not yet
/// enrolled for this event, in people-table order.
pub open spec fn possible_participant_people(s: StoreV, event_id: int) -> Seq<PersonV> {
    s.people.filter(|p: PersonV| !participants_has_pair(s.participants, event_id, p.id))
}

/// The event's photo rows, in store order.
pub open spec fn event_photos(s: StoreV, event_id: int) -> Seq<PhotoV> {
    s.photos.filter(|p: PhotoV| p.event_id == event_id)
}

impl Store {
    /// Collects the event's existing prefect rows, in relation order.
    fn collect_prefect_rows(&self, event_id: i32) -> (r: Vec<PersonPlusRelId>)
        requires
            self.wf(),
        ensures
            r@.map_values(|x: PersonPlusRelId| x@) =~= prefect_rows(self@, event_id as int),
    {
        let ghost s = self@;
        let ghost pred = |rv: PrefectRelV| rv.event_id == event_id as int;
        let ghost rowf = |rv: PrefectRelV| prefect_row_of(s, rv);
        let mut r: Vec<PersonPlusRelId> = Vec::new();
        let mut i: usize = 0;
        proof {
            reveal(Seq::filter);
            assert(s.prefects.take(0) =~= Seq::<PrefectRelV>::empty());
            assert(r@.map_values(|x: PersonPlusRelId| x@) =~= s.prefects.take(0).filter(
                pred,
            ).map_values(rowf));
        }
        while i < self.prefects.len()
            invariant
                self.wf(),
                i <= self.prefects.len(),
                s == self@,
                pred == (|rv: PrefectRelV| rv.event_id == event_id as int),
                rowf == (|rv: PrefectRelV| prefect_row_of(s, rv)),
                r@.map_values(|x: PersonPlusRelId| x@) =~= s.prefects.take(i as int).filter(
                    pred,
                ).map_values(rowf),
            decreases self.prefects.len() - i,
        {
            proof {
                reveal(Seq::filter);
                assert(s.prefects.take(i + 1).drop_last() =~= s.prefects.take(i as int));
                assert(s.prefects.take(i + 1).last() == s.prefects[i as int]);
            }
            if self.prefects[i].event_id == event_id {
                let pid = self.prefects[i].person_id;
                proof {
                    assert(people_has(s.people, s.prefects[i as int].person_id));
                }
                let pix = match self.find_person_index(pid) {
                    Some(pix) => pix,
                    None => {
                        proof {
                            assert(false);
                        }
                        0
                    },
                };
                proof {
                    lemma_unique_person_ix(s, pid as int, pix as int);
                }
                let p = &self.people[pix];
                r.push(
                    PersonPlusRelId {
                        id: p.id,
                        first_name: p.first_name.clone(),
                        surname: p.surname.clone(),
                        form: p.form.clone(),
                        relation_id: self.prefects[i].relation_id,
                    },
                );
                proof {
                    assert(pred(s.prefects[i as int]));
                    assert(s.prefects.take(i + 1).filter(pred) =~= s.prefects.take(
                        i as int,
                    ).filter(pred).push(s.prefects[i as int]));
                    assert(person_of(s, s.prefects[i as int].person_id) == s.people[pix as int]);
                    assert(r@.last()@ == rowf(s.prefects[i as int]));
                    assert(s.prefects.take(i + 1).filter(pred).map_values(rowf) =~= s.prefects.take(
                        i as int,
                    ).filter(pred).map_values(rowf).push(rowf(s.prefects[i as int])));
                    assert(r@.map_values(|x: PersonPlusRelId| x@) =~= r@.drop_last().map_values(
                        |x: PersonPlusRelId| x@,
                    ).push(r@.last()@));
                }
            } else {
                proof {
                    assert(!pred(s.prefects[i as int]));
                    assert(s.prefects.take(i + 1).filter(pred) =~= s.prefects.take(
                        i as int,
                    ).filter(pred));
                }
            }
            i = i + 1;
        }
        proof {
            assert(s.prefects.take(self.prefects.len() as int) =~= s.prefects);
        }
        r
    }

    /// Collects the event's existing participant rows, in relation order.
    fn collect_participant_rows(&self, event_id: i32) -> (r: Vec<PersonPlusRelId>)
        requires
            self.wf(),
        ensures
            r@.map_values(|x: PersonPlusRelId| x@) =~= participant_rows(self@, event_id as int),
    {
        let ghost s = self@;
        let ghost pred = |rv: ParticipantRelV| rv.event_id == event_id as int;
        let ghost rowf = |rv: ParticipantRelV| participant_row_of(s, rv);
        let mut r: Vec<PersonPlusRelId> = Vec::new();
        let mut i: usize = 0;
        proof {
            reveal(Seq::filter);
            assert(s.participants.take(0) =~= Seq::<ParticipantRelV>::empty());
            assert(r@.map_values(|x: PersonPlusRelId| x@) =~= s.participants.take(0).filter(
                pred,
            ).map_values(rowf));
        }
        while i < self.participants.len()
            invariant
                self.wf(),
                i <= self.participants.len(),
                s == self@,
                pred == (|rv: ParticipantRelV| rv.event_id == event_id as int),
                rowf == (|rv: ParticipantRelV| participant_row_of(s, rv)),
                r@.map_values(|x: PersonPlusRelId| x@) =~= s.participants.take(i as int).filter(
                    pred,
                ).map_values(rowf),
            decreases self.participants.len() - i,
        {
            proof {
                reveal(Seq::filter);
                assert(s.participants.take(i + 1).drop_last() =~= s.participants.take(i as int));
                assert(s.participants.take(i + 1).last() == s.participants[i as int]);
            }
            if self.participants[i].event_id == event_id {
                let pid = self.participants[i].person_id;
                proof {
                    assert(people_has(s.people, s.participants[i as int].person_id));
                }
                let pix = match self.find_person_index(pid) {
                    Some(pix) => pix,
                    None => {
                        proof {
                            assert(false);
                        }
                        0
                    },
                };
                proof {
                    lemma_unique_person_ix(s, pid as int, pix as int);
                }
                let p = &self.people[pix];
                r.push(
                    PersonPlusRelId {
                        id: p.id,
                        first_name: p.first_name.clone(),
                        surname: p.surname.clone(),
                        form: p.form.clone(),
                        relation_id: self.participants[i].relation_id,
                    },
                );
                proof {
                    assert(pred(s.participants[i as int]));
                    assert(s.participants.take(i + 1).filter(pred) =~= s.participants.take(
                        i as int,
                    ).filter(pred).push(s.participants[i as int]));
                    assert(person_of(s, s.participants[i as int].person_id)
                        == s.people[pix as int]);
                    assert(r@.last()@ == rowf(s.participants[i as int]));
                    assert(s.participants.take(i + 1).filter(pred).map_values(rowf)
                        =~= s.participants.take(i as int).filter(pred).map_values(rowf).push(
                        rowf(s.participants[i as int]),
                    ));
                    assert(r@.map_values(|x: PersonPlusRelId| x@) =~= r@.drop_last().map_values(
                        |x: PersonPlusRelId| x@,
                    ).push(r@.last()@));
                }
            } else {
                proof {
                    assert(!pred(s.participants[i as int]));
                    assert(s.participants.take(i + 1).filter(pred) =~= s.participants.take(
                        i as int,
                    ).filter(pred));
                }
            }
            i = i + 1;
        }
        proof {
            assert(s.participants.take(self.participants.len() as int) =~= s.participants);
        }
        r
    }

    /// Collects the people who could still be added as prefects, in
    /// people-table order.
    fn collect_possible_prefects(&self, event_id: i32) -> (r: Vec<Person>)
        requires
            self.wf(),
        ensures
            r@.map_values(|x: Person| x@) =~= possible_prefect_people(self@, event_id as int),
    {
        let ghost s = self@;
        let ghost pred = |p: PersonV| p.is_prefect && !prefects_has_pair(
            s.prefects,
            event_id as int,
            p.id,
        );
        let mut r: Vec<Person> = Vec::new();
        let mut i: usize = 0;
        proof {
            reveal(Seq::filter);
            assert(s.people.take(0) =~= Seq::<PersonV>::empty());
            assert(r@.map_values(|x: Person| x@) =~= s.people.take(0).filter(pred));
        }
        while i < self.people.len()
            invariant
                self.wf(),
                i <= self.people.len(),
                s == self@,
                pred == (|p: PersonV| p.is_prefect && !prefects_has_pair(
                    s.prefects,
                    event_id as int,
                    p.id,
                )),
                r@.map_values(|x: Person| x@) =~= s.people.take(i as int).filter(pred),
            decreases self.people.len() - i,
        {
            proof {
                reveal(Seq::filter);
                assert(s.people.take(i + 1).drop_last() =~= s.people.take(i as int));
                assert(s.people.take(i + 1).last() == s.people[i as int]);
            }
            if self.people[i].is_prefect && !self.contains_prefect_pair(
                event_id,
                self.people[i].id,
            ) {
                r.push(self.people[i].clone());
                proof {
                    assert(pred(s.people[i as int]));
                    assert(s.people.take(i + 1).filter(pred) =~= s.people.take(i as int).filter(
                        pred,
                    ).push(s.people[i as int]));
                }
            } else {
                proof {
                    assert(!pred(s.people[i as int]));
                    assert(s.people.take(i + 1).filter(pred) =~= s.people.take(i as int).filter(
                        pred,
                    ));
                }
            }
            i = i + 1;
        }
        proof {
            assert(s.people.take(self.people.len() as int) =~= s.people);
        }
        r
    }

    /// Collects the people who could still be added as participants, in
    /// people-table order.
    fn collect_possible_participants(&self, event_id: i32) -> (r: Vec<Person>)
        requires
            self.wf(),
        ensures
            r@.map_values(|x: Person| x@) =~= possible_participant_people(self@, event_id as int),
    {
        let ghost s = self@;
        let ghost pred = |p: PersonV| !participants_has_pair(
            s.participants,
            event_id as int,
            p.id,
        );
        let mut r: Vec<Person> = Vec::new();
        let mut i: usize = 0;
        proof {
            reveal(Seq::filter);
            assert(s.people.take(0) =~= Seq::<PersonV>::empty());
            assert(r@.map_values(|x: Person| x@) =~= s.people.take(0).filter(pred));
        }
        while i < self.people.len()
            invariant
                self.wf(),
                i <= self.people.len(),
                s == self@,
                pred == (|p: PersonV| !participants_has_pair(
                    s.participants,
                    event_id as int,
                    p.id,
                )),
                r@.map_values(|x: Person| x@) =~= s.people.take(i as int).filter(pred),
            decreases self.people.len() - i,
        {
            proof {
                reveal(Seq::filter);
                assert(s.people.take(i + 1).drop_last() =~= s.people.take(i as int));
                assert(s.people.take(i + 1).last() == s.people[i as int]);
            }
            if !self.contains_participant_pair(event_id, self.people[i].id) {
                r.push(self.people[i].clone());
                proof {
                    assert(pred(s.people[i as int]));
                    assert(s.people.take(i + 1).filter(pred) =~= s.people.take(i as int).filter(
                        pred,
                    ).push(s.people[i as int]));
                }
            } else {
                proof {
                    assert(!pred(s.people[i as int]));
                    assert(s.people.take(i + 1).filter(pred) =~= s.people.take(i as int).filter(
                        pred,
                    ));
                }
            }
            i = i + 1;
        }
        proof {
            assert(s.people.take(self.people.len() as int) =~= s.people);
        }
        r
    }

    /// Collects the event's photo rows, in store order.
    fn collect_event_photos(&self, event_id: i32) -> (r: Vec<Photo>)
        requires
            self.wf(),
        ensures
            r@.map_values(|x: Photo| x@) =~= event_photos(self@, event_id as int),
    {
        let ghost s = self@;
        let ghost pred = |p: PhotoV| p.event_id == event_id as int;
        let mut r: Vec<Photo> = Vec::new();
        let mut i: usize = 0;
        proof {
            reveal(Seq::filter);
            assert(s.photos.take(0) =~= Seq::<PhotoV>::empty());
            assert(r@.map_values(|x: Photo| x@) =~= s.photos.take(0).filter(pred));
        }
        while i < self.photos.len()
            invariant
                self.wf(),
                i <= self.photos.len(),
                s == self@,
                pred == (|p: PhotoV| p.event_id == event_id as int),
                r@.map_values(|x: Photo| x@) =~= s.photos.take(i as int).filter(pred),
            decreases self.photos.len() - i,
        {
            proof {
                reveal(Seq::filter);
                assert(s.photos.take(i + 1).drop_last() =~= s.photos.take(i as int));
                assert(s.photos.take(i + 1).last() == s.photos[i as int]);
            }
            if self.photos[i].event_id == event_id {
                r.push(self.photos[i].clone());
                proof {
                    assert(pred(s.photos[i as int]));
                    assert(s.photos.take(i + 1).filter(pred) =~= s.photos.take(i as int).filter(
                        pred,
                    ).push(s.photos[i as int]));
                }
            } else {
                proof {
                    assert(!pred(s.photos[i as int]));
                    assert(s.photos.take(i + 1).filter(pred) =~= s.photos.take(i as int).filter(
                        pred,
                    ));
                }
            }
            i = i + 1;
        }
        proof {
            assert(s.photos.take(self.photos.len() as int) =~= s.photos);
        }
        r
    }
}

/// Whether some group carries the given form label.
pub open spec fn has_form_group_rel(groups: Seq<RelFormGroupV>, form: Seq<char>) -> bool {
    exists|k: int| 0 <= k < groups.len() && (#[trigger] groups[k]).form == form
}

/// Whether some group carries the given form label.
pub open spec fn has_form_group_db(groups: Seq<DbFormGroupV>, form: Seq<char>) -> bool {
    exists|k: int| 0 <= k < groups.len() && (#[trigger] groups[k]).form == form
}

/// Group lists are faithful to their source rows when every group holds
/// exactly the source rows of its form in source order, no group is empty,
/// no two groups share a form, and every source row's form has a group.
pub open spec fn rel_groups_of(rows: Seq<PersonPlusRelIdV>, groups: Seq<RelFormGroupV>) -> bool {
    &&& forall|k: int|
        0 <= k < groups.len() ==> (#[trigger] groups[k]).people == rows.filter(
            |r: PersonPlusRelIdV| r.form == groups[k].form,
        )
    &&& forall|k: int| 0 <= k < groups.len() ==> (#[trigger] groups[k]).people.len() > 0
    &&& forall|k: int, l: int|
        0 <= k < l < groups.len() ==> (#[trigger] groups[k]).form != (#[trigger] groups[l]).form
    &&& forall|i: int|
        0 <= i < rows.len() ==> has_form_group_rel(groups, (#[trigger] rows[i]).form)
}

/// The eligible-people counterpart of [`rel_groups_of`].
pub open spec fn db_groups_of(rows: Seq<PersonV>, groups: Seq<DbFormGroupV>) -> bool {
    &&& forall|k: int|
        0 <= k < groups.len() ==> (#[trigger] groups[k]).people == rows.filter(
            |p: PersonV| p.form == groups[k].form,
        )
    &&& forall|k: int| 0 <= k < groups.len() ==> (#[trigger] groups[k]).people.len() > 0
    &&& forall|k: int, l: int|
        0 <= k < l < groups.len() ==> (#[trigger] groups[k]).form != (#[trigger] groups[l]).form
    &&& forall|i: int|
        0 <= i < rows.len() ==> has_form_group_db(groups, (#[trigger] rows[i]).form)
}

/// Groups stand in ascending form order.
pub open spec fn rel_groups_sorted(groups: Seq<RelFormGroupV>) -> bool {
    forall|k: int, l: int|
        0 <= k < l < groups.len() ==> lex_le(
            (#[trigger] groups[k]).form,
            (#[trigger] groups[l]).form,
        )
}

/// Groups stand in ascending form order.
pub open spec fn db_groups_sorted(groups: Seq<DbFormGroupV>) -> bool {
    forall|k: int, l: int|
        0 <= k < l < groups.len() ==> lex_le(
            (#[trigger] groups[k]).form,
            (#[trigger] groups[l]).form,
        )
}

/// Groups existing-roster rows by form, in first-seen form order, keeping
/// source order inside each group.
fn group_rel_rows(rows: &Vec<PersonPlusRelId>) -> (r: Vec<RelFormGroup>)
    ensures
        rel_groups_of(
            rows@.map_values(|x: PersonPlusRelId| x@),
            r@.map_values(|g: RelFormGroup| g@),
        ),
{
    let ghost rv = rows@.map_values(|x: PersonPlusRelId| x@);
    let mut r: Vec<RelFormGroup> = Vec::new();
    let mut i: usize = 0;
    proof {
        assert(rv.take(0) =~= Seq::<PersonPlusRelIdV>::empty());
        reveal(Seq::filter);
    }
    while i < rows.len()
        invariant
            i <= rows.len(),
            rv == rows@.map_values(|x: PersonPlusRelId| x@),
            rel_groups_of(rv.take(i as int), r@.map_values(|g: RelFormGroup| g@)),
        decreases rows.len() - i,
    {
        let ghost pre = rv.take(i as int);
        let ghost post = rv.take(i + 1);
        let ghost gv = r@.map_values(|g: RelFormGroup| g@);
        proof {
            reveal(Seq::filter);
            assert(post.drop_last() =~= pre);
            assert(post.last() == rv[i as int]);
        }
        let mut gix: usize = 0;
        let mut found: bool = false;
        while gix < r.len()
            invariant_except_break
                gix <= r.len(),
                !found,
                gv == r@.map_values(|g: RelFormGroup| g@),
                i < rows.len(),
                rv == rows@.map_values(|x: PersonPlusRelId| x@),
                forall|k: int| 0 <= k < gix ==> (#[trigger] gv[k]).form != rv[i as int].form,
            ensures
                gv == r@.map_values(|g: RelFormGroup| g@),
                found ==> gix < r.len() && gv[gix as int].form == rv[i as int].form,
                !found ==> forall|k: int|
                    0 <= k < gv.len() ==> (#[trigger] gv[k]).form != rv[i as int].form,
            decreases r.len() - gix,
        {
            if r[gix].form == rows[i].form {
                found = true;
                break;
            }
            gix = gix + 1;
        }
        if found {
            r[gix].people.push(rows[i].clone());
            proof {
                let gv2 = r@.map_values(|g: RelFormGroup| g@);
                assert(gv2 =~~= gv.update(
                    gix as int,
                    RelFormGroupV {
                        form: gv[gix as int].form,
                        people: gv[gix as int].people.push(rv[i as int]),
                    },
                ));
                assert forall|k: int|
                    0 <= k < gv2.len() implies (#[trigger] gv2[k]).people == post.filter(
                    |r0: PersonPlusRelIdV| r0.form == gv2[k].form,
                ) by {
                    reveal(Seq::filter);
                    let pk = |r0: PersonPlusRelIdV| r0.form == gv2[k].form;
                    assert(post.drop_last() =~= pre);
                    if k == gix as int {
                        assert(pk(rv[i as int]));
                        assert(post.filter(pk) =~= pre.filter(pk).push(rv[i as int]));
                    } else {
                        assert(gv2[k] == gv[k]);
                        assert(gv[k].form != gv[gix as int].form);
                        assert(!pk(rv[i as int]));
                        assert(post.filter(pk) =~= pre.filter(pk));
                    }
                }
                assert forall|j: int|
                    0 <= j < post.len() implies has_form_group_rel(
                    gv2,
                    (#[trigger] post[j]).form,
                ) by {
                    if j < pre.len() {
                        assert(pre[j] == post[j]);
                        assert(has_form_group_rel(gv, pre[j].form));
                        let k = choose|k: int|
                            0 <= k < gv.len() && (#[trigger] gv[k]).form == pre[j].form;
                        assert(gv2[k].form == post[j].form);
                    } else {
                        assert(gv2[gix as int].form == post[j].form);
                    }
                }
                assert(rel_groups_of(post, gv2));
            }
        } else {
            let mut people: Vec<PersonPlusRelId> = Vec::new();
            people.push(rows[i].clone());
            r.push(RelFormGroup { form: rows[i].form.clone(), people });
            proof {
                let gv2 = r@.map_values(|g: RelFormGroup| g@);
                let newg = RelFormGroupV {
                    form: rv[i as int].form,
                    people: seq![rv[i as int]],
                };
                assert(gv2 =~~= gv.push(newg));
                let pf = |r0: PersonPlusRelIdV| r0.form == rv[i as int].form;
                assert(pre.filter(pf).len() == 0) by {
                    if pre.filter(pf).len() > 0 {
                        let w = lemma_filter_element_index(pre, pf, 0);
                        assert(has_form_group_rel(gv, pre[w].form));
                        let k = choose|k: int|
                            0 <= k < gv.len() && (#[trigger] gv[k]).form == pre[w].form;
                        assert(false);
                    }
                }
                assert forall|k: int|
                    0 <= k < gv2.len() implies (#[trigger] gv2[k]).people == post.filter(
                    |r0: PersonPlusRelIdV| r0.form == gv2[k].form,
                ) by {
                    reveal(Seq::filter);
                    let pk = |r0: PersonPlusRelIdV| r0.form == gv2[k].form;
                    assert(post.drop_last() =~= pre);
                    if k == gv.len() {
                        assert(pk(rv[i as int]));
                        assert(pre.filter(pk) =~= pre.filter(pf));
                        assert(post.filter(pk) =~= pre.filter(pk).push(rv[i as int]));
                        assert(gv2[k].people =~= post.filter(pk));
                    } else {
                        assert(gv2[k] == gv[k]);
                        assert(gv[k].form != rv[i as int].form);
                        assert(!pk(rv[i as int]));
                        assert(post.filter(pk) =~= pre.filter(pk));
                    }
                }
                assert forall|j: int|
                    0 <= j < post.len() implies has_form_group_rel(
                    gv2,
                    (#[trigger] post[j]).form,
                ) by {
                    if j < pre.len() {
                        assert(pre[j] == post[j]);
                        assert(has_form_group_rel(gv, pre[j].form));
                        let k = choose|k: int|
                            0 <= k < gv.len() && (#[trigger] gv[k]).form == pre[j].form;
                        assert(gv2[k].form == post[j].form);
                    } else {
                        assert(gv2[gv.len() as int].form == post[j].form);
                    }
                }
                assert(rel_groups_of(post, gv2));
            }
        }
        i = i + 1;
    }
    proof {
        assert(rv.take(rows.len() as int) =~= rv);
    }
    r
}

/// Groups eligible people by form, in first-seen form order, keeping source
/// order inside each group.
fn group_db_rows(rows: &Vec<Person>) -> (r: Vec<DbFormGroup>)
    ensures
        db_groups_of(rows@.map_values(|x: Person| x@), r@.map_values(|g: DbFormGroup| g@)),
{
    let ghost rv = rows@.map_values(|x: Person| x@);
    let mut r: Vec<DbFormGroup> = Vec::new();
    let mut i: usize = 0;
    proof {
        assert(rv.take(0) =~= Seq::<PersonV>::empty());
        reveal(Seq::filter);
    }
    while i < rows.len()
        invariant
            i <= rows.len(),
            rv == rows@.map_values(|x: Person| x@),
            db_groups_of(rv.take(i as int), r@.map_values(|g: DbFormGroup| g@)),
        decreases rows.len() - i,
    {
        let ghost pre = rv.take(i as int);
        let ghost post = rv.take(i + 1);
        let ghost gv = r@.map_values(|g: DbFormGroup| g@);
        proof {
            reveal(Seq::filter);
            assert(post.drop_last() =~= pre);
            assert(post.last() == rv[i as int]);
        }
        let mut gix: usize = 0;
        let mut found: bool = false;
        while gix < r.len()
            invariant_except_break
                gix <= r.len(),
                !found,
                gv == r@.map_values(|g: DbFormGroup| g@),
                i < rows.len(),
                rv == rows@.map_values(|x: Person| x@),
                forall|k: int| 0 <= k < gix ==> (#[trigger] gv[k]).form != rv[i as int].form,
            ensures
                gv == r@.map_values(|g: DbFormGroup| g@),
                found ==> gix < r.len() && gv[gix as int].form == rv[i as int].form,
                !found ==> forall|k: int|
                    0 <= k < gv.len() ==> (#[trigger] gv[k]).form != rv[i as int].form,
            decreases r.len() - gix,
        {
            if r[gix].form == rows[i].form {
                found = true;
                break;
            }
            gix = gix + 1;
        }
        if found {
            r[gix].people.push(rows[i].clone());
            proof {
                let gv2 = r@.map_values(|g: DbFormGroup| g@);
                assert(gv2 =~~= gv.update(
                    gix as int,
                    DbFormGroupV {
                        form: gv[gix as int].form,
                        people: gv[gix as int].people.push(rv[i as int]),
                    },
                ));
                assert forall|k: int|
                    0 <= k < gv2.len() implies (#[trigger] gv2[k]).people == post.filter(
                    |p0: PersonV| p0.form == gv2[k].form,
                ) by {
                    reveal(Seq::filter);
                    let pk = |p0: PersonV| p0.form == gv2[k].form;
                    assert(post.drop_last() =~= pre);
                    if k == gix as int {
                        assert(pk(rv[i as int]));
                        assert(post.filter(pk) =~= pre.filter(pk).push(rv[i as int]));
                    } else {
                        assert(gv2[k] == gv[k]);
                        assert(gv[k].form != gv[gix as int].form);
                        assert(!pk(rv[i as int]));
                        assert(post.filter(pk) =~= pre.filter(pk));
                    }
                }
                assert forall|j: int|
                    0 <= j < post.len() implies has_form_group_db(
                    gv2,
                    (#[trigger] post[j]).form,
                ) by {
                    if j < pre.len() {
                        assert(pre[j] == post[j]);
                        assert(has_form_group_db(gv, pre[j].form));
                        let k = choose|k: int|
                            0 <= k < gv.len() && (#[trigger] gv[k]).form == pre[j].form;
                        assert(gv2[k].form == post[j].form);
                    } else {
                        assert(gv2[gix as int].form == post[j].form);
                    }
                }
                assert(db_groups_of(post, gv2));
            }
        } else {
            let mut people: Vec<Person> = Vec::new();
            people.push(rows[i].clone());
            r.push(DbFormGroup { form: rows[i].form.clone(), people });
            proof {
                let gv2 = r@.map_values(|g: DbFormGroup| g@);
                let newg = DbFormGroupV { form: rv[i as int].form, people: seq![rv[i as int]] };
                assert(gv2 =~~= gv.push(newg));
                let pf = |p0: PersonV| p0.form == rv[i as int].form;
                assert(pre.filter(pf).len() == 0) by {
                    if pre.filter(pf).len() > 0 {
                        let w = lemma_filter_element_index(pre, pf, 0);
                        assert(has_form_group_db(gv, pre[w].form));
                        let k = choose|k: int|
                            0 <= k < gv.len() && (#[trigger] gv[k]).form == pre[w].form;
                        assert(false);
                    }
                }
                assert forall|k: int|
                    0 <= k < gv2.len() implies (#[trigger] gv2[k]).people == post.filter(
                    |p0: PersonV| p0.form == gv2[k].form,
                ) by {
                    reveal(Seq::filter);
                    let pk = |p0: PersonV| p0.form == gv2[k].form;
                    assert(post.drop_last() =~= pre);
                    if k == gv.len() {
                        assert(pk(rv[i as int]));
                        assert(pre.filter(pk) =~= pre.filter(pf));
                        assert(post.filter(pk) =~= pre.filter(pk).push(rv[i as int]));
                        assert(gv2[k].people =~= post.filter(pk));
                    } else {
                        assert(gv2[k] == gv[k]);
                        assert(gv[k].form != rv[i as int].form);
                        assert(!pk(rv[i as int]));
                        assert(post.filter(pk) =~= pre.filter(pk));
                    }
                }
                assert forall|j: int|
                    0 <= j < post.len() implies has_form_group_db(
                    gv2,
                    (#[trigger] post[j]).form,
                ) by {
                    if j < pre.len() {
                        assert(pre[j] == post[j]);
                        assert(has_form_group_db(gv, pre[j].form));
                        let k = choose|k: int|
                            0 <= k < gv.len() && (#[trigger] gv[k]).form == pre[j].form;
                        assert(gv2[k].form == post[j].form);
                    } else {
                        assert(gv2[gv.len() as int].form == post[j].form);
                    }
                }
                assert(db_groups_of(post, gv2));
            }
        }
        i = i + 1;
    }
    proof {
        assert(rv.take(rows.len() as int) =~= rv);
    }
    r
}

/// Two equal elements at distinct positions put a count of at least two in
/// the sequence's multiset.
proof fn lemma_dup_count<A>(s: Seq<A>, i: int, j: int)
    requires
        0 <= i < j < s.len(),
        s[i] == s[j],
    ensures
        s.to_multiset().count(s[i]) >= 2,
{
    broadcast use vstd::seq_lib::group_to_multiset_ensures;

    let s1 = s.remove(i);
    assert(s1[j - 1] == s[j]);
    assert(s1.contains(s[j]));
    assert(s1.to_multiset() == s.to_multiset().remove(s[i]));
    assert(s1.to_multiset().count(s[j]) > 0);
}

/// A count of at least two names two distinct positions with that element.
proof fn lemma_count_two_dup<A>(s: Seq<A>, x: A)
    requires
        s.to_multiset().count(x) >= 2,
    ensures
        exists|i: int, j: int| 0 <= i < j < s.len() && s[i] == x && s[j] == x,
{
    broadcast use vstd::seq_lib::group_to_multiset_ensures;

    assert(s.contains(x));
    let i = choose|i: int| 0 <= i < s.len() && s[i] == x;
    let s1 = s.remove(i);
    assert(s1.to_multiset() == s.to_multiset().remove(s[i]));
    assert(s1.to_multiset().count(x) >= 1);
    assert(s1.contains(x));
    let j = choose|j: int| 0 <= j < s1.len() && s1[j] == x;
    if j < i {
        assert(s[j] == s1[j]);
        assert(0 <= j < i < s.len() && s[j] == x && s[i] == x);
    } else {
        assert(s[j + 1] == s1[j]);
        assert(0 <= i < j + 1 < s.len() && s[i] == x && s[j + 1] == x);
    }
}

/// A permutation keeps any key pairwise distinct.
proof fn lemma_permutation_key_distinct<A, K>(a: Seq<A>, b: Seq<A>, key: spec_fn(A) -> K)
    requires
        a.to_multiset() == b.to_multiset(),
        forall|i: int, j: int| 0 <= i < j < a.len() ==> key(a[i]) != key(a[j]),
    ensures
        forall|i: int, j: int| 0 <= i < j < b.len() ==> key(b[i]) != key(b[j]),
{
    broadcast use vstd::seq_lib::group_to_multiset_ensures;

    assert forall|i: int, j: int| 0 <= i < j < b.len() implies key(b[i]) != key(b[j]) by {
        if key(b[i]) == key(b[j]) {
            if b[i] == b[j] {
                lemma_dup_count(b, i, j);
                assert(a.to_multiset().count(b[i]) >= 2);
                lemma_count_two_dup(a, b[i]);
                let (p, q): (int, int) = choose|p: int, q: int|
                    0 <= p < q < a.len() && a[p] == b[i] && a[q] == b[i];
                assert(key(a[p]) != key(a[q]));
                assert(false);
            } else {
                assert(b.contains(b[i]) && b.contains(b[j]));
                assert(a.to_multiset().count(b[i]) > 0 && a.to_multiset().count(b[j]) > 0);
                assert(a.contains(b[i]) && a.contains(b[j]));
                let p = choose|p: int| 0 <= p < a.len() && a[p] == b[i];
                let q = choose|q: int| 0 <= q < a.len() && a[q] == b[j];
                assert(p != q);
                if p < q {
                    assert(key(a[p]) != key(a[q]));
                } else {
                    assert(key(a[q]) != key(a[p]));
                }
                assert(false);
            }
        }
    }
}

/// Sorts existing-roster groups into ascending form order.
fn sort_rel_groups(v: Vec<RelFormGroup>) -> (r: Vec<RelFormGroup>)
    ensures
        r@.map_values(|g: RelFormGroup| g@).to_multiset() == v@.map_values(
            |g: RelFormGroup| g@,
        ).to_multiset(),
        rel_groups_sorted(r@.map_values(|g: RelFormGroup| g@)),
{
    broadcast use vstd::seq_lib::group_to_multiset_ensures;

    let ghost orig = v@.map_values(|g: RelFormGroup| g@);
    let mut v = v;
    let mut r: Vec<RelFormGroup> = Vec::new();
    proof {
        assert(r@.map_values(|g: RelFormGroup| g@) =~= Seq::<RelFormGroupV>::empty());
        assert(r@.map_values(|g: RelFormGroup| g@).to_multiset().add(
            v@.map_values(|g: RelFormGroup| g@).to_multiset(),
        ) =~= orig.to_multiset());
    }
    while v.len() > 0
        invariant
            rel_groups_sorted(r@.map_values(|g: RelFormGroup| g@)),
            r@.map_values(|g: RelFormGroup| g@).to_multiset().add(
                v@.map_values(|g: RelFormGroup| g@).to_multiset(),
            ) == orig.to_multiset(),
        decreases v.len(),
    {
        let ghost rv0 = r@.map_values(|g: RelFormGroup| g@);
        let ghost vv0 = v@.map_values(|g: RelFormGroup| g@);
        let x = match v.pop() {
            Some(x) => x,
            None => {
                proof {
                    assert(false);
                }
                continue
            },
        };
        proof {
            assert(v@.map_values(|g: RelFormGroup| g@).push(x@) =~= vv0);
            vstd::seq_lib::to_multiset_build(v@.map_values(|g: RelFormGroup| g@), x@);
            assert(vv0.to_multiset() =~= v@.map_values(|g: RelFormGroup| g@).to_multiset().insert(
                x@,
            ));
        }
        let mut k: usize = 0;
        while k < r.len() && str_le(&r[k].form, &x.form)
            invariant_except_break
                k <= r.len(),
                rv0 == r@.map_values(|g: RelFormGroup| g@),
                forall|m: int| 0 <= m < k ==> lex_le((#[trigger] rv0[m]).form, x@.form),
            ensures
                k <= r.len(),
                rv0 == r@.map_values(|g: RelFormGroup| g@),
                forall|m: int| 0 <= m < k ==> lex_le((#[trigger] rv0[m]).form, x@.form),
                k < r.len() ==> !lex_le(rv0[k as int].form, x@.form),
            decreases r.len() - k,
        {
            k = k + 1;
        }
        r.insert(k, x);
        proof {
            let rv1 = r@.map_values(|g: RelFormGroup| g@);
            assert(rv1 =~= rv0.insert(k as int, x@));
            vstd::seq_lib::to_multiset_insert(rv0, k as int, x@);
            assert(rv1.to_multiset() =~= rv0.to_multiset().insert(x@));
            assert(rv1.to_multiset().add(v@.map_values(|g: RelFormGroup| g@).to_multiset())
                =~= orig.to_multiset());
            assert forall|m: int, l: int|
                0 <= m < l < rv1.len() implies lex_le(
                (#[trigger] rv1[m]).form,
                (#[trigger] rv1[l]).form,
            ) by {
                if l < k as int {
                    assert(rv1[m] == rv0[m] && rv1[l] == rv0[l]);
                } else if l == k as int {
                    assert(rv1[m] == rv0[m]);
                    assert(lex_le(rv0[m].form, x@.form));
                } else {
                    if m < k as int {
                        assert(rv1[m] == rv0[m] && rv1[l] == rv0[l - 1]);
                        assert(lex_le(rv0[m].form, rv0[l - 1].form));
                    } else if m == k as int {
                        assert(rv1[l] == rv0[l - 1]);
                        lemma_lex_total(rv0[k as int].form, x@.form);
                        assert(lex_le(x@.form, rv0[k as int].form));
                        if l - 1 > k as int {
                            assert(lex_le(rv0[k as int].form, rv0[l - 1].form));
                            lemma_lex_transitive(x@.form, rv0[k as int].form, rv0[l - 1].form);
                        }
                    } else {
                        assert(rv1[m] == rv0[m - 1] && rv1[l] == rv0[l - 1]);
                        assert(lex_le(rv0[m - 1].form, rv0[l - 1].form));
                    }
                }
            }
        }
    }
    proof {
        assert(v@.map_values(|g: RelFormGroup| g@) =~= Seq::<RelFormGroupV>::empty());
        assert(r@.map_values(|g: RelFormGroup| g@).to_multiset() =~= orig.to_multiset());
    }
    r
}

/// Sorts eligible-people groups into ascending form order.
fn sort_db_groups(v: Vec<DbFormGroup>) -> (r: Vec<DbFormGroup>)
    ensures
        r@.map_values(|g: DbFormGroup| g@).to_multiset() == v@.map_values(
            |g: DbFormGroup| g@,
        ).to_multiset(),
        db_groups_sorted(r@.map_values(|g: DbFormGroup| g@)),
{
    broadcast use vstd::seq_lib::group_to_multiset_ensures;

    let ghost orig = v@.map_values(|g: DbFormGroup| g@);
    let mut v = v;
    let mut r: Vec<DbFormGroup> = Vec::new();
    proof {
        assert(r@.map_values(|g: DbFormGroup| g@) =~= Seq::<DbFormGroupV>::empty());
        assert(r@.map_values(|g: DbFormGroup| g@).to_multiset().add(
            v@.map_values(|g: DbFormGroup| g@).to_multiset(),
        ) =~= orig.to_multiset());
    }
    while v.len() > 0
        invariant
            db_groups_sorted(r@.map_values(|g: DbFormGroup| g@)),
            r@.map_values(|g: DbFormGroup| g@).to_multiset().add(
                v@.map_values(|g: DbFormGroup| g@).to_multiset(),
            ) == orig.to_multiset(),
        decreases v.len(),
    {
        let ghost rv0 = r@.map_values(|g: DbFormGroup| g@);
        let ghost vv0 = v@.map_values(|g: DbFormGroup| g@);
        let x = match v.pop() {
            Some(x) => x,
            None => {
                proof {
                    assert(false);
                }
                continue
            },
        };
        proof {
            assert(v@.map_values(|g: DbFormGroup| g@).push(x@) =~= vv0);
            vstd::seq_lib::to_multiset_build(v@.map_values(|g: DbFormGroup| g@), x@);
            assert(vv0.to_multiset() =~= v@.map_values(|g: DbFormGroup| g@).to_multiset().insert(
                x@,
            ));
        }
        let mut k: usize = 0;
        while k < r.len() && str_le(&r[k].form, &x.form)
            invariant_except_break
                k <= r.len(),
                rv0 == r@.map_values(|g: DbFormGroup| g@),
                forall|m: int| 0 <= m < k ==> lex_le((#[trigger] rv0[m]).form, x@.form),
            ensures
                k <= r.len(),
                rv0 == r@.map_values(|g: DbFormGroup| g@),
                forall|m: int| 0 <= m < k ==> lex_le((#[trigger] rv0[m]).form, x@.form),
                k < r.len() ==> !lex_le(rv0[k as int].form, x@.form),
            decreases r.len() - k,
        {
            k = k + 1;
        }
        r.insert(k, x);
        proof {
            let rv1 = r@.map_values(|g: DbFormGroup| g@);
            assert(rv1 =~= rv0.insert(k as int, x@));
            vstd::seq_lib::to_multiset_insert(rv0, k as int, x@);
            assert(rv1.to_multiset() =~= rv0.to_multiset().insert(x@));
            assert(rv1.to_multiset().add(v@.map_values(|g: DbFormGroup| g@).to_multiset())
                =~= orig.to_multiset());
            assert forall|m: int, l: int|
                0 <= m < l < rv1.len() implies lex_le(
                (#[trigger] rv1[m]).form,
                (#[trigger] rv1[l]).form,
            ) by {
                if l < k as int {
                    assert(rv1[m] == rv0[m] && rv1[l] == rv0[l]);
                } else if l == k as int {
                    assert(rv1[m] == rv0[m]);
                    assert(lex_le(rv0[m].form, x@.form));
                } else {
                    if m < k as int {
                        assert(rv1[m] == rv0[m] && rv1[l] == rv0[l - 1]);
                        assert(lex_le(rv0[m].form, rv0[l - 1].form));
                    } else if m == k as int {
                        assert(rv1[l] == rv0[l - 1]);
                        lemma_lex_total(rv0[k as int].form, x@.form);
                        assert(lex_le(x@.form, rv0[k as int].form));
                        if l - 1 > k as int {
                            assert(lex_le(rv0[k as int].form, rv0[l - 1].form));
                            lemma_lex_transitive(x@.form, rv0[k as int].form, rv0[l - 1].form);
                        }
                    } else {
                        assert(rv1[m] == rv0[m - 1] && rv1[l] == rv0[l - 1]);
                        assert(lex_le(rv0[m - 1].form, rv0[l - 1].form));
                    }
                }
            }
        }
    }
    proof {
        assert(v@.map_values(|g: DbFormGroup| g@) =~= Seq::<DbFormGroupV>::empty());
        assert(r@.map_values(|g: DbFormGroup| g@).to_multiset() =~= orig.to_multiset());
    }
    r
}

/// Reordering groups keeps them faithful to their source rows.
proof fn lemma_rel_groups_of_permuted(
    rows: Seq<PersonPlusRelIdV>,
    g1: Seq<RelFormGroupV>,
    g2: Seq<RelFormGroupV>,
)
    requires
        rel_groups_of(rows, g1),
        g1.to_multiset() == g2.to_multiset(),
    ensures
        rel_groups_of(rows, g2),
{
    broadcast use vstd::seq_lib::group_to_multiset_ensures;

    lemma_permutation_key_distinct(g1, g2, |g: RelFormGroupV| g.form);
    assert forall|k: int|
        0 <= k < g2.len() implies (#[trigger] g2[k]).people == rows.filter(
        |r: PersonPlusRelIdV| r.form == g2[k].form,
    ) && g2[k].people.len() > 0 by {
        assert(g2.contains(g2[k]));
        assert(g1.to_multiset().count(g2[k]) > 0);
        assert(g1.contains(g2[k]));
        let w = choose|w: int| 0 <= w < g1.len() && g1[w] == g2[k];
        assert(g1[w].people == rows.filter(|r: PersonPlusRelIdV| r.form == g1[w].form));
    }
    assert forall|i: int|
        0 <= i < rows.len() implies has_form_group_rel(g2, (#[trigger] rows[i]).form) by {
        assert(has_form_group_rel(g1, rows[i].form));
        let k = choose|k: int| 0 <= k < g1.len() && (#[trigger] g1[k]).form == rows[i].form;
        assert(g1.contains(g1[k]));
        assert(g2.to_multiset().count(g1[k]) > 0);
        assert(g2.contains(g1[k]));
        let w = choose|w: int| 0 <= w < g2.len() && g2[w] == g1[k];
        assert(g2[w].form == rows[i].form);
    }
}

/// Reordering groups keeps them faithful to their source rows.
proof fn lemma_db_groups_of_permuted(rows: Seq<PersonV>, g1: Seq<DbFormGroupV>, g2: Seq<DbFormGroupV>)
    requires
        db_groups_of(rows, g1),
        g1.to_multiset() == g2.to_multiset(),
    ensures
        db_groups_of(rows, g2),
{
    broadcast use vstd::seq_lib::group_to_multiset_ensures;

    lemma_permutation_key_distinct(g1, g2, |g: DbFormGroupV| g.form);
    assert forall|k: int|
        0 <= k < g2.len() implies (#[trigger] g2[k]).people == rows.filter(
        |p: PersonV| p.form == g2[k].form,
    ) && g2[k].people.len() > 0 by {
        assert(g2.contains(g2[k]));
        assert(g1.to_multiset().count(g2[k]) > 0);
        assert(g1.contains(g2[k]));
        let w = choose|w: int| 0 <= w < g1.len() && g1[w] == g2[k];
        assert(g1[w].people == rows.filter(|p: PersonV| p.form == g1[w].form));
    }
    assert forall|i: int|
        0 <= i < rows.len() implies has_form_group_db(g2, (#[trigger] rows[i]).form) by {
        assert(has_form_group_db(g1, rows[i].form));
        let k = choose|k: int| 0 <= k < g1.len() && (#[trigger] g1[k]).form == rows[i].form;
        assert(g1.contains(g1[k]));
        assert(g2.to_multiset().count(g1[k]) > 0);
        assert(g2.contains(g1[k]));
        let w = choose|w: int| 0 <= w < g2.len() && g2[w] == g1[k];
        assert(g2[w].form == rows[i].form);
    }
}

/// The derived, render-ready view of one event's roster: the event itself,
/// the enrolled people of both kinds, the people who could still be added in
/// either role, and the event's photos. Recomputed on every read; never
/// stored.
#[derive(Debug)]
pub struct RosterView {
    pub event: DbEvent,
    pub existing_prefects: Vec<RelFormGroup>,
    pub existing_participants: Vec<RelFormGroup>,
    pub possible_prefects: Vec<DbFormGroup>,
    pub possible_participants: Vec<DbFormGroup>,
    pub photos: Vec<Photo>,
}

impl Store {
    /// Builds the roster view of an event: existing prefects and
    /// participants joined with their relation ids, the complement sets of
    /// people who could still be added in either role, and the event's
    /// photos. Every list is grouped by form in ascending form order;
    /// existing rows keep relation order inside a group, eligible people
    /// keep people-table order. An unknown event id is reported and nothing
    /// is computed.
    pub fn build_roster(&self, event_id: i32) -> (r: Result<RosterView, VentError>)
        requires
            self.wf(),
        ensures
            match r {
                Ok(rv) => {
                    &&& has_event(self@, event_id as int)
                    &&& rv.event@ == event_of(self@, event_id as int)
                    &&& rel_groups_of(
                        prefect_rows(self@, event_id as int),
                        rv.existing_prefects@.map_values(|g: RelFormGroup| g@),
                    )
                    &&& rel_groups_sorted(rv.existing_prefects@.map_values(|g: RelFormGroup| g@))
                    &&& rel_groups_of(
                        participant_rows(self@, event_id as int),
                        rv.existing_participants@.map_values(|g: RelFormGroup| g@),
                    )
                    &&& rel_groups_sorted(
                        rv.existing_participants@.map_values(|g: RelFormGroup| g@),
                    )
                    &&& db_groups_of(
                        possible_prefect_people(self@, event_id as int),
                        rv.possible_prefects@.map_values(|g: DbFormGroup| g@),
                    )
                    &&& db_groups_sorted(rv.possible_prefects@.map_values(|g: DbFormGroup| g@))
                    &&& db_groups_of(
                        possible_participant_people(self@, event_id as int),
                        rv.possible_participants@.map_values(|g: DbFormGroup| g@),
                    )
                    &&& db_groups_sorted(rv.possible_participants@.map_values(|g: DbFormGroup| g@))
                    &&& rv.photos@.map_values(|p: Photo| p@) =~= event_photos(
                        self@,
                        event_id as int,
                    )
                },
                Err(e) => {
                    &&& !has_event(self@, event_id as int)
                    &&& e == (VentError::NotFound { entity: Entity::Event, id: event_id })
                },
            },
    {
        let eix = match self.find_event_index(event_id) {
            Some(eix) => eix,
            None => {
                return Err(VentError::NotFound { entity: Entity::Event, id: event_id });
            },
        };
        proof {
            lemma_unique_event_ix(self@, event_id as int, eix as int);
        }
        let event = self.events[eix].clone();

        let prefect_row_list = self.collect_prefect_rows(event_id);
        let grouped_prefects = group_rel_rows(&prefect_row_list);
        let ghost gp1 = grouped_prefects@.map_values(|g: RelFormGroup| g@);
        let existing_prefects = sort_rel_groups(grouped_prefects);
        proof {
            lemma_rel_groups_of_permuted(
                prefect_rows(self@, event_id as int),
                gp1,
                existing_prefects@.map_values(|g: RelFormGroup| g@),
            );
        }

        let participant_row_list = self.collect_participant_rows(event_id);
        let grouped_participants = group_rel_rows(&participant_row_list);
        let ghost gq1 = grouped_participants@.map_values(|g: RelFormGroup| g@);
        let existing_participants = sort_rel_groups(grouped_participants);
        proof {
            lemma_rel_groups_of_permuted(
                participant_rows(self@, event_id as int),
                gq1,
                existing_participants@.map_values(|g: RelFormGroup| g@),
            );
        }

        let possible_prefect_list = self.collect_possible_prefects(event_id);
        let grouped_possible_prefects = group_db_rows(&possible_prefect_list);
        let ghost gr1 = grouped_possible_prefects@.map_values(|g: DbFormGroup| g@);
        let possible_prefects = sort_db_groups(grouped_possible_prefects);
        proof {
            lemma_db_groups_of_permuted(
                possible_prefect_people(self@, event_id as int),
                gr1,
                possible_prefects@.map_values(|g: DbFormGroup| g@),
            );
        }

        let possible_participant_list = self.collect_possible_participants(event_id);
        let grouped_possible_participants = group_db_rows(&possible_participant_list);
        let ghost gs1 = grouped_possible_participants@.map_values(|g: DbFormGroup| g@);
        let possible_participants = sort_db_groups(grouped_possible_participants);
        proof {
            lemma_db_groups_of_permuted(
                possible_participant_people(self@, event_id as int),
                gs1,
                possible_participants@.map_values(|g: DbFormGroup| g@),
            );
        }

        let photos = self.collect_event_photos(event_id);
        Ok(
            RosterView {
                event,
                existing_prefects,
                existing_participants,
                possible_prefects,
                possible_participants,
                photos,
            },
        )
    }
}

/// Everyone flagged as a prefect, in people-table order: the universe the
/// event-creation form offers as possible supervisors.
pub open spec fn prefect_universe(s: StoreV) -> Seq<PersonV> {
    s.people.filter(|p: PersonV| p.is_prefect)
}

impl Store {
    /// Lists everyone flagged as a prefect, in people-table order.
    pub fn fetch_prefects(&self) -> (r: Vec<Person>)
        ensures
            r@.map_values(|x: Person| x@) =~= prefect_universe(self@),
    {
        let ghost s = self@;
        let ghost pred = |p: PersonV| p.is_prefect;
        let mut r: Vec<Person> = Vec::new();
        let mut i: usize = 0;
        proof {
            reveal(Seq::filter);
            assert(s.people.take(0) =~= Seq::<PersonV>::empty());
            assert(r@.map_values(|x: Person| x@) =~= s.people.take(0).filter(pred));
        }
        while i < self.people.len()
            invariant
                i <= self.people.len(),
                s == self@,
                pred == (|p: PersonV| p.is_prefect),
                r@.map_values(|x: Person| x@) =~= s.people.take(i as int).filter(pred),
            decreases self.people.len() - i,
        {
            proof {
                reveal(Seq::filter);
                assert(s.people.take(i + 1).drop_last() =~= s.people.take(i as int));
                assert(s.people.take(i + 1).last() == s.people[i as int]);
            }
            if self.people[i].is_prefect {
                r.push(self.people[i].clone());
                proof {
                    assert(pred(s.people[i as int]));
                    assert(s.people.take(i + 1).filter(pred) =~= s.people.take(i as int).filter(
                        pred,
                    ).push(s.people[i as int]));
                }
            } else {
                proof {
                    assert(!pred(s.people[i as int]));
                    assert(s.people.take(i + 1).filter(pred) =~= s.people.take(i as int).filter(
                        pred,
                    ));
                }
            }
            i = i + 1;
        }
        proof {
            assert(s.people.take(self.people.len() as int) =~= s.people);
        }
        r
    }
}

/// Whether some row carries the given person id.
pub open spec fn rows_have_id(rows: Seq<PersonPlusRelIdV>, pid: int) -> bool {
    exists|w: int| 0 <= w < rows.len() && (#[trigger] rows[w]).id == pid
}

/// Whether some listed person carries the given id.
pub open spec fn people_have_id(people: Seq<PersonV>, pid: int) -> bool {
    exists|w: int| 0 <= w < people.len() && (#[trigger] people[w]).id == pid
}

/// The person ids appearing anywhere in an existing-roster group list.
pub open spec fn rel_group_ids(groups: Seq<RelFormGroupV>) -> Set<int> {
    Set::new(
        |pid: int|
            exists|k: int, m: int|
                0 <= k < groups.len() && 0 <= m < groups[k].people.len() && (#[trigger] groups[k].people[m]).id == pid,
    )
}

/// The person ids appearing anywhere in an eligible-people group list.
pub open spec fn db_group_ids(groups: Seq<DbFormGroupV>) -> Set<int> {
    Set::new(
        |pid: int|
            exists|k: int, m: int|
                0 <= k < groups.len() && 0 <= m < groups[k].people.len() && (#[trigger] groups[k].people[m]).id == pid,
    )
}

/// The ids of everyone flagged as a prefect: the prefect-eligible universe.
pub open spec fn prefect_universe_ids(s: StoreV) -> Set<int> {
    Set::new(
        |pid: int|
            exists|i: int|
                0 <= i < s.people.len() && (#[trigger] s.people[i]).id == pid
                    && s.people[i].is_prefect,
    )
}

/// The ids of everyone: the participant-eligible universe.
pub open spec fn person_universe_ids(s: StoreV) -> Set<int> {
    Set::new(|pid: int| people_has(s.people, pid))
}

/// The ids in a group list are the ids of its source rows.
proof fn lemma_rel_group_ids_rows(rows: Seq<PersonPlusRelIdV>, groups: Seq<RelFormGroupV>)
    requires
        rel_groups_of(rows, groups),
    ensures
        forall|pid: int| rel_group_ids(groups).contains(pid) == rows_have_id(rows, pid),
{
    assert forall|pid: int|
        rel_group_ids(groups).contains(pid) == rows_have_id(rows, pid) by {
        if rel_group_ids(groups).contains(pid) {
            let (k, m): (int, int) = choose|k: int, m: int|
                0 <= k < groups.len() && 0 <= m < groups[k].people.len() && (#[trigger] groups[k].people[m]).id == pid;
            let pk = |r: PersonPlusRelIdV| r.form == groups[k].form;
            assert(groups[k].people == rows.filter(pk));
            let w = lemma_filter_element_index(rows, pk, m);
            assert(rows[w].id == pid);
            assert(rows_have_id(rows, pid));
        }
        if rows_have_id(rows, pid) {
            let w = choose|w: int| 0 <= w < rows.len() && (#[trigger] rows[w]).id == pid;
            assert(has_form_group_rel(groups, rows[w].form));
            let k = choose|k: int|
                0 <= k < groups.len() && (#[trigger] groups[k]).form == rows[w].form;
            let pk = |r: PersonPlusRelIdV| r.form == groups[k].form;
            assert(groups[k].people == rows.filter(pk));
            assert(pk(rows[w]));
            rows.filter_lemma(pk);
            assert(rows.filter(pk).contains(rows[w]));
            let m = choose|m: int|
                0 <= m < rows.filter(pk).len() && rows.filter(pk)[m] == rows[w];
            assert(groups[k].people[m].id == pid);
            assert(rel_group_ids(groups).contains(pid));
        }
    }
}

/// The ids in a group list are the ids of its source people.
proof fn lemma_db_group_ids_people(people: Seq<PersonV>, groups: Seq<DbFormGroupV>)
    requires
        db_groups_of(people, groups),
    ensures
        forall|pid: int| db_group_ids(groups).contains(pid) == people_have_id(people, pid),
{
    assert forall|pid: int|
        db_group_ids(groups).contains(pid) == people_have_id(people, pid) by {
        if db_group_ids(groups).contains(pid) {
            let (k, m): (int, int) = choose|k: int, m: int|
                0 <= k < groups.len() && 0 <= m < groups[k].people.len() && (#[trigger] groups[k].people[m]).id == pid;
            let pk = |p: PersonV| p.form == groups[k].form;
            assert(groups[k].people == people.filter(pk));
            let w = lemma_filter_element_index(people, pk, m);
            assert(people[w].id == pid);
            assert(people_have_id(people, pid));
        }
        if people_have_id(people, pid) {
            let w = choose|w: int| 0 <= w < people.len() && (#[trigger] people[w]).id == pid;
            assert(has_form_group_db(groups, people[w].form));
            let k = choose|k: int|
                0 <= k < groups.len() && (#[trigger] groups[k]).form == people[w].form;
            let pk = |p: PersonV| p.form == groups[k].form;
            assert(groups[k].people == people.filter(pk));
            assert(pk(people[w]));
            people.filter_lemma(pk);
            assert(people.filter(pk).contains(people[w]));
            let m = choose|m: int|
                0 <= m < people.filter(pk).len() && people.filter(pk)[m] == people[w];
            assert(groups[k].people[m].id == pid);
            assert(db_group_ids(groups).contains(pid));
        }
    }
}

/// The ids of an event's existing prefect rows are exactly the persons with
/// a prefect relation for the event.
proof fn lemma_prefect_row_ids_pairs(s: StoreV, event_id: int)
    requires
        store_wf(s),
    ensures
        forall|pid: int|
            rows_have_id(prefect_rows(s, event_id), pid) == prefects_has_pair(
                s.prefects,
                event_id,
                pid,
            ),
{
    let pred = |r: PrefectRelV| r.event_id == event_id;
    let rows = prefect_rows(s, event_id);
    let f = s.prefects.filter(pred);
    assert forall|pid: int|
        rows_have_id(rows, pid) == prefects_has_pair(s.prefects, event_id, pid) by {
        if rows_have_id(rows, pid) {
            let w = choose|w: int| 0 <= w < rows.len() && (#[trigger] rows[w]).id == pid;
            assert(rows[w] == prefect_row_of(s, f[w]));
            let u = lemma_filter_element_index(s.prefects, pred, w);
            assert(people_has(s.people, s.prefects[u].person_id));
            assert(person_of(s, s.prefects[u].person_id).id == s.prefects[u].person_id);
            assert(s.prefects[u].event_id == event_id && s.prefects[u].person_id == pid);
        }
        if prefects_has_pair(s.prefects, event_id, pid) {
            let i = choose|i: int|
                0 <= i < s.prefects.len() && s.prefects[i].event_id == event_id
                    && s.prefects[i].person_id == pid;
            s.prefects.filter_lemma(pred);
            assert(pred(s.prefects[i]));
            assert(f.contains(s.prefects[i]));
            let w = choose|w: int| 0 <= w < f.len() && f[w] == s.prefects[i];
            assert(rows[w] == prefect_row_of(s, f[w]));
            assert(people_has(s.people, pid));
            assert(person_of(s, pid).id == pid);
            assert(rows[w].id == pid);
            assert(rows_have_id(rows, pid));
        }
    }
}

/// The ids of an event's existing participant rows are exactly the persons
/// with a participant relation for the event.
proof fn lemma_participant_row_ids_pairs(s: StoreV, event_id: int)
    requires
        store_wf(s),
    ensures
        forall|pid: int|
            rows_have_id(participant_rows(s, event_id), pid) == participants_has_pair(
                s.participants,
                event_id,
                pid,
            ),
{
    let pred = |r: ParticipantRelV| r.event_id == event_id;
    let rows = participant_rows(s, event_id);
    let f = s.participants.filter(pred);
    assert forall|pid: int|
        rows_have_id(rows, pid) == participants_has_pair(s.participants, event_id, pid) by {
        if rows_have_id(rows, pid) {
            let w = choose|w: int| 0 <= w < rows.len() && (#[trigger] rows[w]).id == pid;
            assert(rows[w] == participant_row_of(s, f[w]));
            let u = lemma_filter_element_index(s.participants, pred, w);
            assert(people_has(s.people, s.participants[u].person_id));
            assert(person_of(s, s.participants[u].person_id).id == s.participants[u].person_id);
            assert(s.participants[u].event_id == event_id && s.participants[u].person_id == pid);
        }
        if participants_has_pair(s.participants, event_id, pid) {
            let i = choose|i: int|
                0 <= i < s.participants.len() && s.participants[i].event_id == event_id
                    && s.participants[i].person_id == pid;
            s.participants.filter_lemma(pred);
            assert(pred(s.participants[i]));
            assert(f.contains(s.participants[i]));
            let w = choose|w: int| 0 <= w < f.len() && f[w] == s.participants[i];
            assert(rows[w] == participant_row_of(s, f[w]));
            assert(people_has(s.people, pid));
            assert(person_of(s, pid).id == pid);
            assert(rows[w].id == pid);
            assert(rows_have_id(rows, pid));
        }
    }
}

/// The addable prefects are exactly the flagged people without a prefect
/// relation for the event.
proof fn lemma_possible_prefect_ids(s: StoreV, event_id: int)
    requires
        store_wf(s),
    ensures
        forall|pid: int|
            people_have_id(possible_prefect_people(s, event_id), pid) == (prefect_universe_ids(
                s,
            ).contains(pid) && !prefects_has_pair(s.prefects, event_id, pid)),
{
    let pred = |p: PersonV| p.is_prefect && !prefects_has_pair(s.prefects, event_id, p.id);
    let f = possible_prefect_people(s, event_id);
    assert forall|pid: int|
        people_have_id(f, pid) == (prefect_universe_ids(s).contains(pid) && !prefects_has_pair(
            s.prefects,
            event_id,
            pid,
        )) by {
        if people_have_id(f, pid) {
            let w = choose|w: int| 0 <= w < f.len() && (#[trigger] f[w]).id == pid;
            let u = lemma_filter_element_index(s.people, pred, w);
            assert(s.people[u].id == pid && s.people[u].is_prefect);
            assert(prefect_universe_ids(s).contains(pid));
        }
        if prefect_universe_ids(s).contains(pid) && !prefects_has_pair(
            s.prefects,
            event_id,
            pid,
        ) {
            let i = choose|i: int|
                0 <= i < s.people.len() && (#[trigger] s.people[i]).id == pid
                    && s.people[i].is_prefect;
            s.people.filter_lemma(pred);
            assert(pred(s.people[i]));
            assert(f.contains(s.people[i]));
            let w = choose|w: int| 0 <= w < f.len() && f[w] == s.people[i];
            assert(f[w].id == pid);
            assert(people_have_id(f, pid));
        }
    }
}

/// The addable participants are exactly the people without a participant
/// relation for the event.
proof fn lemma_possible_participant_ids(s: StoreV, event_id: int)
    requires
        store_wf(s),
    ensures
        forall|pid: int|
            people_have_id(possible_participant_people(s, event_id), pid) == (people_has(
                s.people,
                pid,
            ) && !participants_has_pair(s.participants, event_id, pid)),
{
    let pred = |p: PersonV| !participants_has_pair(s.participants, event_id, p.id);
    let f = possible_participant_people(s, event_id);
    assert forall|pid: int|
        people_have_id(f, pid) == (people_has(s.people, pid) && !participants_has_pair(
            s.participants,
            event_id,
            pid,
        )) by {
        if people_have_id(f, pid) {
            let w = choose|w: int| 0 <= w < f.len() && (#[trigger] f[w]).id == pid;
            let u = lemma_filter_element_index(s.people, pred, w);
            assert(s.people[u].id == pid);
            assert(people_has(s.people, pid));
        }
        if people_has(s.people, pid) && !participants_has_pair(s.participants, event_id, pid) {
            let i = choose|i: int| 0 <= i < s.people.len() && s.people[i].id == pid;
            s.people.filter_lemma(pred);
            assert(pred(s.people[i]));
            assert(f.contains(s.people[i]));
            let w = choose|w: int| 0 <= w < f.len() && f[w] == s.people[i];
            assert(f[w].id == pid);
            assert(people_have_id(f, pid));
        }
    }
}

/// Law: in any roster view of an event, nobody is offered as an addable
/// prefect while already enrolled, and the existing and the addable
/// prefects together are exactly the people flagged as prefects.
///
/// The union half needs every enrolled prefect to still carry the flag: a
/// person who enrolled and later lost `is_prefect` stays in the existing
/// list as a historical fact but belongs to no universe, so the law is
/// stated under that premise.
pub proof fn lemma_roster_prefect_partition(
    s: StoreV,
    event_id: int,
    existing: Seq<RelFormGroupV>,
    possible: Seq<DbFormGroupV>,
)
    requires
        store_wf(s),
        rel_groups_of(prefect_rows(s, event_id), existing),
        db_groups_of(possible_prefect_people(s, event_id), possible),
        forall|i: int|
            0 <= i < s.prefects.len() && (#[trigger] s.prefects[i]).event_id == event_id
                ==> person_of(s, s.prefects[i].person_id).is_prefect,
    ensures
        rel_group_ids(existing).intersect(db_group_ids(possible)) =~= Set::<int>::empty(),
        rel_group_ids(existing).union(db_group_ids(possible)) =~= prefect_universe_ids(s),
{
    lemma_rel_group_ids_rows(prefect_rows(s, event_id), existing);
    lemma_db_group_ids_people(possible_prefect_people(s, event_id), possible);
    lemma_prefect_row_ids_pairs(s, event_id);
    lemma_possible_prefect_ids(s, event_id);
    assert forall|pid: int|
        rel_group_ids(existing).contains(pid) implies prefect_universe_ids(s).contains(pid) by {
        assert(prefects_has_pair(s.prefects, event_id, pid));
        let i = choose|i: int|
            0 <= i < s.prefects.len() && s.prefects[i].event_id == event_id
                && s.prefects[i].person_id == pid;
        assert(person_of(s, pid).is_prefect);
        assert(people_has(s.people, pid));
        let j = choose|j: int| 0 <= j < s.people.len() && s.people[j].id == pid;
        assert(s.people[person_ix(s, pid)].id == pid);
        assert(s.people[person_ix(s, pid)].is_prefect);
        assert(prefect_universe_ids(s).contains(pid));
    }
    assert forall|pid: int|
        prefect_universe_ids(s).contains(pid) && !rel_group_ids(existing).contains(
            pid,
        ) implies db_group_ids(possible).contains(pid) by {
        assert(!prefects_has_pair(s.prefects, event_id, pid));
    }
    assert(rel_group_ids(existing).intersect(db_group_ids(possible)) =~= Set::<int>::empty());
    assert(rel_group_ids(existing).union(db_group_ids(possible)) =~= prefect_universe_ids(s));
}

/// Law: in any roster view of an event, nobody is offered as an addable
/// participant while already enrolled, and the existing and the addable
/// participants together are exactly the whole person universe — here
/// unconditionally, since referential integrity keeps every enrolled
/// participant in the people table.
pub proof fn lemma_roster_participant_partition(
    s: StoreV,
    event_id: int,
    existing: Seq<RelFormGroupV>,
    possible: Seq<DbFormGroupV>,
)
    requires
        store_wf(s),
        rel_groups_of(participant_rows(s, event_id), existing),
        db_groups_of(possible_participant_people(s, event_id), possible),
    ensures
        rel_group_ids(existing).intersect(db_group_ids(possible)) =~= Set::<int>::empty(),
        rel_group_ids(existing).union(db_group_ids(possible)) =~= person_universe_ids(s),
{
    lemma_rel_group_ids_rows(participant_rows(s, event_id), existing);
    lemma_db_group_ids_people(possible_participant_people(s, event_id), possible);
    lemma_participant_row_ids_pairs(s, event_id);
    lemma_possible_participant_ids(s, event_id);
    assert forall|pid: int|
        rel_group_ids(existing).contains(pid) implies person_universe_ids(s).contains(pid) by {
        assert(participants_has_pair(s.participants, event_id, pid));
        let i = choose|i: int|
            0 <= i < s.participants.len() && s.participants[i].event_id == event_id
                && s.participants[i].person_id == pid;
        assert(people_has(s.people, s.participants[i].person_id));
    }
    assert forall|pid: int|
        person_universe_ids(s).contains(pid) && !rel_group_ids(existing).contains(
            pid,
        ) implies db_group_ids(possible).contains(pid) by {
        assert(!participants_has_pair(s.participants, event_id, pid));
    }
    assert(rel_group_ids(existing).intersect(db_group_ids(possible)) =~= Set::<int>::empty());
    assert(rel_group_ids(existing).union(db_group_ids(possible)) =~= person_universe_ids(s));
}

} // verus!
