//! The in-memory relation store and its mutators.
//!
//! The store owns people, events, the two join relations and photo rows, and
//! enforces the invariants the engine rests on: unique identifiers, at most
//! one relation of each kind per (person, event) pair, and referential
//! integrity of every join row. Mutation contracts are stated through spec
//! transformers so that laws about sequences of calls can be proved once and
//! reused.

use vstd::prelude::*;

use crate::error::{Entity, VentError};
use crate::model::{
    DbEvent, EventV, ParticipantRelV, ParticipantRelation, Person, PersonV, Photo, PhotoV,
    PrefectRelV, PrefectRelation,
};

verus! {

/// Spec image of a [`Store`].
#[verifier::ext_equal]
pub struct StoreV {
    pub people: Seq<PersonV>,
    pub events: Seq<EventV>,
    pub participants: Seq<ParticipantRelV>,
    pub prefects: Seq<PrefectRelV>,
    pub photos: Seq<PhotoV>,
    pub next_person_id: int,
    pub next_event_id: int,
    pub next_participant_relation_id: int,
    pub next_prefect_relation_id: int,
    pub next_photo_id: int,
}

/// Whether the people table holds the given person id.
pub open spec fn people_has(people: Seq<PersonV>, person_id: int) -> bool {
    exists|i: int| 0 <= i < people.len() && people[i].id == person_id
}

/// Whether the event table holds the given event id.
pub open spec fn events_has(events: Seq<EventV>, event_id: int) -> bool {
    exists|i: int| 0 <= i < events.len() && events[i].id == event_id
}

/// Whether the photo table holds the given photo id.
pub open spec fn photos_has(photos: Seq<PhotoV>, photo_id: int) -> bool {
    exists|i: int| 0 <= i < photos.len() && photos[i].id == photo_id
}

/// Whether some participant relation joins the given pair.
pub open spec fn participants_has_pair(
    rels: Seq<ParticipantRelV>,
    event_id: int,
    person_id: int,
) -> bool {
    exists|i: int|
        0 <= i < rels.len() && rels[i].event_id == event_id && rels[i].person_id == person_id
}

/// Whether some prefect relation joins the given pair.
pub open spec fn prefects_has_pair(rels: Seq<PrefectRelV>, event_id: int, person_id: int) -> bool {
    exists|i: int|
        0 <= i < rels.len() && rels[i].event_id == event_id && rels[i].person_id == person_id
}

/// Whether a participant relation with the given relation id exists.
pub open spec fn participants_has_rid(rels: Seq<ParticipantRelV>, relation_id: int) -> bool {
    exists|i: int| 0 <= i < rels.len() && rels[i].relation_id == relation_id
}

/// Whether a prefect relation with the given relation id exists.
pub open spec fn prefects_has_rid(rels: Seq<PrefectRelV>, relation_id: int) -> bool {
    exists|i: int| 0 <= i < rels.len() && rels[i].relation_id == relation_id
}

/// Whether a person with the given id exists.
pub open spec fn has_person(s: StoreV, person_id: int) -> bool {
    people_has(s.people, person_id)
}

/// Whether an event with the given id exists.
pub open spec fn has_event(s: StoreV, event_id: int) -> bool {
    events_has(s.events, event_id)
}

/// Whether a photo row with the given id exists.
pub open spec fn has_photo(s: StoreV, photo_id: int) -> bool {
    photos_has(s.photos, photo_id)
}

/// Whether the (person, event) pair already has a participant relation.
pub open spec fn has_participant_pair(s: StoreV, event_id: int, person_id: int) -> bool {
    participants_has_pair(s.participants, event_id, person_id)
}

/// Whether the (person, event) pair already has a prefect relation.
pub open spec fn has_prefect_pair(s: StoreV, event_id: int, person_id: int) -> bool {
    prefects_has_pair(s.prefects, event_id, person_id)
}

/// Whether a participant relation with the given relation id exists.
pub open spec fn has_participant_relation(s: StoreV, relation_id: int) -> bool {
    participants_has_rid(s.participants, relation_id)
}

/// Whether a prefect relation with the given relation id exists.
pub open spec fn has_prefect_relation(s: StoreV, relation_id: int) -> bool {
    prefects_has_rid(s.prefects, relation_id)
}

/// The index of the person with the given id.
pub open spec fn person_ix(s: StoreV, person_id: int) -> int {
    choose|i: int| 0 <= i < s.people.len() && s.people[i].id == person_id
}

/// The person with the given id; meaningful only when [`has_person`] holds.
pub open spec fn person_of(s: StoreV, person_id: int) -> PersonV {
    s.people[person_ix(s, person_id)]
}

/// The index of the event with the given id.
pub open spec fn event_ix(s: StoreV, event_id: int) -> int {
    choose|i: int| 0 <= i < s.events.len() && s.events[i].id == event_id
}

/// The event with the given id; meaningful only when [`has_event`] holds.
pub open spec fn event_of(s: StoreV, event_id: int) -> EventV {
    s.events[event_ix(s, event_id)]
}

/// The index of the participant relation with the given relation id.
pub open spec fn participant_ix(s: StoreV, relation_id: int) -> int {
    choose|i: int| 0 <= i < s.participants.len() && s.participants[i].relation_id == relation_id
}

/// The participant relation with the given relation id; meaningful only when
/// [`has_participant_relation`] holds.
pub open spec fn participant_of(s: StoreV, relation_id: int) -> ParticipantRelV {
    s.participants[participant_ix(s, relation_id)]
}

/// The index of the prefect relation with the given relation id.
pub open spec fn prefect_ix(s: StoreV, relation_id: int) -> int {
    choose|i: int| 0 <= i < s.prefects.len() && s.prefects[i].relation_id == relation_id
}

/// The prefect relation with the given relation id; meaningful only when
/// [`has_prefect_relation`] holds.
pub open spec fn prefect_of(s: StoreV, relation_id: int) -> PrefectRelV {
    s.prefects[prefect_ix(s, relation_id)]
}

/// The index of the photo with the given id.
pub open spec fn photo_ix(s: StoreV, photo_id: int) -> int {
    choose|i: int| 0 <= i < s.photos.len() && s.photos[i].id == photo_id
}

/// The photo with the given id; meaningful only when [`has_photo`] holds.
pub open spec fn photo_of(s: StoreV, photo_id: int) -> PhotoV {
    s.photos[photo_ix(s, photo_id)]
}

/// The store invariant.
///
/// Identifiers of each table are unique and below the table's next free id;
/// each (person, event) pair has at most one relation of each kind; every
/// join row refers to an existing person and event; every photo row refers
/// to an existing event; every stored event has a well-formed timestamp.
pub open spec fn store_wf(s: StoreV) -> bool {
    &&& forall|i: int|
        0 <= i < s.people.len() ==> 0 <= #[trigger] s.people[i].id < s.next_person_id
    &&& forall|i: int, j: int|
        0 <= i < j < s.people.len() ==> #[trigger] s.people[i].id != #[trigger] s.people[j].id
    &&& forall|i: int|
        0 <= i < s.events.len() ==> 0 <= #[trigger] s.events[i].id < s.next_event_id
    &&& forall|i: int, j: int|
        0 <= i < j < s.events.len() ==> #[trigger] s.events[i].id != #[trigger] s.events[j].id
    &&& forall|i: int| 0 <= i < s.events.len() ==> (#[trigger] s.events[i].date).wf()
    &&& forall|i: int|
        0 <= i < s.participants.len() ==> 0 <= #[trigger] s.participants[i].relation_id
            < s.next_participant_relation_id
    &&& forall|i: int, j: int|
        0 <= i < j < s.participants.len() ==> #[trigger] s.participants[i].relation_id
            != #[trigger] s.participants[j].relation_id
    &&& forall|i: int, j: int|
        0 <= i < j < s.participants.len() ==> !((#[trigger] s.participants[i].event_id)
            == (#[trigger] s.participants[j].event_id) && s.participants[i].person_id
            == s.participants[j].person_id)
    &&& forall|i: int|
        0 <= i < s.participants.len() ==> people_has(
            s.people,
            (#[trigger] s.participants[i]).person_id,
        ) && events_has(s.events, s.participants[i].event_id)
    &&& forall|i: int|
        0 <= i < s.prefects.len() ==> 0 <= #[trigger] s.prefects[i].relation_id
            < s.next_prefect_relation_id
    &&& forall|i: int, j: int|
        0 <= i < j < s.prefects.len() ==> #[trigger] s.prefects[i].relation_id
            != #[trigger] s.prefects[j].relation_id
    &&& forall|i: int, j: int|
        0 <= i < j < s.prefects.len() ==> !((#[trigger] s.prefects[i].event_id)
            == (#[trigger] s.prefects[j].event_id) && s.prefects[i].person_id
            == s.prefects[j].person_id)
    &&& forall|i: int|
        0 <= i < s.prefects.len() ==> people_has(s.people, (#[trigger] s.prefects[i]).person_id)
            && events_has(s.events, s.prefects[i].event_id)
    &&& forall|i: int| 0 <= i < s.photos.len() ==> 0 <= #[trigger] s.photos[i].id < s.next_photo_id
    &&& forall|i: int, j: int|
        0 <= i < j < s.photos.len() ==> #[trigger] s.photos[i].id != #[trigger] s.photos[j].id
    &&& forall|i: int|
        0 <= i < s.photos.len() ==> events_has(s.events, (#[trigger] s.photos[i]).event_id)
    &&& 0 <= s.next_person_id <= i32::MAX
    &&& 0 <= s.next_event_id <= i32::MAX
    &&& 0 <= s.next_participant_relation_id <= i32::MAX
    &&& 0 <= s.next_prefect_relation_id <= i32::MAX
    &&& 0 <= s.next_photo_id <= i32::MAX
}

/// What adding a person does: the person is appended and the person id
/// counter advances.
pub open spec fn spec_add_person(s: StoreV, p: PersonV) -> StoreV {
    StoreV { people: s.people.push(p), next_person_id: s.next_person_id + 1, ..s }
}

/// What creating an event does: the event is appended under the store's next
/// event id — whatever provisional id it arrived with — and the counter
/// advances.
pub open spec fn spec_create_event(s: StoreV, e: EventV) -> StoreV {
    StoreV {
        events: s.events.push(EventV { id: s.next_event_id, ..e }),
        next_event_id: s.next_event_id + 1,
        ..s
    }
}

/// What updating an event does: the row keeps its id and takes the new
/// metadata; every other row is untouched.
pub open spec fn spec_update_event(s: StoreV, event_id: int, e: EventV) -> StoreV {
    StoreV {
        events: s.events.update(event_ix(s, event_id), EventV { id: event_id, ..e }),
        ..s
    }
}

/// What updating a person's profile does: the row keeps its id and stored
/// credential and takes the new profile fields.
pub open spec fn spec_update_person(
    s: StoreV,
    person_id: int,
    first_name: Seq<char>,
    surname: Seq<char>,
    form: Seq<char>,
    is_prefect: bool,
) -> StoreV {
    StoreV {
        people: s.people.update(
            person_ix(s, person_id),
            PersonV {
                id: person_id,
                first_name,
                surname,
                form,
                is_prefect,
                hashed_password: person_of(s, person_id).hashed_password,
            },
        ),
        ..s
    }
}

/// What a member's own profile edit does: the row keeps its id, cohort and
/// role flag and takes the new display name and stored credential.
pub open spec fn spec_update_login_details(
    s: StoreV,
    person_id: int,
    first_name: Seq<char>,
    surname: Seq<char>,
    hashed_password: Seq<char>,
) -> StoreV {
    StoreV {
        people: s.people.update(
            person_ix(s, person_id),
            PersonV {
                id: person_id,
                first_name,
                surname,
                form: person_of(s, person_id).form,
                is_prefect: person_of(s, person_id).is_prefect,
                hashed_password: Some(hashed_password),
            },
        ),
        ..s
    }
}

/// What adding a participant relation does: a fresh row with the next
/// relation id, unverified, is appended and the counter advances.
pub open spec fn spec_add_participant(s: StoreV, event_id: int, person_id: int) -> StoreV {
    StoreV {
        participants: s.participants.push(
            ParticipantRelV {
                relation_id: s.next_participant_relation_id,
                event_id,
                person_id,
                is_verified: false,
            },
        ),
        next_participant_relation_id: s.next_participant_relation_id + 1,
        ..s
    }
}

/// What adding a prefect relation does.
pub open spec fn spec_add_prefect(s: StoreV, event_id: int, person_id: int) -> StoreV {
    StoreV {
        prefects: s.prefects.push(
            PrefectRelV { relation_id: s.next_prefect_relation_id, event_id, person_id },
        ),
        next_prefect_relation_id: s.next_prefect_relation_id + 1,
        ..s
    }
}

/// What removing a participant relation by its own id does: exactly that row
/// disappears; relation ids are never reused, so the counter stands.
pub open spec fn spec_remove_participant(s: StoreV, relation_id: int) -> StoreV {
    StoreV { participants: s.participants.remove(participant_ix(s, relation_id)), ..s }
}

/// What removing a prefect relation by its own id does.
pub open spec fn spec_remove_prefect(s: StoreV, relation_id: int) -> StoreV {
    StoreV { prefects: s.prefects.remove(prefect_ix(s, relation_id)), ..s }
}

/// What setting the verification flag does: the one row takes the flag and
/// everything else is untouched.
pub open spec fn spec_set_verified(s: StoreV, relation_id: int, verified: bool) -> StoreV {
    StoreV {
        participants: s.participants.update(
            participant_ix(s, relation_id),
            ParticipantRelV { is_verified: verified, ..participant_of(s, relation_id) },
        ),
        ..s
    }
}

/// What adding a photo row does: the row is appended under the next photo id
/// and the counter advances.
pub open spec fn spec_add_photo(s: StoreV, event_id: int, path: Seq<char>) -> StoreV {
    StoreV {
        photos: s.photos.push(PhotoV { id: s.next_photo_id, event_id, path }),
        next_photo_id: s.next_photo_id + 1,
        ..s
    }
}

/// What deleting a photo row does: exactly that row disappears.
pub open spec fn spec_delete_photo_row(s: StoreV, photo_id: int) -> StoreV {
    StoreV { photos: s.photos.remove(photo_ix(s, photo_id)), ..s }
}

/// The participant relations that survive deleting the given event.
pub open spec fn kept_participants(rels: Seq<ParticipantRelV>, event_id: int) -> Seq<
    ParticipantRelV,
> {
    rels.filter(|r: ParticipantRelV| r.event_id != event_id)
}

/// The prefect relations that survive deleting the given event.
pub open spec fn kept_prefects(rels: Seq<PrefectRelV>, event_id: int) -> Seq<PrefectRelV> {
    rels.filter(|r: PrefectRelV| r.event_id != event_id)
}

/// The photo rows that survive deleting the given event.
pub open spec fn kept_photos(photos: Seq<PhotoV>, event_id: int) -> Seq<PhotoV> {
    photos.filter(|p: PhotoV| p.event_id != event_id)
}

/// The backing-file paths of the photo rows that deleting the given event
/// removes, in store order.
pub open spec fn orphan_paths(photos: Seq<PhotoV>, event_id: int) -> Seq<Seq<char>> {
    photos.filter(|p: PhotoV| p.event_id == event_id).map_values(|p: PhotoV| p.path)
}

/// What deleting an event does: the event row disappears and every relation
/// and photo row of the event goes with it — relations are owned by the pair
/// they join and do not outlive either side.
pub open spec fn spec_delete_event(s: StoreV, event_id: int) -> StoreV {
    StoreV {
        events: s.events.remove(event_ix(s, event_id)),
        participants: kept_participants(s.participants, event_id),
        prefects: kept_prefects(s.prefects, event_id),
        photos: kept_photos(s.photos, event_id),
        ..s
    }
}

/// The paths of the photo rows an event deletion removes, in store order.
pub open spec fn spec_orphaned_paths(s: StoreV, event_id: int) -> Seq<Seq<char>> {
    orphan_paths(s.photos, event_id)
}

/// The in-memory relation store.
#[derive(Debug)]
pub struct Store {
    pub people: Vec<Person>,
    pub events: Vec<DbEvent>,
    pub participants: Vec<ParticipantRelation>,
    pub prefects: Vec<PrefectRelation>,
    pub photos: Vec<Photo>,
    pub next_person_id: i32,
    pub next_event_id: i32,
    pub next_participant_relation_id: i32,
    pub next_prefect_relation_id: i32,
    pub next_photo_id: i32,
}

impl View for Store {
    type V = StoreV;

    open spec fn view(&self) -> StoreV {
        StoreV {
            people: self.people@.map_values(|p: Person| p@),
            events: self.events@.map_values(|e: DbEvent| e@),
            participants: self.participants@.map_values(|r: ParticipantRelation| r@),
            prefects: self.prefects@.map_values(|r: PrefectRelation| r@),
            photos: self.photos@.map_values(|p: Photo| p@),
            next_person_id: self.next_person_id as int,
            next_event_id: self.next_event_id as int,
            next_participant_relation_id: self.next_participant_relation_id as int,
            next_prefect_relation_id: self.next_prefect_relation_id as int,
            next_photo_id: self.next_photo_id as int,
        }
    }
}

/// The empty store.
pub open spec fn empty_store() -> StoreV {
    StoreV {
        people: Seq::empty(),
        events: Seq::empty(),
        participants: Seq::empty(),
        prefects: Seq::empty(),
        photos: Seq::empty(),
        next_person_id: 1,
        next_event_id: 1,
        next_participant_relation_id: 1,
        next_prefect_relation_id: 1,
        next_photo_id: 1,
    }
}

impl Store {
    /// The store invariant, on the executable store.
    pub open spec fn wf(&self) -> bool {
        store_wf(self@)
    }

    /// Creates an empty store; identifiers start at 1 as the relational
    /// store's serial columns do.
    pub fn new() -> (r: Store)
        ensures
            r@ =~= empty_store(),
            r.wf(),
    {
        let r = Store {
            people: Vec::new(),
            events: Vec::new(),
            participants: Vec::new(),
            prefects: Vec::new(),
            photos: Vec::new(),
            next_person_id: 1,
            next_event_id: 1,
            next_participant_relation_id: 1,
            next_prefect_relation_id: 1,
            next_photo_id: 1,
        };
        proof {
            assert(r@.people =~= Seq::<PersonV>::empty());
            assert(r@.events =~= Seq::<EventV>::empty());
            assert(r@.participants =~= Seq::<ParticipantRelV>::empty());
            assert(r@.prefects =~= Seq::<PrefectRelV>::empty());
            assert(r@.photos =~= Seq::<PhotoV>::empty());
        }
        r
    }
}

/// Any index holding the event id is the chosen one: event ids are unique
/// under the invariant.
pub proof fn lemma_unique_event_ix(s: StoreV, event_id: int, ix: int)
    requires
        store_wf(s),
        0 <= ix < s.events.len(),
        s.events[ix].id == event_id,
    ensures
        event_ix(s, event_id) == ix,
{
    let jx = event_ix(s, event_id);
    assert(0 <= jx < s.events.len() && s.events[jx].id == event_id);
}

/// Any index holding the person id is the chosen one.
pub proof fn lemma_unique_person_ix(s: StoreV, person_id: int, ix: int)
    requires
        store_wf(s),
        0 <= ix < s.people.len(),
        s.people[ix].id == person_id,
    ensures
        person_ix(s, person_id) == ix,
{
    let jx = person_ix(s, person_id);
    assert(0 <= jx < s.people.len() && s.people[jx].id == person_id);
}

/// Any index holding the participant relation id is the chosen one.
pub proof fn lemma_unique_participant_ix(s: StoreV, relation_id: int, ix: int)
    requires
        store_wf(s),
        0 <= ix < s.participants.len(),
        s.participants[ix].relation_id == relation_id,
    ensures
        participant_ix(s, relation_id) == ix,
{
    let jx = participant_ix(s, relation_id);
    assert(0 <= jx < s.participants.len() && s.participants[jx].relation_id == relation_id);
}

/// Any index holding the prefect relation id is the chosen one.
pub proof fn lemma_unique_prefect_ix(s: StoreV, relation_id: int, ix: int)
    requires
        store_wf(s),
        0 <= ix < s.prefects.len(),
        s.prefects[ix].relation_id == relation_id,
    ensures
        prefect_ix(s, relation_id) == ix,
{
    let jx = prefect_ix(s, relation_id);
    assert(0 <= jx < s.prefects.len() && s.prefects[jx].relation_id == relation_id);
}

/// Any index holding the photo id is the chosen one.
pub proof fn lemma_unique_photo_ix(s: StoreV, photo_id: int, ix: int)
    requires
        store_wf(s),
        0 <= ix < s.photos.len(),
        s.photos[ix].id == photo_id,
    ensures
        photo_ix(s, photo_id) == ix,
{
    let jx = photo_ix(s, photo_id);
    assert(0 <= jx < s.photos.len() && s.photos[jx].id == photo_id);
}

/// Every element of a filtered sequence appears in the unfiltered one.
pub proof fn lemma_filter_element_index<A>(s: Seq<A>, pred: spec_fn(A) -> bool, i: int) -> (w: int)
    requires
        0 <= i < s.filter(pred).len(),
    ensures
        0 <= w < s.len(),
        s[w] == s.filter(pred)[i],
        pred(s[w]),
    decreases s.len(),
{
    reveal(Seq::filter);
    let f = s.filter(pred);
    let rest = s.drop_last();
    let fr = rest.filter(pred);
    if pred(s.last()) && i == f.len() - 1 {
        assert(f == fr.push(s.last()));
        s.len() - 1
    } else {
        if pred(s.last()) {
            assert(f == fr.push(s.last()));
            assert(f[i] == fr[i]);
        } else {
            assert(f == fr);
        }
        let w = lemma_filter_element_index(rest, pred, i);
        assert(s[w] == rest[w]);
        w
    }
}

/// Filtering keeps pairwise distinctness of any key.
proof fn lemma_filter_key_distinct<A, K>(s: Seq<A>, pred: spec_fn(A) -> bool, key: spec_fn(A) -> K)
    requires
        forall|i: int, j: int| 0 <= i < j < s.len() ==> key(s[i]) != key(s[j]),
    ensures
        forall|i: int, j: int|
            0 <= i < j < s.filter(pred).len() ==> key(s.filter(pred)[i]) != key(s.filter(pred)[j]),
{
    let f = s.filter(pred);
    assert forall|i: int, j: int| 0 <= i < j < f.len() implies key(f[i]) != key(f[j]) by {
        lemma_filter_index_increasing(s, pred, i, j);
        let (wi, wj): (int, int) = choose|wi: int, wj: int|
            0 <= wi < wj < s.len() && s[wi] == f[i] && s[wj] == f[j];
        assert(key(s[wi]) != key(s[wj]));
    }
}

/// Distinct positions of a filtered sequence come from distinct positions
/// of the unfiltered one.
proof fn lemma_filter_index_increasing<A>(s: Seq<A>, pred: spec_fn(A) -> bool, i: int, j: int)
    requires
        0 <= i < j < s.filter(pred).len(),
    ensures
        exists|wi: int, wj: int|
            0 <= wi < wj < s.len() && s[wi] == s.filter(pred)[i] && s[wj] == s.filter(pred)[j],
    decreases s.len(),
{
    reveal(Seq::filter);
    let f = s.filter(pred);
    let rest = s.drop_last();
    let fr = rest.filter(pred);
    if pred(s.last()) && j == f.len() - 1 {
        assert(f == fr.push(s.last()));
        let wi = lemma_filter_element_index(rest, pred, i);
        assert(s[wi] == rest[wi]);
        assert(0 <= wi < s.len() - 1 && s[wi] == f[i] && s[s.len() - 1] == f[j]);
    } else {
        if pred(s.last()) {
            assert(f == fr.push(s.last()));
            assert(f[i] == fr[i] && f[j] == fr[j]);
        } else {
            assert(f == fr);
        }
        lemma_filter_index_increasing(rest, pred, i, j);
        let (wi, wj): (int, int) = choose|wi: int, wj: int|
            0 <= wi < wj < rest.len() && rest[wi] == fr[i] && rest[wj] == fr[j];
        assert(s[wi] == rest[wi] && s[wj] == rest[wj]);
        assert(0 <= wi < wj < s.len() && s[wi] == f[i] && s[wj] == f[j]);
    }
}

/// Appending a person keeps every existing person id present.
proof fn lemma_people_has_push(people: Seq<PersonV>, p: PersonV)
    ensures
        forall|x: int| people_has(people, x) ==> people_has(#[trigger] people.push(p), x),
{
    assert forall|x: int| people_has(people, x) implies people_has(people.push(p), x) by {
        let j = choose|j: int| 0 <= j < people.len() && people[j].id == x;
        assert(people.push(p)[j].id == x);
    }
}

/// Appending an event keeps every existing event id present.
proof fn lemma_events_has_push(events: Seq<EventV>, e: EventV)
    ensures
        forall|x: int| events_has(events, x) ==> events_has(#[trigger] events.push(e), x),
{
    assert forall|x: int| events_has(events, x) implies events_has(events.push(e), x) by {
        let j = choose|j: int| 0 <= j < events.len() && events[j].id == x;
        assert(events.push(e)[j].id == x);
    }
}

/// Replacing a row by one with the same id leaves every id lookup as it was.
proof fn lemma_people_has_update_same_id(people: Seq<PersonV>, ix: int, p: PersonV)
    requires
        0 <= ix < people.len(),
        p.id == people[ix].id,
    ensures
        forall|x: int| people_has(#[trigger] people.update(ix, p), x) == people_has(people, x),
{
    let upd = people.update(ix, p);
    assert forall|x: int| people_has(upd, x) == people_has(people, x) by {
        if people_has(people, x) {
            let j = choose|j: int| 0 <= j < people.len() && people[j].id == x;
            assert(upd[j].id == x);
        }
        if people_has(upd, x) {
            let j = choose|j: int| 0 <= j < upd.len() && upd[j].id == x;
            assert(people[j].id == x || x == p.id);
            assert(people_has(people, x));
        }
    }
}

/// Replacing an event row by one with the same id leaves every id lookup as
/// it was.
proof fn lemma_events_has_update_same_id(events: Seq<EventV>, ix: int, e: EventV)
    requires
        0 <= ix < events.len(),
        e.id == events[ix].id,
    ensures
        forall|x: int| events_has(#[trigger] events.update(ix, e), x) == events_has(events, x),
{
    let upd = events.update(ix, e);
    assert forall|x: int| events_has(upd, x) == events_has(events, x) by {
        if events_has(events, x) {
            let j = choose|j: int| 0 <= j < events.len() && events[j].id == x;
            assert(upd[j].id == x);
        }
        if events_has(upd, x) {
            let j = choose|j: int| 0 <= j < upd.len() && upd[j].id == x;
            assert(events[j].id == x || x == e.id);
            assert(events_has(events, x));
        }
    }
}

/// Adding a person preserves the store invariant.
proof fn lemma_add_person_wf(s: StoreV, p: PersonV)
    requires
        store_wf(s),
        p.id == s.next_person_id,
        s.next_person_id + 1 <= i32::MAX,
    ensures
        store_wf(spec_add_person(s, p)),
{
    let s2 = spec_add_person(s, p);
    lemma_people_has_push(s.people, p);
    assert forall|i: int|
        0 <= i < s2.participants.len() implies people_has(
        s2.people,
        (#[trigger] s2.participants[i]).person_id,
    ) && events_has(s2.events, s2.participants[i].event_id) by {
        assert(s2.participants[i] == s.participants[i]);
    }
    assert forall|i: int|
        0 <= i < s2.prefects.len() implies people_has(
        s2.people,
        (#[trigger] s2.prefects[i]).person_id,
    ) && events_has(s2.events, s2.prefects[i].event_id) by {
        assert(s2.prefects[i] == s.prefects[i]);
    }
}

/// Creating an event preserves the store invariant.
proof fn lemma_create_event_wf(s: StoreV, e: EventV)
    requires
        store_wf(s),
        s.next_event_id + 1 <= i32::MAX,
        e.date.wf(),
    ensures
        store_wf(spec_create_event(s, e)),
{
    let s2 = spec_create_event(s, e);
    lemma_events_has_push(s.events, EventV { id: s.next_event_id, ..e });
    assert forall|i: int|
        0 <= i < s2.participants.len() implies people_has(
        s2.people,
        (#[trigger] s2.participants[i]).person_id,
    ) && events_has(s2.events, s2.participants[i].event_id) by {
        assert(s2.participants[i] == s.participants[i]);
    }
    assert forall|i: int|
        0 <= i < s2.prefects.len() implies people_has(
        s2.people,
        (#[trigger] s2.prefects[i]).person_id,
    ) && events_has(s2.events, s2.prefects[i].event_id) by {
        assert(s2.prefects[i] == s.prefects[i]);
    }
    assert forall|i: int|
        0 <= i < s2.photos.len() implies events_has(
        s2.events,
        (#[trigger] s2.photos[i]).event_id,
    ) by {
        assert(s2.photos[i] == s.photos[i]);
    }
}

/// Updating an event's metadata preserves the store invariant.
proof fn lemma_update_event_wf(s: StoreV, event_id: int, e: EventV)
    requires
        store_wf(s),
        has_event(s, event_id),
        e.date.wf(),
    ensures
        store_wf(spec_update_event(s, event_id, e)),
{
    let ix = event_ix(s, event_id);
    assert(0 <= ix < s.events.len() && s.events[ix].id == event_id);
    lemma_events_has_update_same_id(s.events, ix, EventV { id: event_id, ..e });
    let s2 = spec_update_event(s, event_id, e);
    assert forall|i: int|
        0 <= i < s2.participants.len() implies people_has(
        s2.people,
        (#[trigger] s2.participants[i]).person_id,
    ) && events_has(s2.events, s2.participants[i].event_id) by {
        assert(s2.participants[i] == s.participants[i]);
    }
    assert forall|i: int|
        0 <= i < s2.prefects.len() implies people_has(
        s2.people,
        (#[trigger] s2.prefects[i]).person_id,
    ) && events_has(s2.events, s2.prefects[i].event_id) by {
        assert(s2.prefects[i] == s.prefects[i]);
    }
    assert forall|i: int|
        0 <= i < s2.photos.len() implies events_has(
        s2.events,
        (#[trigger] s2.photos[i]).event_id,
    ) by {
        assert(s2.photos[i] == s.photos[i]);
    }
}

/// Adding a participant relation for an existing, unrelated pair preserves
/// the store invariant.
proof fn lemma_add_participant_wf(s: StoreV, event_id: int, person_id: int)
    requires
        store_wf(s),
        has_event(s, event_id),
        has_person(s, person_id),
        !has_participant_pair(s, event_id, person_id),
        s.next_participant_relation_id + 1 <= i32::MAX,
    ensures
        store_wf(spec_add_participant(s, event_id, person_id)),
{
    let s2 = spec_add_participant(s, event_id, person_id);
    let n = s.participants.len() as int;
    assert forall|i: int, j: int|
        0 <= i < j < s2.participants.len() implies !((#[trigger] s2.participants[i].event_id)
        == (#[trigger] s2.participants[j].event_id) && s2.participants[i].person_id
        == s2.participants[j].person_id) by {
        if j == n {
            assert(s2.participants[i] == s.participants[i]);
            assert(!(s.participants[i].event_id == event_id && s.participants[i].person_id
                == person_id));
        }
    }
    assert forall|i: int|
        0 <= i < s2.participants.len() implies people_has(
        s2.people,
        (#[trigger] s2.participants[i]).person_id,
    ) && events_has(s2.events, s2.participants[i].event_id) by {
        if i < n {
            assert(s2.participants[i] == s.participants[i]);
        } else {
            assert(s2.participants[i].person_id == person_id);
            assert(s2.participants[i].event_id == event_id);
        }
    }
    assert forall|i: int|
        0 <= i < s2.prefects.len() implies people_has(
        s2.people,
        (#[trigger] s2.prefects[i]).person_id,
    ) && events_has(s2.events, s2.prefects[i].event_id) by {
        assert(s2.prefects[i] == s.prefects[i]);
    }
}

/// Adding a prefect relation for an existing, unrelated pair preserves the
/// store invariant.
proof fn lemma_add_prefect_wf(s: StoreV, event_id: int, person_id: int)
    requires
        store_wf(s),
        has_event(s, event_id),
        has_person(s, person_id),
        !has_prefect_pair(s, event_id, person_id),
        s.next_prefect_relation_id + 1 <= i32::MAX,
    ensures
        store_wf(spec_add_prefect(s, event_id, person_id)),
{
    let s2 = spec_add_prefect(s, event_id, person_id);
    let n = s.prefects.len() as int;
    assert forall|i: int, j: int|
        0 <= i < j < s2.prefects.len() implies !((#[trigger] s2.prefects[i].event_id)
        == (#[trigger] s2.prefects[j].event_id) && s2.prefects[i].person_id
        == s2.prefects[j].person_id) by {
        if j == n {
            assert(s2.prefects[i] == s.prefects[i]);
            assert(!(s.prefects[i].event_id == event_id && s.prefects[i].person_id == person_id));
        }
    }
    assert forall|i: int|
        0 <= i < s2.prefects.len() implies people_has(
        s2.people,
        (#[trigger] s2.prefects[i]).person_id,
    ) && events_has(s2.events, s2.prefects[i].event_id) by {
        if i < n {
            assert(s2.prefects[i] == s.prefects[i]);
        } else {
            assert(s2.prefects[i].person_id == person_id);
            assert(s2.prefects[i].event_id == event_id);
        }
    }
    assert forall|i: int|
        0 <= i < s2.participants.len() implies people_has(
        s2.people,
        (#[trigger] s2.participants[i]).person_id,
    ) && events_has(s2.events, s2.participants[i].event_id) by {
        assert(s2.participants[i] == s.participants[i]);
    }
}

/// Removing a participant relation preserves the store invariant.
proof fn lemma_remove_participant_wf(s: StoreV, relation_id: int)
    requires
        store_wf(s),
        has_participant_relation(s, relation_id),
    ensures
        store_wf(spec_remove_participant(s, relation_id)),
{
    let ix = participant_ix(s, relation_id);
    assert(0 <= ix < s.participants.len());
    let s2 = spec_remove_participant(s, relation_id);
    assert forall|i: int|
        0 <= i < s2.participants.len() implies {
        &&& 0 <= (#[trigger] s2.participants[i]).relation_id < s2.next_participant_relation_id
        &&& people_has(s2.people, s2.participants[i].person_id)
        &&& events_has(s2.events, s2.participants[i].event_id)
    } by {
        if i < ix {
            assert(s2.participants[i] == s.participants[i]);
        } else {
            assert(s2.participants[i] == s.participants[i + 1]);
        }
    }
    assert forall|i: int, j: int|
        0 <= i < j < s2.participants.len() implies (#[trigger] s2.participants[i]).relation_id
        != (#[trigger] s2.participants[j]).relation_id && !(s2.participants[i].event_id
        == s2.participants[j].event_id && s2.participants[i].person_id
        == s2.participants[j].person_id) by {
        let i0: int = if i < ix {
            i
        } else {
            i + 1
        };
        let j0: int = if j < ix {
            j
        } else {
            j + 1
        };
        assert(s2.participants[i] == s.participants[i0]);
        assert(s2.participants[j] == s.participants[j0]);
        assert(i0 < j0);
    }
}

/// Removing a prefect relation preserves the store invariant.
proof fn lemma_remove_prefect_wf(s: StoreV, relation_id: int)
    requires
        store_wf(s),
        has_prefect_relation(s, relation_id),
    ensures
        store_wf(spec_remove_prefect(s, relation_id)),
{
    let ix = prefect_ix(s, relation_id);
    assert(0 <= ix < s.prefects.len());
    let s2 = spec_remove_prefect(s, relation_id);
    assert forall|i: int|
        0 <= i < s2.prefects.len() implies {
        &&& 0 <= (#[trigger] s2.prefects[i]).relation_id < s2.next_prefect_relation_id
        &&& people_has(s2.people, s2.prefects[i].person_id)
        &&& events_has(s2.events, s2.prefects[i].event_id)
    } by {
        if i < ix {
            assert(s2.prefects[i] == s.prefects[i]);
        } else {
            assert(s2.prefects[i] == s.prefects[i + 1]);
        }
    }
    assert forall|i: int, j: int|
        0 <= i < j < s2.prefects.len() implies (#[trigger] s2.prefects[i]).relation_id
        != (#[trigger] s2.prefects[j]).relation_id && !(s2.prefects[i].event_id
        == s2.prefects[j].event_id && s2.prefects[i].person_id == s2.prefects[j].person_id) by {
        let i0: int = if i < ix {
            i
        } else {
            i + 1
        };
        let j0: int = if j < ix {
            j
        } else {
            j + 1
        };
        assert(s2.prefects[i] == s.prefects[i0]);
        assert(s2.prefects[j] == s.prefects[j0]);
        assert(i0 < j0);
    }
}

/// Setting the verification flag preserves the store invariant.
proof fn lemma_set_verified_wf(s: StoreV, relation_id: int, verified: bool)
    requires
        store_wf(s),
        has_participant_relation(s, relation_id),
    ensures
        store_wf(spec_set_verified(s, relation_id, verified)),
{
    let ix = participant_ix(s, relation_id);
    assert(0 <= ix < s.participants.len());
    let s2 = spec_set_verified(s, relation_id, verified);
    assert forall|i: int|
        0 <= i < s2.participants.len() implies {
        &&& 0 <= (#[trigger] s2.participants[i]).relation_id < s2.next_participant_relation_id
        &&& people_has(s2.people, s2.participants[i].person_id)
        &&& events_has(s2.events, s2.participants[i].event_id)
    } by {
        if i != ix {
            assert(s2.participants[i] == s.participants[i]);
        } else {
            assert(s2.participants[i].person_id == s.participants[ix].person_id);
        }
    }
    assert forall|i: int, j: int|
        0 <= i < j < s2.participants.len() implies (#[trigger] s2.participants[i]).relation_id
        != (#[trigger] s2.participants[j]).relation_id && !(s2.participants[i].event_id
        == s2.participants[j].event_id && s2.participants[i].person_id
        == s2.participants[j].person_id) by {
        assert(s2.participants[i].relation_id == s.participants[i].relation_id);
        assert(s2.participants[j].relation_id == s.participants[j].relation_id);
        assert(s2.participants[i].event_id == s.participants[i].event_id);
        assert(s2.participants[j].event_id == s.participants[j].event_id);
        assert(s2.participants[i].person_id == s.participants[i].person_id);
        assert(s2.participants[j].person_id == s.participants[j].person_id);
    }
}

/// Updating a person's profile preserves the store invariant.
proof fn lemma_update_person_wf(
    s: StoreV,
    person_id: int,
    first_name: Seq<char>,
    surname: Seq<char>,
    form: Seq<char>,
    is_prefect: bool,
)
    requires
        store_wf(s),
        has_person(s, person_id),
    ensures
        store_wf(spec_update_person(s, person_id, first_name, surname, form, is_prefect)),
{
    let ix = person_ix(s, person_id);
    assert(0 <= ix < s.people.len() && s.people[ix].id == person_id);
    let s2 = spec_update_person(s, person_id, first_name, surname, form, is_prefect);
    lemma_people_has_update_same_id(s.people, ix, s2.people[ix]);
    assert forall|i: int, j: int|
        0 <= i < j < s2.people.len() implies (#[trigger] s2.people[i].id) != (
    #[trigger] s2.people[j].id) by {
        assert(s2.people[i].id == s.people[i].id);
        assert(s2.people[j].id == s.people[j].id);
    }
    assert forall|i: int|
        0 <= i < s2.participants.len() implies people_has(
        s2.people,
        (#[trigger] s2.participants[i]).person_id,
    ) && events_has(s2.events, s2.participants[i].event_id) by {
        assert(s2.participants[i] == s.participants[i]);
    }
    assert forall|i: int|
        0 <= i < s2.prefects.len() implies people_has(
        s2.people,
        (#[trigger] s2.prefects[i]).person_id,
    ) && events_has(s2.events, s2.prefects[i].event_id) by {
        assert(s2.prefects[i] == s.prefects[i]);
    }
}

/// A member's own profile edit preserves the store invariant.
proof fn lemma_update_login_details_wf(
    s: StoreV,
    person_id: int,
    first_name: Seq<char>,
    surname: Seq<char>,
    hashed_password: Seq<char>,
)
    requires
        store_wf(s),
        has_person(s, person_id),
    ensures
        store_wf(spec_update_login_details(s, person_id, first_name, surname, hashed_password)),
{
    let ix = person_ix(s, person_id);
    assert(0 <= ix < s.people.len() && s.people[ix].id == person_id);
    let s2 = spec_update_login_details(s, person_id, first_name, surname, hashed_password);
    lemma_people_has_update_same_id(s.people, ix, s2.people[ix]);
    assert forall|i: int, j: int|
        0 <= i < j < s2.people.len() implies (#[trigger] s2.people[i].id) != (
    #[trigger] s2.people[j].id) by {
        assert(s2.people[i].id == s.people[i].id);
        assert(s2.people[j].id == s.people[j].id);
    }
    assert forall|i: int|
        0 <= i < s2.participants.len() implies people_has(
        s2.people,
        (#[trigger] s2.participants[i]).person_id,
    ) && events_has(s2.events, s2.participants[i].event_id) by {
        assert(s2.participants[i] == s.participants[i]);
    }
    assert forall|i: int|
        0 <= i < s2.prefects.len() implies people_has(
        s2.people,
        (#[trigger] s2.prefects[i]).person_id,
    ) && events_has(s2.events, s2.prefects[i].event_id) by {
        assert(s2.prefects[i] == s.prefects[i]);
    }
}

/// Adding a photo row for an existing event preserves the store invariant.
proof fn lemma_add_photo_wf(s: StoreV, event_id: int, path: Seq<char>)
    requires
        store_wf(s),
        has_event(s, event_id),
        s.next_photo_id + 1 <= i32::MAX,
    ensures
        store_wf(spec_add_photo(s, event_id, path)),
{
    let s2 = spec_add_photo(s, event_id, path);
    let n = s.photos.len() as int;
    assert forall|i: int|
        0 <= i < s2.photos.len() implies events_has(
        s2.events,
        (#[trigger] s2.photos[i]).event_id,
    ) by {
        if i < n {
            assert(s2.photos[i] == s.photos[i]);
        } else {
            assert(s2.photos[i].event_id == event_id);
        }
    }
    assert forall|i: int|
        0 <= i < s2.participants.len() implies people_has(
        s2.people,
        (#[trigger] s2.participants[i]).person_id,
    ) && events_has(s2.events, s2.participants[i].event_id) by {
        assert(s2.participants[i] == s.participants[i]);
    }
    assert forall|i: int|
        0 <= i < s2.prefects.len() implies people_has(
        s2.people,
        (#[trigger] s2.prefects[i]).person_id,
    ) && events_has(s2.events, s2.prefects[i].event_id) by {
        assert(s2.prefects[i] == s.prefects[i]);
    }
}

/// Deleting a photo row preserves the store invariant.
proof fn lemma_delete_photo_row_wf(s: StoreV, photo_id: int)
    requires
        store_wf(s),
        has_photo(s, photo_id),
    ensures
        store_wf(spec_delete_photo_row(s, photo_id)),
{
    let ix = photo_ix(s, photo_id);
    assert(0 <= ix < s.photos.len());
    let s2 = spec_delete_photo_row(s, photo_id);
    assert forall|i: int|
        0 <= i < s2.photos.len() implies 0 <= (#[trigger] s2.photos[i]).id < s2.next_photo_id
        && events_has(s2.events, s2.photos[i].event_id) by {
        if i < ix {
            assert(s2.photos[i] == s.photos[i]);
        } else {
            assert(s2.photos[i] == s.photos[i + 1]);
        }
    }
    assert forall|i: int, j: int|
        0 <= i < j < s2.photos.len() implies (#[trigger] s2.photos[i].id) != (
    #[trigger] s2.photos[j].id) by {
        let i0: int = if i < ix {
            i
        } else {
            i + 1
        };
        let j0: int = if j < ix {
            j
        } else {
            j + 1
        };
        assert(s2.photos[i] == s.photos[i0]);
        assert(s2.photos[j] == s.photos[j0]);
        assert(i0 < j0);
    }
}

/// Deleting an event, with the cascade on relations and photos, preserves
/// the store invariant.
proof fn lemma_delete_event_wf(s: StoreV, event_id: int)
    requires
        store_wf(s),
        has_event(s, event_id),
    ensures
        store_wf(spec_delete_event(s, event_id)),
{
    let ix = event_ix(s, event_id);
    assert(0 <= ix < s.events.len() && s.events[ix].id == event_id);
    let s2 = spec_delete_event(s, event_id);
    // the surviving event table: ids stay unique and in range
    assert forall|i: int, j: int|
        0 <= i < j < s2.events.len() implies (#[trigger] s2.events[i].id) != (
    #[trigger] s2.events[j].id) by {
        let i0: int = if i < ix {
            i
        } else {
            i + 1
        };
        let j0: int = if j < ix {
            j
        } else {
            j + 1
        };
        assert(s2.events[i] == s.events[i0]);
        assert(s2.events[j] == s.events[j0]);
        assert(i0 < j0);
    }
    assert forall|i: int|
        0 <= i < s2.events.len() implies 0 <= (#[trigger] s2.events[i]).id < s2.next_event_id
        && s2.events[i].date.wf() by {
        if i < ix {
            assert(s2.events[i] == s.events[i]);
        } else {
            assert(s2.events[i] == s.events[i + 1]);
        }
    }
    // an event id other than the deleted one survives the removal
    assert forall|x: int| events_has(s.events, x) && x != event_id implies events_has(
        s2.events,
        x,
    ) by {
        let k = choose|k: int| 0 <= k < s.events.len() && s.events[k].id == x;
        if k < ix {
            assert(s2.events[k].id == x);
        } else {
            assert(k != ix);
            assert(s2.events[k - 1] == s.events[k]);
        }
    }
    let ppred = |r: ParticipantRelV| r.event_id != event_id;
    lemma_filter_key_distinct(s.participants, ppred, |r: ParticipantRelV| r.relation_id);
    lemma_filter_key_distinct(
        s.participants,
        ppred,
        |r: ParticipantRelV| (r.event_id, r.person_id),
    );
    assert forall|i: int|
        0 <= i < s2.participants.len() implies {
        &&& 0 <= (#[trigger] s2.participants[i]).relation_id < s2.next_participant_relation_id
        &&& people_has(s2.people, s2.participants[i].person_id)
        &&& events_has(s2.events, s2.participants[i].event_id)
    } by {
        let w = lemma_filter_element_index(s.participants, ppred, i);
        assert(s2.participants[i] == s.participants[w]);
        assert(s.participants[w].event_id != event_id);
    }
    assert forall|i: int, j: int|
        0 <= i < j < s2.participants.len() implies (#[trigger] s2.participants[i]).relation_id
        != (#[trigger] s2.participants[j]).relation_id && !(s2.participants[i].event_id
        == s2.participants[j].event_id && s2.participants[i].person_id
        == s2.participants[j].person_id) by {
        let key1 = |r: ParticipantRelV| r.relation_id;
        let key2 = |r: ParticipantRelV| (r.event_id, r.person_id);
        assert(key1(s2.participants[i]) != key1(s2.participants[j]));
        assert(key2(s2.participants[i]) != key2(s2.participants[j]));
    }
    let fpred = |r: PrefectRelV| r.event_id != event_id;
    lemma_filter_key_distinct(s.prefects, fpred, |r: PrefectRelV| r.relation_id);
    lemma_filter_key_distinct(s.prefects, fpred, |r: PrefectRelV| (r.event_id, r.person_id));
    assert forall|i: int|
        0 <= i < s2.prefects.len() implies {
        &&& 0 <= (#[trigger] s2.prefects[i]).relation_id < s2.next_prefect_relation_id
        &&& people_has(s2.people, s2.prefects[i].person_id)
        &&& events_has(s2.events, s2.prefects[i].event_id)
    } by {
        let w = lemma_filter_element_index(s.prefects, fpred, i);
        assert(s2.prefects[i] == s.prefects[w]);
        assert(s.prefects[w].event_id != event_id);
    }
    assert forall|i: int, j: int|
        0 <= i < j < s2.prefects.len() implies (#[trigger] s2.prefects[i]).relation_id
        != (#[trigger] s2.prefects[j]).relation_id && !(s2.prefects[i].event_id
        == s2.prefects[j].event_id && s2.prefects[i].person_id == s2.prefects[j].person_id) by {
        let key1 = |r: PrefectRelV| r.relation_id;
        let key2 = |r: PrefectRelV| (r.event_id, r.person_id);
        assert(key1(s2.prefects[i]) != key1(s2.prefects[j]));
        assert(key2(s2.prefects[i]) != key2(s2.prefects[j]));
    }
    let gpred = |p: PhotoV| p.event_id != event_id;
    lemma_filter_key_distinct(s.photos, gpred, |p: PhotoV| p.id);
    assert forall|i: int|
        0 <= i < s2.photos.len() implies 0 <= (#[trigger] s2.photos[i]).id < s2.next_photo_id
        && events_has(s2.events, s2.photos[i].event_id) by {
        let w = lemma_filter_element_index(s.photos, gpred, i);
        assert(s2.photos[i] == s.photos[w]);
        assert(s.photos[w].event_id != event_id);
    }
    assert forall|i: int, j: int|
        0 <= i < j < s2.photos.len() implies (#[trigger] s2.photos[i].id) != (
    #[trigger] s2.photos[j].id) by {
        let key = |p: PhotoV| p.id;
        assert(key(s2.photos[i]) != key(s2.photos[j]));
    }
}

impl Store {
    /// The index of the person with the given id, if any.
    pub fn find_person_index(&self, person_id: i32) -> (r: Option<usize>)
        ensures
            match r {
                Some(ix) => ix < self@.people.len() && self@.people[ix as int].id
                    == person_id as int,
                None => !has_person(self@, person_id as int),
            },
    {
        let mut i: usize = 0;
        while i < self.people.len()
            invariant
                i <= self@.people.len(),
                forall|k: int| 0 <= k < i ==> (#[trigger] self@.people[k]).id != person_id as int,
            decreases self@.people.len() - i,
        {
            if self.people[i].id == person_id {
                return Some(i);
            }
            i = i + 1;
        }
        None
    }

    /// The index of the event with the given id, if any.
    pub fn find_event_index(&self, event_id: i32) -> (r: Option<usize>)
        ensures
            match r {
                Some(ix) => ix < self@.events.len() && self@.events[ix as int].id
                    == event_id as int,
                None => !has_event(self@, event_id as int),
            },
    {
        let mut i: usize = 0;
        while i < self.events.len()
            invariant
                i <= self@.events.len(),
                forall|k: int| 0 <= k < i ==> (#[trigger] self@.events[k]).id != event_id as int,
            decreases self@.events.len() - i,
        {
            if self.events[i].id == event_id {
                return Some(i);
            }
            i = i + 1;
        }
        None
    }

    /// The index of the participant relation with the given relation id.
    pub fn find_participant_index(&self, relation_id: i32) -> (r: Option<usize>)
        ensures
            match r {
                Some(ix) => ix < self@.participants.len()
                    && self@.participants[ix as int].relation_id == relation_id as int,
                None => !has_participant_relation(self@, relation_id as int),
            },
    {
        let mut i: usize = 0;
        while i < self.participants.len()
            invariant
                i <= self@.participants.len(),
                forall|k: int|
                    0 <= k < i ==> (#[trigger] self@.participants[k]).relation_id
                        != relation_id as int,
            decreases self@.participants.len() - i,
        {
            if self.participants[i].relation_id == relation_id {
                return Some(i);
            }
            i = i + 1;
        }
        None
    }

    /// The index of the prefect relation with the given relation id.
    pub fn find_prefect_index(&self, relation_id: i32) -> (r: Option<usize>)
        ensures
            match r {
                Some(ix) => ix < self@.prefects.len()
                    && self@.prefects[ix as int].relation_id == relation_id as int,
                None => !has_prefect_relation(self@, relation_id as int),
            },
    {
        let mut i: usize = 0;
        while i < self.prefects.len()
            invariant
                i <= self@.prefects.len(),
                forall|k: int|
                    0 <= k < i ==> (#[trigger] self@.prefects[k]).relation_id != relation_id as int,
            decreases self@.prefects.len() - i,
        {
            if self.prefects[i].relation_id == relation_id {
                return Some(i);
            }
            i = i + 1;
        }
        None
    }

    /// The index of the photo row with the given id.
    pub fn find_photo_index(&self, photo_id: i32) -> (r: Option<usize>)
        ensures
            match r {
                Some(ix) => ix < self@.photos.len() && self@.photos[ix as int].id
                    == photo_id as int,
                None => !has_photo(self@, photo_id as int),
            },
    {
        let mut i: usize = 0;
        while i < self.photos.len()
            invariant
                i <= self@.photos.len(),
                forall|k: int| 0 <= k < i ==> (#[trigger] self@.photos[k]).id != photo_id as int,
            decreases self@.photos.len() - i,
        {
            if self.photos[i].id == photo_id {
                return Some(i);
            }
            i = i + 1;
        }
        None
    }

    /// Whether the (person, event) pair already has a participant relation.
    pub fn contains_participant_pair(&self, event_id: i32, person_id: i32) -> (r: bool)
        ensures
            r == has_participant_pair(self@, event_id as int, person_id as int),
    {
        let mut i: usize = 0;
        while i < self.participants.len()
            invariant
                i <= self@.participants.len(),
                forall|k: int|
                    0 <= k < i ==> !((#[trigger] self@.participants[k]).event_id == event_id as int
                        && self@.participants[k].person_id == person_id as int),
            decreases self@.participants.len() - i,
        {
            if self.participants[i].event_id == event_id && self.participants[i].person_id
                == person_id {
                proof {
                    assert(self@.participants[i as int].event_id == event_id as int
                        && self@.participants[i as int].person_id == person_id as int);
                }
                return true;
            }
            i = i + 1;
        }
        false
    }

    /// Whether the (person, event) pair already has a prefect relation.
    pub fn contains_prefect_pair(&self, event_id: i32, person_id: i32) -> (r: bool)
        ensures
            r == has_prefect_pair(self@, event_id as int, person_id as int),
    {
        let mut i: usize = 0;
        while i < self.prefects.len()
            invariant
                i <= self@.prefects.len(),
                forall|k: int|
                    0 <= k < i ==> !((#[trigger] self@.prefects[k]).event_id == event_id as int
                        && self@.prefects[k].person_id == person_id as int),
            decreases self@.prefects.len() - i,
        {
            if self.prefects[i].event_id == event_id && self.prefects[i].person_id == person_id {
                proof {
                    assert(self@.prefects[i as int].event_id == event_id as int
                        && self@.prefects[i as int].person_id == person_id as int);
                }
                return true;
            }
            i = i + 1;
        }
        false
    }

    /// Adds a person; the store assigns the next person id.
    pub fn add_person(
        &mut self,
        first_name: String,
        surname: String,
        form: String,
        is_prefect: bool,
    ) -> (r: i32)
        requires
            old(self).wf(),
            old(self)@.next_person_id < i32::MAX,
        ensures
            final(self).wf(),
            r as int == old(self)@.next_person_id,
            final(self)@ =~= spec_add_person(
                old(self)@,
                PersonV {
                    id: r as int,
                    first_name: first_name@,
                    surname: surname@,
                    form: form@,
                    is_prefect,
                    hashed_password: None,
                },
            ),
    {
        let id = self.next_person_id;
        let ghost p = PersonV {
            id: id as int,
            first_name: first_name@,
            surname: surname@,
            form: form@,
            is_prefect,
            hashed_password: None,
        };
        self.people.push(
            Person { id, first_name, surname, form, is_prefect, hashed_password: None },
        );
        self.next_person_id = id + 1;
        proof {
            assert(self@ =~= spec_add_person(old(self)@, p));
            lemma_add_person_wf(old(self)@, p);
        }
        id
    }

    /// Persists a validated event; the store assigns the canonical id in
    /// place of the provisional one.
    pub fn create_event(&mut self, event: DbEvent) -> (r: i32)
        requires
            old(self).wf(),
            old(self)@.next_event_id < i32::MAX,
            event.date.wf(),
        ensures
            final(self).wf(),
            r as int == old(self)@.next_event_id,
            final(self)@ =~= spec_create_event(old(self)@, event@),
    {
        let id = self.next_event_id;
        let ghost ev = event@;
        self.events.push(
            DbEvent {
                id,
                event_name: event.event_name,
                date: event.date,
                location: event.location,
                teacher: event.teacher,
                other_info: event.other_info,
            },
        );
        self.next_event_id = id + 1;
        proof {
            assert(self@ =~= spec_create_event(old(self)@, ev));
            lemma_create_event_wf(old(self)@, ev);
        }
        id
    }

    /// Replaces an event's metadata, keeping its id and all its relations.
    pub fn update_event(&mut self, event_id: i32, event: DbEvent) -> (r: Result<(), VentError>)
        requires
            old(self).wf(),
            event.date.wf(),
        ensures
            final(self).wf(),
            match r {
                Ok(()) => {
                    &&& has_event(old(self)@, event_id as int)
                    &&& final(self)@ =~= spec_update_event(old(self)@, event_id as int, event@)
                },
                Err(e) => {
                    &&& !has_event(old(self)@, event_id as int)
                    &&& e == (VentError::NotFound { entity: Entity::Event, id: event_id })
                    &&& final(self)@ == old(self)@
                },
            },
    {
        let ix = match self.find_event_index(event_id) {
            Some(ix) => ix,
            None => {
                return Err(VentError::NotFound { entity: Entity::Event, id: event_id });
            },
        };
        proof {
            lemma_unique_event_ix(self@, event_id as int, ix as int);
        }
        let ghost ev = event@;
        self.events[ix] = DbEvent {
            id: event_id,
            event_name: event.event_name,
            date: event.date,
            location: event.location,
            teacher: event.teacher,
            other_info: event.other_info,
        };
        proof {
            assert(self@ =~= spec_update_event(old(self)@, event_id as int, ev));
            lemma_update_event_wf(old(self)@, event_id as int, ev);
        }
        Ok(())
    }

    /// Replaces a person's profile fields, keeping their id and stored
    /// credential.
    pub fn update_person(
        &mut self,
        person_id: i32,
        first_name: String,
        surname: String,
        form: String,
        is_prefect: bool,
    ) -> (r: Result<(), VentError>)
        requires
            old(self).wf(),
        ensures
            final(self).wf(),
            match r {
                Ok(()) => {
                    &&& has_person(old(self)@, person_id as int)
                    &&& final(self)@ =~= spec_update_person(
                        old(self)@,
                        person_id as int,
                        first_name@,
                        surname@,
                        form@,
                        is_prefect,
                    )
                },
                Err(e) => {
                    &&& !has_person(old(self)@, person_id as int)
                    &&& e == (VentError::NotFound { entity: Entity::Person, id: person_id })
                    &&& final(self)@ == old(self)@
                },
            },
    {
        let ix = match self.find_person_index(person_id) {
            Some(ix) => ix,
            None => {
                return Err(VentError::NotFound { entity: Entity::Person, id: person_id });
            },
        };
        proof {
            lemma_unique_person_ix(self@, person_id as int, ix as int);
        }
        let hashed_password = match &self.people[ix].hashed_password {
            Some(h) => Some(h.clone()),
            None => None,
        };
        let ghost fname = first_name@;
        let ghost sname = surname@;
        let ghost fform = form@;
        self.people[ix] = Person {
            id: person_id,
            first_name,
            surname,
            form,
            is_prefect,
            hashed_password,
        };
        proof {
            assert(self@ =~= spec_update_person(
                old(self)@,
                person_id as int,
                fname,
                sname,
                fform,
                is_prefect,
            ));
            lemma_update_person_wf(old(self)@, person_id as int, fname, sname, fform, is_prefect);
        }
        Ok(())
    }

    /// A member's own profile edit: new display name, new stored credential;
    /// cohort and role flag stay as they were.
    pub fn update_login_details(
        &mut self,
        person_id: i32,
        first_name: String,
        surname: String,
        hashed_password: String,
    ) -> (r: Result<(), VentError>)
        requires
            old(self).wf(),
        ensures
            final(self).wf(),
            match r {
                Ok(()) => {
                    &&& has_person(old(self)@, person_id as int)
                    &&& final(self)@ =~= spec_update_login_details(
                        old(self)@,
                        person_id as int,
                        first_name@,
                        surname@,
                        hashed_password@,
                    )
                },
                Err(e) => {
                    &&& !has_person(old(self)@, person_id as int)
                    &&& e == (VentError::NotFound { entity: Entity::Person, id: person_id })
                    &&& final(self)@ == old(self)@
                },
            },
    {
        let ix = match self.find_person_index(person_id) {
            Some(ix) => ix,
            None => {
                return Err(VentError::NotFound { entity: Entity::Person, id: person_id });
            },
        };
        proof {
            lemma_unique_person_ix(self@, person_id as int, ix as int);
        }
        let form = self.people[ix].form.clone();
        let is_prefect = self.people[ix].is_prefect;
        let ghost fname = first_name@;
        let ghost sname = surname@;
        let ghost hpw = hashed_password@;
        self.people[ix] = Person {
            id: person_id,
            first_name,
            surname,
            form,
            is_prefect,
            hashed_password: Some(hashed_password),
        };
        proof {
            assert(self@ =~= spec_update_login_details(
                old(self)@,
                person_id as int,
                fname,
                sname,
                hpw,
            ));
            lemma_update_login_details_wf(old(self)@, person_id as int, fname, sname, hpw);
        }
        Ok(())
    }

    /// Adds a participant relation for the pair, unverified, under a fresh
    /// relation id; reports a conflict when the pair is already related.
    pub fn add_participant(&mut self, event_id: i32, person_id: i32) -> (r: Result<
        i32,
        VentError,
    >)
        requires
            old(self).wf(),
            old(self)@.next_participant_relation_id < i32::MAX,
        ensures
            final(self).wf(),
            match r {
                Ok(rid) => {
                    &&& has_event(old(self)@, event_id as int)
                    &&& has_person(old(self)@, person_id as int)
                    &&& !has_participant_pair(old(self)@, event_id as int, person_id as int)
                    &&& rid as int == old(self)@.next_participant_relation_id
                    &&& final(self)@ =~= spec_add_participant(
                        old(self)@,
                        event_id as int,
                        person_id as int,
                    )
                },
                Err(e) => {
                    &&& final(self)@ == old(self)@
                    &&& !(has_event(old(self)@, event_id as int) && has_person(
                        old(self)@,
                        person_id as int,
                    ) && !has_participant_pair(old(self)@, event_id as int, person_id as int))
                    &&& e == (if !has_event(old(self)@, event_id as int) {
                        VentError::NotFound { entity: Entity::Event, id: event_id }
                    } else if !has_person(old(self)@, person_id as int) {
                        VentError::NotFound { entity: Entity::Person, id: person_id }
                    } else {
                        VentError::Conflict
                    })
                },
            },
    {
        if self.find_event_index(event_id).is_none() {
            return Err(VentError::NotFound { entity: Entity::Event, id: event_id });
        }
        if self.find_person_index(person_id).is_none() {
            return Err(VentError::NotFound { entity: Entity::Person, id: person_id });
        }
        if self.contains_participant_pair(event_id, person_id) {
            return Err(VentError::Conflict);
        }
        let rid = self.next_participant_relation_id;
        self.participants.push(
            ParticipantRelation { relation_id: rid, event_id, person_id, is_verified: false },
        );
        self.next_participant_relation_id = rid + 1;
        proof {
            assert(self@ =~= spec_add_participant(old(self)@, event_id as int, person_id as int));
            lemma_add_participant_wf(old(self)@, event_id as int, person_id as int);
        }
        Ok(rid)
    }

    /// Adds a prefect relation for the pair under a fresh relation id;
    /// reports a conflict when the pair is already related.
    pub fn add_prefect(&mut self, event_id: i32, person_id: i32) -> (r: Result<i32, VentError>)
        requires
            old(self).wf(),
            old(self)@.next_prefect_relation_id < i32::MAX,
        ensures
            final(self).wf(),
            match r {
                Ok(rid) => {
                    &&& has_event(old(self)@, event_id as int)
                    &&& has_person(old(self)@, person_id as int)
                    &&& !has_prefect_pair(old(self)@, event_id as int, person_id as int)
                    &&& rid as int == old(self)@.next_prefect_relation_id
                    &&& final(self)@ =~= spec_add_prefect(
                        old(self)@,
                        event_id as int,
                        person_id as int,
                    )
                },
                Err(e) => {
                    &&& final(self)@ == old(self)@
                    &&& !(has_event(old(self)@, event_id as int) && has_person(
                        old(self)@,
                        person_id as int,
                    ) && !has_prefect_pair(old(self)@, event_id as int, person_id as int))
                    &&& e == (if !has_event(old(self)@, event_id as int) {
                        VentError::NotFound { entity: Entity::Event, id: event_id }
                    } else if !has_person(old(self)@, person_id as int) {
                        VentError::NotFound { entity: Entity::Person, id: person_id }
                    } else {
                        VentError::Conflict
                    })
                },
            },
    {
        if self.find_event_index(event_id).is_none() {
            return Err(VentError::NotFound { entity: Entity::Event, id: event_id });
        }
        if self.find_person_index(person_id).is_none() {
            return Err(VentError::NotFound { entity: Entity::Person, id: person_id });
        }
        if self.contains_prefect_pair(event_id, person_id) {
            return Err(VentError::Conflict);
        }
        let rid = self.next_prefect_relation_id;
        self.prefects.push(PrefectRelation { relation_id: rid, event_id, person_id });
        self.next_prefect_relation_id = rid + 1;
        proof {
            assert(self@ =~= spec_add_prefect(old(self)@, event_id as int, person_id as int));
            lemma_add_prefect_wf(old(self)@, event_id as int, person_id as int);
        }
        Ok(rid)
    }

    /// Removes a participant relation by its own id — not by the pair it
    /// joins — and reports the owning event for the caller to re-render.
    /// A missing id is reported and nothing in the store changes.
    pub fn remove_participant(&mut self, relation_id: i32) -> (r: Result<i32, VentError>)
        requires
            old(self).wf(),
        ensures
            final(self).wf(),
            match r {
                Ok(event_id) => {
                    &&& has_participant_relation(old(self)@, relation_id as int)
                    &&& event_id as int == participant_of(
                        old(self)@,
                        relation_id as int,
                    ).event_id
                    &&& final(self)@ =~= spec_remove_participant(old(self)@, relation_id as int)
                },
                Err(e) => {
                    &&& !has_participant_relation(old(self)@, relation_id as int)
                    &&& e == (VentError::NotFound {
                        entity: Entity::ParticipantRelation,
                        id: relation_id,
                    })
                    &&& final(self)@ == old(self)@
                },
            },
    {
        let ix = match self.find_participant_index(relation_id) {
            Some(ix) => ix,
            None => {
                return Err(VentError::NotFound {
                    entity: Entity::ParticipantRelation,
                    id: relation_id,
                });
            },
        };
        proof {
            lemma_unique_participant_ix(self@, relation_id as int, ix as int);
        }
        let event_id = self.participants[ix].event_id;
        self.participants.remove(ix);
        proof {
            assert(self@ =~= spec_remove_participant(old(self)@, relation_id as int));
            lemma_remove_participant_wf(old(self)@, relation_id as int);
        }
        Ok(event_id)
    }

    /// Removes a prefect relation by its own id, reporting the owning event.
    /// A missing id is reported and nothing in the store changes.
    pub fn remove_prefect(&mut self, relation_id: i32) -> (r: Result<i32, VentError>)
        requires
            old(self).wf(),
        ensures
            final(self).wf(),
            match r {
                Ok(event_id) => {
                    &&& has_prefect_relation(old(self)@, relation_id as int)
                    &&& event_id as int == prefect_of(old(self)@, relation_id as int).event_id
                    &&& final(self)@ =~= spec_remove_prefect(old(self)@, relation_id as int)
                },
                Err(e) => {
                    &&& !has_prefect_relation(old(self)@, relation_id as int)
                    &&& e == (VentError::NotFound {
                        entity: Entity::PrefectRelation,
                        id: relation_id,
                    })
                    &&& final(self)@ == old(self)@
                },
            },
    {
        let ix = match self.find_prefect_index(relation_id) {
            Some(ix) => ix,
            None => {
                return Err(VentError::NotFound {
                    entity: Entity::PrefectRelation,
                    id: relation_id,
                });
            },
        };
        proof {
            lemma_unique_prefect_ix(self@, relation_id as int, ix as int);
        }
        let event_id = self.prefects[ix].event_id;
        self.prefects.remove(ix);
        proof {
            assert(self@ =~= spec_remove_prefect(old(self)@, relation_id as int));
            lemma_remove_prefect_wf(old(self)@, relation_id as int);
        }
        Ok(event_id)
    }

    /// Sets the verification flag of a participant relation. Idempotent:
    /// the row ends in the given state no matter how often it is set.
    pub fn set_verified(&mut self, relation_id: i32, verified: bool) -> (r: Result<(), VentError>)
        requires
            old(self).wf(),
        ensures
            final(self).wf(),
            match r {
                Ok(()) => {
                    &&& has_participant_relation(old(self)@, relation_id as int)
                    &&& final(self)@ =~= spec_set_verified(old(self)@, relation_id as int, verified)
                },
                Err(e) => {
                    &&& !has_participant_relation(old(self)@, relation_id as int)
                    &&& e == (VentError::NotFound {
                        entity: Entity::ParticipantRelation,
                        id: relation_id,
                    })
                    &&& final(self)@ == old(self)@
                },
            },
    {
        let ix = match self.find_participant_index(relation_id) {
            Some(ix) => ix,
            None => {
                return Err(VentError::NotFound {
                    entity: Entity::ParticipantRelation,
                    id: relation_id,
                });
            },
        };
        proof {
            lemma_unique_participant_ix(self@, relation_id as int, ix as int);
        }
        let cur = self.participants[ix];
        self.participants[ix] = ParticipantRelation { is_verified: verified, ..cur };
        proof {
            assert(self@ =~= spec_set_verified(old(self)@, relation_id as int, verified));
            lemma_set_verified_wf(old(self)@, relation_id as int, verified);
        }
        Ok(())
    }

    /// Adds a photo row for an existing event; the store assigns the id.
    pub fn add_photo(&mut self, event_id: i32, path: String) -> (r: Result<i32, VentError>)
        requires
            old(self).wf(),
            old(self)@.next_photo_id < i32::MAX,
        ensures
            final(self).wf(),
            match r {
                Ok(photo_id) => {
                    &&& has_event(old(self)@, event_id as int)
                    &&& photo_id as int == old(self)@.next_photo_id
                    &&& final(self)@ =~= spec_add_photo(old(self)@, event_id as int, path@)
                },
                Err(e) => {
                    &&& !has_event(old(self)@, event_id as int)
                    &&& e == (VentError::NotFound { entity: Entity::Event, id: event_id })
                    &&& final(self)@ == old(self)@
                },
            },
    {
        if self.find_event_index(event_id).is_none() {
            return Err(VentError::NotFound { entity: Entity::Event, id: event_id });
        }
        let id = self.next_photo_id;
        let ghost pth = path@;
        self.photos.push(Photo { id, event_id, path });
        self.next_photo_id = id + 1;
        proof {
            assert(self@ =~= spec_add_photo(old(self)@, event_id as int, pth));
            lemma_add_photo_wf(old(self)@, event_id as int, pth);
        }
        Ok(id)
    }

    /// Deletes a photo row, handing back the owning event and the path of
    /// the backing file so the caller can remove the file afterwards — the
    /// row goes first, never the file, so a failed file removal leaves at
    /// worst a harmless orphan on disk, not a row pointing at nothing.
    pub fn delete_photo_row(&mut self, photo_id: i32) -> (r: Result<PhotoDeletion, VentError>)
        requires
            old(self).wf(),
        ensures
            final(self).wf(),
            match r {
                Ok(d) => {
                    &&& has_photo(old(self)@, photo_id as int)
                    &&& d.event_id as int == photo_of(old(self)@, photo_id as int).event_id
                    &&& d.path@ == photo_of(old(self)@, photo_id as int).path
                    &&& final(self)@ =~= spec_delete_photo_row(old(self)@, photo_id as int)
                },
                Err(e) => {
                    &&& !has_photo(old(self)@, photo_id as int)
                    &&& e == (VentError::NotFound { entity: Entity::Photo, id: photo_id })
                    &&& final(self)@ == old(self)@
                },
            },
    {
        let ix = match self.find_photo_index(photo_id) {
            Some(ix) => ix,
            None => {
                return Err(VentError::NotFound { entity: Entity::Photo, id: photo_id });
            },
        };
        proof {
            lemma_unique_photo_ix(self@, photo_id as int, ix as int);
        }
        let event_id = self.photos[ix].event_id;
        let path = self.photos[ix].path.clone();
        self.photos.remove(ix);
        proof {
            assert(self@ =~= spec_delete_photo_row(old(self)@, photo_id as int));
            lemma_delete_photo_row_wf(old(self)@, photo_id as int);
        }
        Ok(PhotoDeletion { event_id, path })
    }
}

/// The participant relations that survive deleting the given event, as rows.
fn filter_participants(v: &Vec<ParticipantRelation>, event_id: i32) -> (r: Vec<
    ParticipantRelation,
>)
    ensures
        r@.map_values(|x: ParticipantRelation| x@) =~= kept_participants(
            v@.map_values(|x: ParticipantRelation| x@),
            event_id as int,
        ),
{
    let ghost vv = v@.map_values(|x: ParticipantRelation| x@);
    let ghost pred = |rv: ParticipantRelV| rv.event_id != event_id as int;
    let mut r: Vec<ParticipantRelation> = Vec::new();
    let mut i: usize = 0;
    proof {
        reveal(Seq::filter);
        assert(vv.take(0) =~= Seq::<ParticipantRelV>::empty());
        assert(r@.map_values(|x: ParticipantRelation| x@) =~= vv.take(0).filter(pred));
    }
    while i < v.len()
        invariant
            i <= v.len(),
            vv == v@.map_values(|x: ParticipantRelation| x@),
            pred == (|rv: ParticipantRelV| rv.event_id != event_id as int),
            r@.map_values(|x: ParticipantRelation| x@) =~= vv.take(i as int).filter(pred),
        decreases v.len() - i,
    {
        proof {
            reveal(Seq::filter);
            assert(vv.take(i + 1).drop_last() =~= vv.take(i as int));
            assert(vv.take(i + 1).last() == vv[i as int]);
        }
        if v[i].event_id != event_id {
            r.push(v[i]);
            proof {
                assert(pred(vv[i as int]));
                assert(vv.take(i + 1).filter(pred) =~= vv.take(i as int).filter(pred).push(
                    vv[i as int],
                ));
            }
        } else {
            proof {
                assert(!pred(vv[i as int]));
                assert(vv.take(i + 1).filter(pred) =~= vv.take(i as int).filter(pred));
            }
        }
        i = i + 1;
    }
    proof {
        assert(vv.take(v.len() as int) =~= vv);
    }
    r
}

/// The prefect relations that survive deleting the given event, as rows.
fn filter_prefects(v: &Vec<PrefectRelation>, event_id: i32) -> (r: Vec<PrefectRelation>)
    ensures
        r@.map_values(|x: PrefectRelation| x@) =~= kept_prefects(
            v@.map_values(|x: PrefectRelation| x@),
            event_id as int,
        ),
{
    let ghost vv = v@.map_values(|x: PrefectRelation| x@);
    let ghost pred = |rv: PrefectRelV| rv.event_id != event_id as int;
    let mut r: Vec<PrefectRelation> = Vec::new();
    let mut i: usize = 0;
    proof {
        reveal(Seq::filter);
        assert(vv.take(0) =~= Seq::<PrefectRelV>::empty());
        assert(r@.map_values(|x: PrefectRelation| x@) =~= vv.take(0).filter(pred));
    }
    while i < v.len()
        invariant
            i <= v.len(),
            vv == v@.map_values(|x: PrefectRelation| x@),
            pred == (|rv: PrefectRelV| rv.event_id != event_id as int),
            r@.map_values(|x: PrefectRelation| x@) =~= vv.take(i as int).filter(pred),
        decreases v.len() - i,
    {
        proof {
            reveal(Seq::filter);
            assert(vv.take(i + 1).drop_last() =~= vv.take(i as int));
            assert(vv.take(i + 1).last() == vv[i as int]);
        }
        if v[i].event_id != event_id {
            r.push(v[i]);
            proof {
                assert(pred(vv[i as int]));
                assert(vv.take(i + 1).filter(pred) =~= vv.take(i as int).filter(pred).push(
                    vv[i as int],
                ));
            }
        } else {
            proof {
                assert(!pred(vv[i as int]));
                assert(vv.take(i + 1).filter(pred) =~= vv.take(i as int).filter(pred));
            }
        }
        i = i + 1;
    }
    proof {
        assert(vv.take(v.len() as int) =~= vv);
    }
    r
}

/// Splits the photo table into the rows that survive deleting the given
/// event and the backing-file paths of the rows that go.
fn split_photos(v: &Vec<Photo>, event_id: i32) -> (r: (Vec<Photo>, Vec<String>))
    ensures
        r.0@.map_values(|x: Photo| x@) =~= kept_photos(
            v@.map_values(|x: Photo| x@),
            event_id as int,
        ),
        r.1@.map_values(|x: String| x@) =~= orphan_paths(
            v@.map_values(|x: Photo| x@),
            event_id as int,
        ),
{
    let ghost vv = v@.map_values(|x: Photo| x@);
    let ghost keep = |pv: PhotoV| pv.event_id != event_id as int;
    let ghost gone = |pv: PhotoV| pv.event_id == event_id as int;
    let mut kept: Vec<Photo> = Vec::new();
    let mut paths: Vec<String> = Vec::new();
    let mut i: usize = 0;
    proof {
        reveal(Seq::filter);
        assert(vv.take(0) =~= Seq::<PhotoV>::empty());
        assert(kept@.map_values(|x: Photo| x@) =~= vv.take(0).filter(keep));
        assert(paths@.map_values(|x: String| x@) =~= vv.take(0).filter(gone).map_values(
            |p: PhotoV| p.path,
        ));
    }
    while i < v.len()
        invariant
            i <= v.len(),
            vv == v@.map_values(|x: Photo| x@),
            keep == (|pv: PhotoV| pv.event_id != event_id as int),
            gone == (|pv: PhotoV| pv.event_id == event_id as int),
            kept@.map_values(|x: Photo| x@) =~= vv.take(i as int).filter(keep),
            paths@.map_values(|x: String| x@) =~= vv.take(i as int).filter(gone).map_values(
                |p: PhotoV| p.path,
            ),
        decreases v.len() - i,
    {
        proof {
            reveal(Seq::filter);
            assert(vv.take(i + 1).drop_last() =~= vv.take(i as int));
            assert(vv.take(i + 1).last() == vv[i as int]);
        }
        if v[i].event_id != event_id {
            kept.push(v[i].clone());
            proof {
                assert(keep(vv[i as int]) && !gone(vv[i as int]));
                assert(vv.take(i + 1).filter(keep) =~= vv.take(i as int).filter(keep).push(
                    vv[i as int],
                ));
                assert(vv.take(i + 1).filter(gone) =~= vv.take(i as int).filter(gone));
            }
        } else {
            paths.push(v[i].path.clone());
            proof {
                assert(!keep(vv[i as int]) && gone(vv[i as int]));
                assert(vv.take(i + 1).filter(keep) =~= vv.take(i as int).filter(keep));
                assert(vv.take(i + 1).filter(gone) =~= vv.take(i as int).filter(gone).push(
                    vv[i as int],
                ));
                assert(vv.take(i + 1).filter(gone).map_values(|p: PhotoV| p.path) =~= vv.take(
                    i as int,
                ).filter(gone).map_values(|p: PhotoV| p.path).push(vv[i as int].path));
            }
        }
        i = i + 1;
    }
    proof {
        assert(vv.take(v.len() as int) =~= vv);
    }
    (kept, paths)
}

impl Store {
    /// Deletes an event together with everything owned by it: its
    /// participant and prefect relations and its photo rows go in the same
    /// step, and the paths of the removed photos' backing files come back
    /// for the caller to delete from disk afterwards — rows first, files
    /// second, never the other way round.
    pub fn delete_event(&mut self, event_id: i32) -> (r: Result<Vec<String>, VentError>)
        requires
            old(self).wf(),
        ensures
            final(self).wf(),
            match r {
                Ok(paths) => {
                    &&& has_event(old(self)@, event_id as int)
                    &&& final(self)@ =~= spec_delete_event(old(self)@, event_id as int)
                    &&& paths@.map_values(|x: String| x@) =~= spec_orphaned_paths(
                        old(self)@,
                        event_id as int,
                    )
                },
                Err(e) => {
                    &&& !has_event(old(self)@, event_id as int)
                    &&& e == (VentError::NotFound { entity: Entity::Event, id: event_id })
                    &&& final(self)@ == old(self)@
                },
            },
    {
        let ix = match self.find_event_index(event_id) {
            Some(ix) => ix,
            None => {
                return Err(VentError::NotFound { entity: Entity::Event, id: event_id });
            },
        };
        proof {
            lemma_unique_event_ix(self@, event_id as int, ix as int);
        }
        self.events.remove(ix);
        self.participants = filter_participants(&self.participants, event_id);
        self.prefects = filter_prefects(&self.prefects, event_id);
        let (kept, paths) = split_photos(&self.photos, event_id);
        self.photos = kept;
        proof {
            assert(self@ =~= spec_delete_event(old(self)@, event_id as int));
            lemma_delete_event_wf(old(self)@, event_id as int);
        }
        Ok(paths)
    }
}

/// Law: removing a participant relation straight after adding it restores
/// the pre-call relation table exactly. Only the relation id counter — ids
/// are never reused — records that anything happened, and no roster view
/// reads the counter, so every roster view of the store is as before the
/// pair of calls.
pub proof fn lemma_participant_add_remove_round_trip(s: StoreV, event_id: int, person_id: int)
    requires
        store_wf(s),
        has_event(s, event_id),
        has_person(s, person_id),
        !has_participant_pair(s, event_id, person_id),
        s.next_participant_relation_id + 1 <= i32::MAX,
    ensures
        spec_remove_participant(
            spec_add_participant(s, event_id, person_id),
            s.next_participant_relation_id,
        ) =~= (StoreV { next_participant_relation_id: s.next_participant_relation_id + 1, ..s }),
{
    let rid = s.next_participant_relation_id;
    let s2 = spec_add_participant(s, event_id, person_id);
    let n = s.participants.len() as int;
    lemma_add_participant_wf(s, event_id, person_id);
    assert(s2.participants[n].relation_id == rid);
    lemma_unique_participant_ix(s2, rid, n);
    assert(s2.participants.remove(n) =~= s.participants);
}

/// Law: once a prefect relation for a pair is in place, the pair is related,
/// and the store is still well-formed. By the contract of `add_prefect`, a
/// second call for the same pair must therefore answer `Conflict` and leave
/// the store — and with it every roster view — exactly as it was.
pub proof fn lemma_prefect_add_then_conflict(s: StoreV, event_id: int, person_id: int)
    requires
        store_wf(s),
        has_event(s, event_id),
        has_person(s, person_id),
        !has_prefect_pair(s, event_id, person_id),
        s.next_prefect_relation_id + 1 <= i32::MAX,
    ensures
        store_wf(spec_add_prefect(s, event_id, person_id)),
        has_prefect_pair(spec_add_prefect(s, event_id, person_id), event_id, person_id),
{
    let s2 = spec_add_prefect(s, event_id, person_id);
    let n = s.prefects.len() as int;
    lemma_add_prefect_wf(s, event_id, person_id);
    assert(s2.prefects[n].event_id == event_id && s2.prefects[n].person_id == person_id);
}

/// Law: the participant counterpart of [`lemma_prefect_add_then_conflict`].
pub proof fn lemma_participant_add_then_conflict(s: StoreV, event_id: int, person_id: int)
    requires
        store_wf(s),
        has_event(s, event_id),
        has_person(s, person_id),
        !has_participant_pair(s, event_id, person_id),
        s.next_participant_relation_id + 1 <= i32::MAX,
    ensures
        store_wf(spec_add_participant(s, event_id, person_id)),
        has_participant_pair(spec_add_participant(s, event_id, person_id), event_id, person_id),
{
    let s2 = spec_add_participant(s, event_id, person_id);
    let n = s.participants.len() as int;
    lemma_add_participant_wf(s, event_id, person_id);
    assert(s2.participants[n].event_id == event_id && s2.participants[n].person_id == person_id);
}

/// Law: setting the verification flag is idempotent — setting it again to
/// the same value changes nothing.
pub proof fn lemma_set_verified_idempotent(s: StoreV, relation_id: int, verified: bool)
    requires
        store_wf(s),
        has_participant_relation(s, relation_id),
    ensures
        spec_set_verified(spec_set_verified(s, relation_id, verified), relation_id, verified)
            =~= spec_set_verified(s, relation_id, verified),
{
    let ix = participant_ix(s, relation_id);
    assert(0 <= ix < s.participants.len() && s.participants[ix].relation_id == relation_id);
    let s2 = spec_set_verified(s, relation_id, verified);
    lemma_set_verified_wf(s, relation_id, verified);
    assert(s2.participants[ix].relation_id == relation_id);
    lemma_unique_participant_ix(s2, relation_id, ix);
    assert(spec_set_verified(s2, relation_id, verified).participants =~= s2.participants);
}

/// What a photo deletion hands back for the filesystem step: the owning
/// event and the path of the backing file to remove.
#[derive(Debug)]
pub struct PhotoDeletion {
    pub event_id: i32,
    pub path: String,
}

/// The outcome reported once the filesystem step of a photo deletion has
/// been attempted. There is no failure case: the row is already gone and the
/// store is authoritative. A file that could not be removed is recorded as
/// an orphaned path, for the caller to log and nothing more.
#[derive(Debug)]
pub struct PhotoDeleteReport {
    pub event_id: i32,
    pub orphaned_path: Option<String>,
}

/// Completes a photo deletion after the caller attempted to remove the
/// backing file.
///
/// The operation reports success whether or not the file was still on disk;
/// a surviving file is reported as an orphan to log, never as a failure, and
/// the row stays deleted either way.
pub fn photo_delete_report(deletion: PhotoDeletion, file_removed: bool) -> (r: PhotoDeleteReport)
    ensures
        r.event_id == deletion.event_id,
        file_removed ==> r.orphaned_path is None,
        !file_removed ==> r.orphaned_path == Some(deletion.path),
{
    if file_removed {
        PhotoDeleteReport { event_id: deletion.event_id, orphaned_path: None }
    } else {
        PhotoDeleteReport { event_id: deletion.event_id, orphaned_path: Some(deletion.path) }
    }
}

} // verus!
