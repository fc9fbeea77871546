use vent::dates::parse_event_date;
use vent::error::{Entity, VentError};
use vent::model::DbEvent;
use vent::store::{photo_delete_report, Store};

fn event(name: &str, date: &str) -> DbEvent {
    DbEvent {
        id: -1,
        event_name: name.to_string(),
        date: parse_event_date(date).unwrap(),
        location: "Hall".to_string(),
        teacher: "Dr Frost".to_string(),
        other_info: None,
    }
}

fn store_with_event() -> (Store, i32) {
    let mut store = Store::new();
    let event_id = store.create_event(event("Quiz night", "2024-05-01T18:00"));
    (store, event_id)
}

#[test]
fn created_events_get_fresh_canonical_ids() {
    let mut store = Store::new();
    let first = store.create_event(event("One", "2024-05-01T18:00"));
    let second = store.create_event(event("Two", "2024-05-02T18:00"));
    assert_eq!(first, 1);
    assert_eq!(second, 2);
    assert_eq!(store.events.len(), 2);
    assert_eq!(store.events[0].event_name, "One");
    assert_eq!(store.events[0].id, first);
}

#[test]
fn adding_the_same_prefect_pair_twice_conflicts_and_changes_nothing() {
    let (mut store, event_id) = store_with_event();
    let alice = store.add_person("Alice".to_string(), "Hale".to_string(), "9".to_string(), true);
    let rid = store.add_prefect(event_id, alice).unwrap();
    let before = store.prefects.clone();
    assert_eq!(store.add_prefect(event_id, alice), Err(VentError::Conflict));
    assert_eq!(store.prefects, before);
    assert_eq!(store.prefects[0].relation_id, rid);
}

#[test]
fn adding_the_same_participant_pair_twice_conflicts() {
    let (mut store, event_id) = store_with_event();
    let bob = store.add_person("Bob".to_string(), "Li".to_string(), "10".to_string(), false);
    store.add_participant(event_id, bob).unwrap();
    let before = store.participants.clone();
    assert_eq!(store.add_participant(event_id, bob), Err(VentError::Conflict));
    assert_eq!(store.participants, before);
}

#[test]
fn relations_need_an_existing_event_and_person() {
    let (mut store, event_id) = store_with_event();
    let carol = store.add_person("Carol".to_string(), "Oz".to_string(), "9".to_string(), true);
    assert_eq!(
        store.add_participant(77, carol),
        Err(VentError::NotFound { entity: Entity::Event, id: 77 })
    );
    assert_eq!(
        store.add_prefect(event_id, 55),
        Err(VentError::NotFound { entity: Entity::Person, id: 55 })
    );
}

#[test]
fn removing_a_missing_relation_reports_not_found_and_mutates_nothing() {
    let (mut store, event_id) = store_with_event();
    let dan = store.add_person("Dan".to_string(), "Reed".to_string(), "8".to_string(), false);
    store.add_participant(event_id, dan).unwrap();
    let participants_before = store.participants.clone();
    let prefects_before = store.prefects.clone();
    assert_eq!(
        store.remove_participant(999),
        Err(VentError::NotFound { entity: Entity::ParticipantRelation, id: 999 })
    );
    assert_eq!(
        store.remove_prefect(999),
        Err(VentError::NotFound { entity: Entity::PrefectRelation, id: 999 })
    );
    assert_eq!(store.participants, participants_before);
    assert_eq!(store.prefects, prefects_before);
}

#[test]
fn removal_is_keyed_by_relation_id_and_returns_the_owning_event() {
    let mut store = Store::new();
    let e1 = store.create_event(event("One", "2024-05-01T18:00"));
    let e2 = store.create_event(event("Two", "2024-05-02T18:00"));
    let eve = store.add_person("Eve".to_string(), "Marsh".to_string(), "9".to_string(), false);
    let r1 = store.add_participant(e1, eve).unwrap();
    let r2 = store.add_participant(e2, eve).unwrap();
    assert_ne!(r1, r2);
    assert_eq!(store.remove_participant(r2), Ok(e2));
    assert_eq!(store.participants.len(), 1);
    assert_eq!(store.participants[0].relation_id, r1);
}

#[test]
fn add_then_remove_restores_the_participant_relations_exactly() {
    let (mut store, event_id) = store_with_event();
    let fay = store.add_person("Fay".to_string(), "North".to_string(), "7".to_string(), false);
    let gil = store.add_person("Gil".to_string(), "Ames".to_string(), "7".to_string(), false);
    store.add_participant(event_id, gil).unwrap();
    let before = store.participants.clone();
    let rid = store.add_participant(event_id, fay).unwrap();
    assert_eq!(store.remove_participant(rid), Ok(event_id));
    assert_eq!(store.participants, before);
}

#[test]
fn relation_ids_are_not_reused_after_a_round_trip() {
    let (mut store, event_id) = store_with_event();
    let hal = store.add_person("Hal".to_string(), "Quinn".to_string(), "9".to_string(), false);
    let first = store.add_participant(event_id, hal).unwrap();
    store.remove_participant(first).unwrap();
    let second = store.add_participant(event_id, hal).unwrap();
    assert!(second > first);
}

#[test]
fn set_verified_flags_one_relation_and_is_idempotent() {
    let (mut store, event_id) = store_with_event();
    let ida = store.add_person("Ida".to_string(), "Voss".to_string(), "8".to_string(), false);
    let jan = store.add_person("Jan".to_string(), "Beck".to_string(), "8".to_string(), false);
    let r_ida = store.add_participant(event_id, ida).unwrap();
    let r_jan = store.add_participant(event_id, jan).unwrap();
    assert_eq!(store.set_verified(r_ida, true), Ok(()));
    let after_once = store.participants.clone();
    assert_eq!(store.set_verified(r_ida, true), Ok(()));
    assert_eq!(store.participants, after_once);
    assert!(store.participants.iter().find(|r| r.relation_id == r_ida).unwrap().is_verified);
    assert!(!store.participants.iter().find(|r| r.relation_id == r_jan).unwrap().is_verified);
    assert_eq!(
        store.set_verified(999, true),
        Err(VentError::NotFound { entity: Entity::ParticipantRelation, id: 999 })
    );
}

#[test]
fn update_event_replaces_metadata_and_keeps_relations() {
    let (mut store, event_id) = store_with_event();
    let kim = store.add_person("Kim".to_string(), "Sole".to_string(), "9".to_string(), true);
    store.add_prefect(event_id, kim).unwrap();
    assert_eq!(store.update_event(event_id, event("Quiz night, rescheduled", "2024-05-08T18:00")), Ok(()));
    assert_eq!(store.events[0].id, event_id);
    assert_eq!(store.events[0].event_name, "Quiz night, rescheduled");
    assert_eq!(store.prefects.len(), 1);
    assert_eq!(
        store.update_event(404, event("Nowhere", "2024-05-08T18:00")),
        Err(VentError::NotFound { entity: Entity::Event, id: 404 })
    );
}

#[test]
fn update_person_keeps_id_and_credential() {
    let (mut store, _event_id) = store_with_event();
    let lee = store.add_person("Lee".to_string(), "Park".to_string(), "9".to_string(), false);
    assert_eq!(
        store.update_login_details(lee, "Lee".to_string(), "Park".to_string(), "opaque-digest".to_string()),
        Ok(())
    );
    assert_eq!(
        store.update_person(lee, "Lee".to_string(), "Parker".to_string(), "10".to_string(), true),
        Ok(())
    );
    let p = &store.people[0];
    assert_eq!(p.id, lee);
    assert_eq!(p.surname, "Parker");
    assert_eq!(p.form, "10");
    assert!(p.is_prefect);
    assert_eq!(p.hashed_password.as_deref(), Some("opaque-digest"));
    assert_eq!(
        store.update_person(123, "No".to_string(), "One".to_string(), "1".to_string(), false),
        Err(VentError::NotFound { entity: Entity::Person, id: 123 })
    );
}

#[test]
fn deleting_an_event_cascades_to_relations_and_photos() {
    let mut store = Store::new();
    let keep = store.create_event(event("Keep", "2024-05-01T18:00"));
    let gone = store.create_event(event("Gone", "2024-05-02T18:00"));
    let mia = store.add_person("Mia".to_string(), "Frey".to_string(), "9".to_string(), true);
    store.add_prefect(keep, mia).unwrap();
    store.add_prefect(gone, mia).unwrap();
    store.add_participant(gone, mia).unwrap();
    store.add_photo(gone, "photos/gone-1.jpg".to_string()).unwrap();
    store.add_photo(keep, "photos/keep-1.jpg".to_string()).unwrap();
    store.add_photo(gone, "photos/gone-2.jpg".to_string()).unwrap();

    let orphans = store.delete_event(gone).unwrap();
    assert_eq!(orphans, vec!["photos/gone-1.jpg".to_string(), "photos/gone-2.jpg".to_string()]);
    assert_eq!(store.events.len(), 1);
    assert_eq!(store.events[0].id, keep);
    assert_eq!(store.prefects.len(), 1);
    assert_eq!(store.prefects[0].event_id, keep);
    assert!(store.participants.is_empty());
    assert_eq!(store.photos.len(), 1);
    assert_eq!(store.photos[0].path, "photos/keep-1.jpg");
    assert_eq!(
        store.delete_event(gone),
        Err(VentError::NotFound { entity: Entity::Event, id: gone })
    );
}

#[test]
fn photo_rows_are_deleted_before_their_files() {
    let (mut store, event_id) = store_with_event();
    let photo_id = store.add_photo(event_id, "photos/a.jpg".to_string()).unwrap();
    let deletion = store.delete_photo_row(photo_id).unwrap();
    assert_eq!(deletion.event_id, event_id);
    assert_eq!(deletion.path, "photos/a.jpg");
    assert!(store.photos.is_empty());
    match store.delete_photo_row(photo_id) {
        Err(e) => assert_eq!(e, VentError::NotFound { entity: Entity::Photo, id: photo_id }),
        Ok(_) => panic!("the row must already be gone"),
    }
}

#[test]
fn a_missing_backing_file_still_reports_success() {
    let (mut store, event_id) = store_with_event();
    let photo_id = store.add_photo(event_id, "photos/missing.jpg".to_string()).unwrap();
    let deletion = store.delete_photo_row(photo_id).unwrap();
    // the file had already vanished from disk: the row deletion stands and
    // the report still names the event, with the orphan only logged
    let report = photo_delete_report(deletion, false);
    assert_eq!(report.event_id, event_id);
    assert_eq!(report.orphaned_path.as_deref(), Some("photos/missing.jpg"));
    assert!(store.photos.is_empty());
}

#[test]
fn a_removed_backing_file_leaves_no_orphan_to_log() {
    let (mut store, event_id) = store_with_event();
    let photo_id = store.add_photo(event_id, "photos/b.jpg".to_string()).unwrap();
    let deletion = store.delete_photo_row(photo_id).unwrap();
    let report = photo_delete_report(deletion, true);
    assert_eq!(report.event_id, event_id);
    assert!(report.orphaned_path.is_none());
}
