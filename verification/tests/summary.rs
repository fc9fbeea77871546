use vent::dates::parse_event_date;
use vent::error::{Entity, VentError};
use vent::model::{DbEvent, ParticipantRelation};
use vent::store::Store;
use vent::summary::counts_toward_stats;

fn event(name: &str, date: &str) -> DbEvent {
    DbEvent {
        id: -1,
        event_name: name.to_string(),
        date: parse_event_date(date).unwrap(),
        location: "Hall".to_string(),
        teacher: "Dr Frost".to_string(),
        other_info: None,
    }
}

#[test]
fn the_gate_counts_only_verified_rows() {
    let verified = ParticipantRelation { relation_id: 1, event_id: 1, person_id: 1, is_verified: true };
    let unverified = ParticipantRelation { relation_id: 2, event_id: 1, person_id: 2, is_verified: false };
    assert!(counts_toward_stats(&verified));
    assert!(!counts_toward_stats(&unverified));
}

#[test]
fn index_splits_events_around_the_cutoff() {
    let mut store = Store::new();
    let past = store.create_event(event("Past", "2024-01-10T10:00"));
    let soon = store.create_event(event("Soon", "2024-03-01T10:00"));
    let later = store.create_event(event("Later", "2024-06-01T10:00"));
    let cutoff = parse_event_date("2024-02-01T00:00").unwrap();

    let view = store.index_view(cutoff);
    let upcoming: Vec<i32> = view.events_to_happen.iter().map(|w| w.event.id).collect();
    let happened: Vec<i32> = view.happened_events.iter().map(|w| w.event.id).collect();
    assert_eq!(upcoming, vec![soon, later]);
    assert_eq!(happened, vec![past]);
}

#[test]
fn upcoming_events_come_earliest_first_and_happened_most_recent_first() {
    let mut store = Store::new();
    let old_a = store.create_event(event("Old A", "2023-01-01T10:00"));
    let old_b = store.create_event(event("Old B", "2023-06-01T10:00"));
    let next_a = store.create_event(event("Next A", "2024-09-01T10:00"));
    let next_b = store.create_event(event("Next B", "2024-04-01T10:00"));
    let cutoff = parse_event_date("2024-01-01T00:00").unwrap();

    let view = store.index_view(cutoff);
    let upcoming: Vec<i32> = view.events_to_happen.iter().map(|w| w.event.id).collect();
    let happened: Vec<i32> = view.happened_events.iter().map(|w| w.event.id).collect();
    assert_eq!(upcoming, vec![next_b, next_a]);
    assert_eq!(happened, vec![old_b, old_a]);
}

#[test]
fn happened_counts_apply_the_verification_gate() {
    let mut store = Store::new();
    let done = store.create_event(event("Done", "2023-05-01T10:00"));
    let ahead = store.create_event(event("Ahead", "2024-05-01T10:00"));
    let ann = store.add_person("Ann".to_string(), "Low".to_string(), "9".to_string(), true);
    let ben = store.add_person("Ben".to_string(), "Key".to_string(), "9".to_string(), false);
    store.add_prefect(done, ann).unwrap();
    let r1 = store.add_participant(done, ann).unwrap();
    store.add_participant(done, ben).unwrap();
    store.set_verified(r1, true).unwrap();
    store.add_participant(ahead, ann).unwrap();
    store.add_participant(ahead, ben).unwrap();
    store.add_photo(done, "photos/d.jpg".to_string()).unwrap();

    let cutoff = parse_event_date("2024-01-01T00:00").unwrap();
    let view = store.index_view(cutoff);

    // the past event shows only the verified participation
    assert_eq!(view.happened_events.len(), 1);
    let past = &view.happened_events[0];
    assert_eq!(past.event.id, done);
    assert_eq!(past.participants, 1);
    assert_eq!(past.prefects, 1);
    assert_eq!(past.no_photos, 1);

    // the upcoming event counts every participant, verified or not
    assert_eq!(view.events_to_happen.len(), 1);
    let next = &view.events_to_happen[0];
    assert_eq!(next.event.id, ahead);
    assert_eq!(next.participants, 2);
    assert_eq!(next.prefects, 0);
    assert_eq!(next.no_photos, 0);
}

#[test]
fn index_limits_to_fifteen_upcoming_and_ten_happened() {
    let mut store = Store::new();
    for day in 1..=20 {
        store.create_event(event("Up", &format!("2024-06-{day:02}T10:00")));
        store.create_event(event("Down", &format!("2023-06-{day:02}T10:00")));
    }
    let cutoff = parse_event_date("2024-01-01T00:00").unwrap();
    let view = store.index_view(cutoff);
    assert_eq!(view.events_to_happen.len(), 15);
    assert_eq!(view.happened_events.len(), 10);
    // the fifteen earliest upcoming days, ascending
    let days: Vec<u8> = view.events_to_happen.iter().map(|w| w.event.date.day).collect();
    assert_eq!(days, (1..=15).collect::<Vec<u8>>());
    // the ten latest happened days, descending
    let days: Vec<u8> = view.happened_events.iter().map(|w| w.event.date.day).collect();
    assert_eq!(days, (11..=20).rev().collect::<Vec<u8>>());
}

#[test]
fn person_history_lists_supervised_and_verified_participations() {
    let mut store = Store::new();
    let fair = store.create_event(event("Fair", "2024-07-01T10:00"));
    let gala = store.create_event(event("Gala", "2024-08-01T19:00"));
    let ann = store.add_person("Ann".to_string(), "Low".to_string(), "9".to_string(), true);
    store.add_prefect(fair, ann).unwrap();
    let r_gala = store.add_participant(gala, ann).unwrap();
    let r_fair = store.add_participant(fair, ann).unwrap();
    store.set_verified(r_gala, true).unwrap();
    let _ = r_fair;  // never verified: must not appear in the history

    let history = store.person_history(ann).unwrap();
    assert_eq!(history.person.id, ann);
    assert_eq!(history.person.first_name, "Ann");
    let supervised: Vec<i32> = history.events_supervised.iter().map(|e| e.id).collect();
    let participated: Vec<i32> = history.events_participated.iter().map(|e| e.id).collect();
    assert_eq!(supervised, vec![fair]);
    assert_eq!(participated, vec![gala]);
    assert_eq!(history.events_participated[0].event_name, "Gala");
}

#[test]
fn person_history_for_an_unknown_person_is_reported() {
    let store = Store::new();
    match store.person_history(9) {
        Err(e) => assert_eq!(e, VentError::NotFound { entity: Entity::Person, id: 9 }),
        Ok(_) => panic!("no person exists"),
    }
}
