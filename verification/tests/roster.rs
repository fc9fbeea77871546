use vent::dates::parse_event_date;
use vent::error::{Entity, VentError};
use vent::model::DbEvent;
use vent::roster::RosterView;
use vent::store::Store;

fn event(name: &str, date: &str) -> DbEvent {
    DbEvent {
        id: -1,
        event_name: name.to_string(),
        date: parse_event_date(date).unwrap(),
        location: "Hall".to_string(),
        teacher: "Dr Frost".to_string(),
        other_info: None,
    }
}

/// The existing-prefect groups as (form, [(person id, relation id)]) pairs.
fn existing_prefects(view: &RosterView) -> Vec<(String, Vec<(i32, i32)>)> {
    view.existing_prefects
        .iter()
        .map(|g| {
            (g.form.clone(), g.people.iter().map(|p| (p.id, p.relation_id)).collect())
        })
        .collect()
}

/// The possible groups as (form, [person id]) pairs.
fn possible_ids(groups: &[vent::roster::DbFormGroup]) -> Vec<(String, Vec<i32>)> {
    groups
        .iter()
        .map(|g| (g.form.clone(), g.people.iter().map(|p| p.id).collect()))
        .collect()
}

#[test]
fn an_unknown_event_is_reported() {
    let store = Store::new();
    match store.build_roster(3) {
        Err(e) => assert_eq!(e, VentError::NotFound { entity: Entity::Event, id: 3 }),
        Ok(_) => panic!("no event exists"),
    }
}

#[test]
fn an_event_without_relations_offers_the_full_universe() {
    let mut store = Store::new();
    let event_id = store.create_event(event("Fair", "2024-07-01T10:00"));
    let ann = store.add_person("Ann".to_string(), "Low".to_string(), "9".to_string(), true);
    let ben = store.add_person("Ben".to_string(), "Key".to_string(), "8".to_string(), false);
    let view = store.build_roster(event_id).unwrap();
    assert!(view.existing_prefects.is_empty());
    assert!(view.existing_participants.is_empty());
    // prefect-eligible: only Ann; participant-eligible: everyone
    assert_eq!(possible_ids(&view.possible_prefects), vec![("9".to_string(), vec![ann])]);
    assert_eq!(
        possible_ids(&view.possible_participants),
        vec![("8".to_string(), vec![ben]), ("9".to_string(), vec![ann])]
    );
    assert_eq!(view.event.event_name, "Fair");
    assert!(view.photos.is_empty());
}

#[test]
fn roster_groups_split_existing_and_possible_by_form() {
    let mut store = Store::new();
    let event_id = store.create_event(event("Concert", "2024-07-02T19:00"));
    let alice = store.add_person("Alice".to_string(), "Hale".to_string(), "9".to_string(), true);
    let bob = store.add_person("Bob".to_string(), "Li".to_string(), "10".to_string(), true);
    let carol = store.add_person("Carol".to_string(), "Oz".to_string(), "9".to_string(), true);
    let r_alice = store.add_prefect(event_id, alice).unwrap();
    let r_bob = store.add_prefect(event_id, bob).unwrap();

    let view = store.build_roster(event_id).unwrap();
    // ascending form order compares labels as text: "10" sorts before "9"
    assert_eq!(
        existing_prefects(&view),
        vec![
            ("10".to_string(), vec![(bob, r_bob)]),
            ("9".to_string(), vec![(alice, r_alice)]),
        ]
    );
    assert_eq!(possible_ids(&view.possible_prefects), vec![("9".to_string(), vec![carol])]);

    // removing Bob's relation by its own id moves him back to the offer list
    assert_eq!(store.remove_prefect(r_bob), Ok(event_id));
    let view = store.build_roster(event_id).unwrap();
    assert_eq!(existing_prefects(&view), vec![("9".to_string(), vec![(alice, r_alice)])]);
    assert_eq!(
        possible_ids(&view.possible_prefects),
        vec![("10".to_string(), vec![bob]), ("9".to_string(), vec![carol])]
    );
}

#[test]
fn nobody_is_both_existing_and_possible() {
    let mut store = Store::new();
    let event_id = store.create_event(event("Play", "2024-07-03T19:00"));
    let mut people = Vec::new();
    for (first, form, prefect) in [
        ("Ann", "9", true),
        ("Ben", "9", false),
        ("Cat", "10", true),
        ("Dee", "10", false),
        ("Eli", "11", true),
    ] {
        people.push(store.add_person(
            first.to_string(),
            "Stone".to_string(),
            form.to_string(),
            prefect,
        ));
    }
    store.add_participant(event_id, people[0]).unwrap();
    store.add_participant(event_id, people[2]).unwrap();
    store.add_prefect(event_id, people[2]).unwrap();

    let view = store.build_roster(event_id).unwrap();
    let existing: Vec<i32> = view
        .existing_participants
        .iter()
        .flat_map(|g| g.people.iter().map(|p| p.id))
        .collect();
    let possible: Vec<i32> = view
        .possible_participants
        .iter()
        .flat_map(|g| g.people.iter().map(|p| p.id))
        .collect();
    for id in &existing {
        assert!(!possible.contains(id));
    }
    let mut union: Vec<i32> = existing.iter().chain(possible.iter()).copied().collect();
    union.sort();
    let mut everyone = people.clone();
    everyone.sort();
    assert_eq!(union, everyone);

    let existing_p: Vec<i32> = view
        .existing_prefects
        .iter()
        .flat_map(|g| g.people.iter().map(|p| p.id))
        .collect();
    let possible_p: Vec<i32> = view
        .possible_prefects
        .iter()
        .flat_map(|g| g.people.iter().map(|p| p.id))
        .collect();
    for id in &existing_p {
        assert!(!possible_p.contains(id));
    }
    let mut union_p: Vec<i32> = existing_p.iter().chain(possible_p.iter()).copied().collect();
    union_p.sort();
    assert_eq!(union_p, vec![people[0], people[2], people[4]]);
}

#[test]
fn unverified_participants_stay_visible_in_the_roster() {
    let mut store = Store::new();
    let event_id = store.create_event(event("Trip", "2024-07-04T08:00"));
    let fay = store.add_person("Fay".to_string(), "North".to_string(), "7".to_string(), false);
    let rid = store.add_participant(event_id, fay).unwrap();
    // never verified: the admin roster still shows the row
    let view = store.build_roster(event_id).unwrap();
    assert_eq!(view.existing_participants.len(), 1);
    assert_eq!(view.existing_participants[0].people[0].relation_id, rid);
}

#[test]
fn roster_round_trip_after_add_and_remove() {
    let mut store = Store::new();
    let event_id = store.create_event(event("Gala", "2024-07-05T19:00"));
    let gil = store.add_person("Gil".to_string(), "Ames".to_string(), "7".to_string(), false);
    let hal = store.add_person("Hal".to_string(), "Quinn".to_string(), "8".to_string(), false);
    store.add_participant(event_id, hal).unwrap();

    let before = store.build_roster(event_id).unwrap();
    let rid = store.add_participant(event_id, gil).unwrap();
    store.remove_participant(rid).unwrap();
    let after = store.build_roster(event_id).unwrap();

    let shape = |v: &RosterView| {
        (
            v.existing_participants
                .iter()
                .map(|g| {
                    (
                        g.form.clone(),
                        g.people.iter().map(|p| (p.id, p.relation_id)).collect::<Vec<_>>(),
                    )
                })
                .collect::<Vec<_>>(),
            v.possible_participants
                .iter()
                .map(|g| (g.form.clone(), g.people.iter().map(|p| p.id).collect::<Vec<_>>()))
                .collect::<Vec<_>>(),
        )
    };
    assert_eq!(shape(&before), shape(&after));
}

#[test]
fn fetch_prefects_lists_only_flagged_people() {
    let mut store = Store::new();
    let ann = store.add_person("Ann".to_string(), "Low".to_string(), "9".to_string(), true);
    let _ben = store.add_person("Ben".to_string(), "Key".to_string(), "8".to_string(), false);
    let cat = store.add_person("Cat".to_string(), "Iver".to_string(), "7".to_string(), true);
    let prefects = store.fetch_prefects();
    let ids: Vec<i32> = prefects.iter().map(|p| p.id).collect();
    assert_eq!(ids, vec![ann, cat]);
    assert!(prefects.iter().all(|p| p.is_prefect));
}
