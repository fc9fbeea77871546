use vent::dates::{days_in_month, parse_event_date, EventDate};
use vent::error::{Entity, FormField, ValidationReason, VentError};
use vent::model::{DbEvent, FormEvent};

fn date_err() -> VentError {
    VentError::Validation { field: FormField::Date, reason: ValidationReason::BadDateFormat }
}

#[test]
fn parses_a_well_formed_timestamp() {
    let d = parse_event_date("2024-03-05T14:30").unwrap();
    assert_eq!(d, EventDate { year: 2024, month: 3, day: 5, hour: 14, minute: 30 });
}

#[test]
fn parses_midnight_on_new_year() {
    let d = parse_event_date("2000-01-01T00:00").unwrap();
    assert_eq!(d, EventDate { year: 2000, month: 1, day: 1, hour: 0, minute: 0 });
}

#[test]
fn accepts_leap_day_in_a_leap_year() {
    let d = parse_event_date("2024-02-29T08:15").unwrap();
    assert_eq!(d, EventDate { year: 2024, month: 2, day: 29, hour: 8, minute: 15 });
}

#[test]
fn rejects_leap_day_outside_a_leap_year() {
    assert_eq!(parse_event_date("2023-02-29T08:15"), Err(date_err()));
}

#[test]
fn century_years_are_not_leap_years_unless_divisible_by_400() {
    assert_eq!(parse_event_date("1900-02-29T12:00"), Err(date_err()));
    assert!(parse_event_date("2000-02-29T12:00").is_ok());
}

#[test]
fn rejects_wrong_separators_and_widths() {
    assert_eq!(parse_event_date("2024-3-05T14:30"), Err(date_err()));
    assert_eq!(parse_event_date("2024-03-05 14:30"), Err(date_err()));
    assert_eq!(parse_event_date("2024/03/05T14:30"), Err(date_err()));
    assert_eq!(parse_event_date("24-03-05T14:30"), Err(date_err()));
    assert_eq!(parse_event_date(""), Err(date_err()));
    assert_eq!(parse_event_date("2024-03-05T14:300"), Err(date_err()));
}

#[test]
fn rejects_out_of_range_components() {
    assert_eq!(parse_event_date("2024-00-05T14:30"), Err(date_err()));
    assert_eq!(parse_event_date("2024-13-05T14:30"), Err(date_err()));
    assert_eq!(parse_event_date("2024-04-31T14:30"), Err(date_err()));
    assert_eq!(parse_event_date("2024-03-00T14:30"), Err(date_err()));
    assert_eq!(parse_event_date("2024-03-05T24:30"), Err(date_err()));
    assert_eq!(parse_event_date("2024-03-05T14:60"), Err(date_err()));
}

#[test]
fn month_lengths_follow_the_calendar() {
    assert_eq!(days_in_month(2023, 1), 31);
    assert_eq!(days_in_month(2023, 2), 28);
    assert_eq!(days_in_month(2024, 2), 29);
    assert_eq!(days_in_month(2023, 4), 30);
    assert_eq!(days_in_month(2023, 12), 31);
}

#[test]
fn dates_compare_chronologically() {
    let earlier = parse_event_date("2023-12-31T23:59").unwrap();
    let later = parse_event_date("2024-01-01T00:00").unwrap();
    assert!(earlier.le(&later));
    assert!(!later.le(&earlier));
    assert!(earlier.le(&earlier));
}

#[test]
fn form_event_with_valid_fields_becomes_a_provisional_event() {
    let form = FormEvent {
        name: "Sports day".to_string(),
        date: "2024-06-10T09:00".to_string(),
        location: "Field".to_string(),
        teacher: "Ms Green".to_string(),
        info: "Bring water".to_string(),
    };
    let ev = DbEvent::try_from(form).unwrap();
    assert_eq!(ev.id, -1);
    assert_eq!(ev.event_name, "Sports day");
    assert_eq!(ev.date, EventDate { year: 2024, month: 6, day: 10, hour: 9, minute: 0 });
    assert_eq!(ev.location, "Field");
    assert_eq!(ev.teacher, "Ms Green");
    assert_eq!(ev.other_info.as_deref(), Some("Bring water"));
}

#[test]
fn form_event_without_a_name_is_rejected() {
    let form = FormEvent {
        name: String::new(),
        date: "2024-06-10T09:00".to_string(),
        location: "Field".to_string(),
        teacher: "Ms Green".to_string(),
        info: String::new(),
    };
    match DbEvent::try_from(form) {
        Err(e) => assert_eq!(
            e,
            VentError::Validation {
                field: FormField::EventName,
                reason: ValidationReason::EmptyRequiredField,
            }
        ),
        Ok(_) => panic!("an event without a name must be rejected"),
    }
}

#[test]
fn form_event_with_a_bad_date_names_the_date_field() {
    let form = FormEvent {
        name: "Quiz night".to_string(),
        date: "soon".to_string(),
        location: "Hall".to_string(),
        teacher: "Mr Hart".to_string(),
        info: String::new(),
    };
    match DbEvent::try_from(form) {
        Err(e) => assert_eq!(e, date_err()),
        Ok(_) => panic!("a malformed date must be rejected"),
    }
}

#[test]
fn error_labels_name_each_kind() {
    assert_eq!(VentError::Conflict.label(), "conflict");
    assert_eq!(VentError::NotFound { entity: Entity::Event, id: 7 }.label(), "not found");
    assert_eq!(date_err().label(), "validation");
    assert_eq!(VentError::Store.label(), "store");
}
