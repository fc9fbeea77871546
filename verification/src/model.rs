//! Data model: people, events, join relations, photos, and form inputs.
//!
//! Each executable type has a spec-level image (its view) over mathematical
//! integers and character sequences; all contracts speak of those images.

use vstd::prelude::*;

use crate::dates::{spec_parse_event_date, date_error, parse_event_date, EventDate};
use crate::error::{FormField, ValidationReason, VentError};

verus! {

/// Spec image of a [`Person`].
#[verifier::ext_equal]
pub struct PersonV {
    pub id: int,
    pub first_name: Seq<char>,
    pub surname: Seq<char>,
    pub form: Seq<char>,
    pub is_prefect: bool,
    pub hashed_password: Option<Seq<char>>,
}

/// A member of the school: identity, display name, cohort ("form"), the
/// prefect role flag, and an optional stored credential.
#[derive(Debug)]
pub struct Person {
    pub id: i32,
    pub first_name: String,
    pub surname: String,
    pub form: String,
    pub is_prefect: bool,
    pub hashed_password: Option<String>,
}

impl View for Person {
    type V = PersonV;

    open spec fn view(&self) -> PersonV {
        PersonV {
            id: self.id as int,
            first_name: self.first_name@,
            surname: self.surname@,
            form: self.form@,
            is_prefect: self.is_prefect,
            hashed_password: match self.hashed_password {
                Some(h) => Some(h@),
                None => None,
            },
        }
    }
}

impl Clone for Person {
    fn clone(&self) -> (r: Self)
        ensures
            r@ == self@,
    {
        Person {
            id: self.id,
            first_name: self.first_name.clone(),
            surname: self.surname.clone(),
            form: self.form.clone(),
            is_prefect: self.is_prefect,
            hashed_password: match &self.hashed_password {
                Some(h) => Some(h.clone()),
                None => None,
            },
        }
    }
}

/// Spec image of a [`DbEvent`].
#[verifier::ext_equal]
pub struct EventV {
    pub id: int,
    pub event_name: Seq<char>,
    pub date: EventDate,
    pub location: Seq<char>,
    pub teacher: Seq<char>,
    pub other_info: Option<Seq<char>>,
}

/// An event as the store holds it. A freshly validated event carries the
/// provisional id `-1` until the store assigns its canonical id.
#[derive(Debug)]
pub struct DbEvent {
    pub id: i32,
    pub event_name: String,
    pub date: EventDate,
    pub location: String,
    pub teacher: String,
    pub other_info: Option<String>,
}

impl View for DbEvent {
    type V = EventV;

    open spec fn view(&self) -> EventV {
        EventV {
            id: self.id as int,
            event_name: self.event_name@,
            date: self.date,
            location: self.location@,
            teacher: self.teacher@,
            other_info: match self.other_info {
                Some(o) => Some(o@),
                None => None,
            },
        }
    }
}

impl Clone for DbEvent {
    fn clone(&self) -> (r: Self)
        ensures
            r@ == self@,
    {
        DbEvent {
            id: self.id,
            event_name: self.event_name.clone(),
            date: self.date,
            location: self.location.clone(),
            teacher: self.teacher.clone(),
            other_info: match &self.other_info {
                Some(o) => Some(o.clone()),
                None => None,
            },
        }
    }
}

/// Spec image of a [`ParticipantRelation`].
#[verifier::ext_equal]
pub struct ParticipantRelV {
    pub relation_id: int,
    pub event_id: int,
    pub person_id: int,
    pub is_verified: bool,
}

/// A join row linking one person to one event as a participant, with its own
/// identity and the verification flag of the verification gate.
#[derive(Clone, Copy, Debug, PartialEq, Eq, Structural)]
pub struct ParticipantRelation {
    pub relation_id: i32,
    pub event_id: i32,
    pub person_id: i32,
    pub is_verified: bool,
}

impl View for ParticipantRelation {
    type V = ParticipantRelV;

    open spec fn view(&self) -> ParticipantRelV {
        ParticipantRelV {
            relation_id: self.relation_id as int,
            event_id: self.event_id as int,
            person_id: self.person_id as int,
            is_verified: self.is_verified,
        }
    }
}

/// Spec image of a [`PrefectRelation`].
#[verifier::ext_equal]
pub struct PrefectRelV {
    pub relation_id: int,
    pub event_id: int,
    pub person_id: int,
}

/// A join row linking one person to one event as a supervising prefect.
#[derive(Clone, Copy, Debug, PartialEq, Eq, Structural)]
pub struct PrefectRelation {
    pub relation_id: i32,
    pub event_id: i32,
    pub person_id: i32,
}

impl View for PrefectRelation {
    type V = PrefectRelV;

    open spec fn view(&self) -> PrefectRelV {
        PrefectRelV {
            relation_id: self.relation_id as int,
            event_id: self.event_id as int,
            person_id: self.person_id as int,
        }
    }
}

/// Spec image of a [`Photo`].
#[verifier::ext_equal]
pub struct PhotoV {
    pub id: int,
    pub event_id: int,
    pub path: Seq<char>,
}

/// A photo row: its identity, the owning event, and the path of the backing
/// file. The row must never outlive its file unnoticed: deletion removes the
/// row first and reports a surviving file as an orphan.
#[derive(Debug)]
pub struct Photo {
    pub id: i32,
    pub event_id: i32,
    pub path: String,
}

impl View for Photo {
    type V = PhotoV;

    open spec fn view(&self) -> PhotoV {
        PhotoV { id: self.id as int, event_id: self.event_id as int, path: self.path@ }
    }
}

impl Clone for Photo {
    fn clone(&self) -> (r: Self)
        ensures
            r@ == self@,
    {
        Photo { id: self.id, event_id: self.event_id, path: self.path.clone() }
    }
}

/// Spec image of a [`FormEvent`].
#[verifier::ext_equal]
pub struct FormEventV {
    pub name: Seq<char>,
    pub date: Seq<char>,
    pub location: Seq<char>,
    pub teacher: Seq<char>,
    pub info: Seq<char>,
}

/// Raw event metadata as a form submits it, before validation.
#[derive(Debug)]
pub struct FormEvent {
    pub name: String,
    pub date: String,
    pub location: String,
    pub teacher: String,
    pub info: String,
}

impl View for FormEvent {
    type V = FormEventV;

    open spec fn view(&self) -> FormEventV {
        FormEventV {
            name: self.name@,
            date: self.date@,
            location: self.location@,
            teacher: self.teacher@,
            info: self.info@,
        }
    }
}

/// Spec image of a [`LoginDetails`].
#[verifier::ext_equal]
pub struct LoginDetailsV {
    pub first_name: Seq<char>,
    pub surname: Seq<char>,
    pub unhashed_password: Seq<char>,
}

/// A member's own profile edit: new display name and a fresh password. The
/// password reaches the library only to be handed on; hashing is an external
/// concern and the store receives the hashed text separately.
#[derive(Debug)]
pub struct LoginDetails {
    pub first_name: String,
    pub surname: String,
    pub unhashed_password: String,
}

impl View for LoginDetails {
    type V = LoginDetailsV;

    open spec fn view(&self) -> LoginDetailsV {
        LoginDetailsV {
            first_name: self.first_name@,
            surname: self.surname@,
            unhashed_password: self.unhashed_password@,
        }
    }
}

/// What validating a [`FormEvent`] yields when it succeeds: the event with
/// the provisional id, the parsed date, and the free-text note kept.
pub open spec fn spec_validated_event(f: FormEventV, d: EventDate) -> EventV {
    EventV {
        id: -1,
        event_name: f.name,
        date: d,
        location: f.location,
        teacher: f.teacher,
        other_info: Some(f.info),
    }
}

impl DbEvent {
    /// Validates raw form metadata into an event with the provisional id.
    ///
    /// The event name is required; the date must be in the fixed
    /// `YYYY-MM-DDTHH:MM` format and name a real calendar date. Each failure
    /// reports the offending field.
    pub fn try_from(form: FormEvent) -> (r: Result<DbEvent, VentError>)
        ensures
            match r {
                Ok(e) => {
                    &&& form@.name.len() > 0
                    &&& spec_parse_event_date(form@.date) == Some(e.date)
                    &&& e@ == spec_validated_event(form@, e.date)
                },
                Err(err) => {
                    ||| (form@.name.len() == 0 && err == (VentError::Validation {
                        field: FormField::EventName,
                        reason: ValidationReason::EmptyRequiredField,
                    }))
                    ||| (form@.name.len() > 0 && spec_parse_event_date(form@.date) is None
                        && err == date_error())
                },
            },
    {
        if form.name.as_str().unicode_len() == 0 {
            return Err(VentError::Validation {
                field: FormField::EventName,
                reason: ValidationReason::EmptyRequiredField,
            });
        }
        let date = match parse_event_date(form.date.as_str()) {
            Ok(d) => d,
            Err(e) => {
                return Err(e);
            },
        };
        Ok(DbEvent {
            id: -1,
            event_name: form.name,
            date,
            location: form.location,
            teacher: form.teacher,
            other_info: Some(form.info),
        })
    }
}

} // verus!
