//! The contact record: the sole entity of the directory, together with the
//! form-field input type and the default-placeholder policy for fields that
//! a submission leaves out.

use vstd::prelude::*;

verus! {

/// Mathematical value of a [`Contact`]: the id together with the four
/// searchable text fields as character sequences.
#[verifier::ext_equal]
pub ghost struct ContactView {
    pub id: u64,
    pub first: Seq<char>,
    pub last: Seq<char>,
    pub phone: Seq<char>,
    pub email: Seq<char>,
    pub error: Option<Seq<char>>,
}

/// One contact record. The `id` is assigned by the store and never by the
/// client; the four text fields are free text; `error` carries a transient
/// diagnostic during validation flows and is not directory truth.
pub struct Contact {
    pub id: u64,
    pub first: String,
    pub last: String,
    pub phone: String,
    pub email: String,
    pub error: Option<String>,
}

impl View for Contact {
    type V = ContactView;

    open spec fn view(&self) -> ContactView {
        ContactView {
            id: self.id,
            first: self.first@,
            last: self.last@,
            phone: self.phone@,
            email: self.email@,
            error: match self.error {
                Some(s) => Some(s@),
                None => None,
            },
        }
    }
}

impl Clone for Contact {
    fn clone(&self) -> (r: Self)
        ensures
            r@ == self@,
    {
        let r = Contact {
            id: self.id,
            first: self.first.clone(),
            last: self.last.clone(),
            phone: self.phone.clone(),
            email: self.email.clone(),
            error: match &self.error {
                Some(s) => Some(s.clone()),
                None => None,
            },
        };
        proof {
            assert(r@ =~= self@);
        }
        r
    }
}

impl Contact {
    /// The blank record backing the empty creation form: id `0` (no store
    /// assignment yet) and every field empty.
    pub fn blank() -> (c: Contact)
        ensures
            c@ == (ContactView {
                id: 0,
                first: Seq::<char>::empty(),
                last: Seq::<char>::empty(),
                phone: Seq::<char>::empty(),
                email: Seq::<char>::empty(),
                error: None,
            }),
    {
        let c = Contact {
            id: 0,
            first: String::new(),
            last: String::new(),
            phone: String::new(),
            email: String::new(),
            error: None,
        };
        proof {
            assert(c@ =~= (ContactView {
                id: 0,
                first: Seq::<char>::empty(),
                last: Seq::<char>::empty(),
                phone: Seq::<char>::empty(),
                email: Seq::<char>::empty(),
                error: None,
            }));
        }
        c
    }
}

/// The views of a sequence of contacts, in order.
pub open spec fn views_of(s: Seq<Contact>) -> Seq<ContactView> {
    s.map_values(|c: Contact| c@)
}

/// Form input for create and update: a field left as `None` was absent from
/// the submission and is replaced by that field's default placeholder.
pub struct ContactFields {
    pub first: Option<String>,
    pub last: Option<String>,
    pub phone: Option<String>,
    pub email: Option<String>,
}

/// Mathematical value of [`ContactFields`].
#[verifier::ext_equal]
pub ghost struct FieldsView {
    pub first: Option<Seq<char>>,
    pub last: Option<Seq<char>>,
    pub phone: Option<Seq<char>>,
    pub email: Option<Seq<char>>,
}

impl View for ContactFields {
    type V = FieldsView;

    open spec fn view(&self) -> FieldsView {
        FieldsView {
            first: match self.first {
                Some(s) => Some(s@),
                None => None,
            },
            last: match self.last {
                Some(s) => Some(s@),
                None => None,
            },
            phone: match self.phone {
                Some(s) => Some(s@),
                None => None,
            },
            email: match self.email {
                Some(s) => Some(s@),
                None => None,
            },
        }
    }
}

/// Default placeholder substituted for a missing `first` field.
pub open spec fn default_first() -> Seq<char> {
    "DefaultFirstName"@
}

/// Default placeholder substituted for a missing `last` field.
pub open spec fn default_last() -> Seq<char> {
    "DefaultLastName"@
}

/// Default placeholder substituted for a missing `phone` field.
pub open spec fn default_phone() -> Seq<char> {
    "DefaultPhone"@
}

/// Default placeholder substituted for a missing `email` field.
pub open spec fn default_email() -> Seq<char> {
    "DefaultEmail"@
}

/// A submitted field value, or the default placeholder where it was absent.
pub open spec fn resolve(o: Option<Seq<char>>, default: Seq<char>) -> Seq<char> {
    match o {
        Some(s) => s,
        None => default,
    }
}

/// The record that a submission `f` produces under id `id`: every absent
/// field replaced by its default placeholder, no transient error.
pub open spec fn contact_of(id: u64, f: FieldsView) -> ContactView {
    ContactView {
        id: id,
        first: resolve(f.first, default_first()),
        last: resolve(f.last, default_last()),
        phone: resolve(f.phone, default_phone()),
        email: resolve(f.email, default_email()),
        error: None,
    }
}

fn resolve_field(o: &Option<String>, default: &str) -> (r: String)
    ensures
        r@ == resolve(
            match *o {
                Some(s) => Some(s@),
                None => None,
            },
            default@,
        ),
{
    match o {
        Some(s) => s.clone(),
        None => default.to_owned(),
    }
}

/// Builds the record that the store will hold for submission `fields` under
/// id `id`, applying the default-placeholder policy.
pub fn make_contact(id: u64, fields: &ContactFields) -> (c: Contact)
    ensures
        c@ == contact_of(id, fields@),
{
    let c = Contact {
        id: id,
        first: resolve_field(&fields.first, "DefaultFirstName"),
        last: resolve_field(&fields.last, "DefaultLastName"),
        phone: resolve_field(&fields.phone, "DefaultPhone"),
        email: resolve_field(&fields.email, "DefaultEmail"),
        error: None,
    };
    proof {
        assert(c@ =~= contact_of(id, fields@));
    }
    c
}

} // verus!
