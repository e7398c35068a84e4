//! The contact store: the authoritative, insertion-ordered collection of
//! records. Ids are handed out by a monotonically increasing counter that is
//! never derived from the current length, so a freed id is never reused;
//! every id-keyed operation reports a missing id as an error instead of
//! failing the process.

use vstd::prelude::*;
use crate::contact::{
    Contact, ContactView, ContactFields, FieldsView, contact_of, make_contact, views_of,
};

verus! {

/// Failure of an id-keyed store operation: no live record has the id.
#[derive(Debug, Clone, Copy, PartialEq, Eq, Structural)]
pub enum StoreError {
    NotFound,
}

/// Mathematical value of a [`ContactStore`]: the live records in insertion
/// order together with the id the next insert will use.
#[verifier::ext_equal]
pub ghost struct StoreView {
    pub contacts: Seq<ContactView>,
    pub next_id: nat,
}

/// Some live record of `s` carries the id `id`.
pub open spec fn has_id(s: Seq<ContactView>, id: u64) -> bool {
    exists|i: int| 0 <= i < s.len() && (#[trigger] s[i]).id == id
}

/// Well-formedness of the store: every live id is positive and below the
/// counter, and ids grow strictly along the insertion order — so no two
/// live records share an id.
pub open spec fn store_wf(s: StoreView) -> bool {
    &&& s.next_id >= 1
    &&& forall|i: int|
        0 <= i < s.contacts.len() ==> 1 <= (#[trigger] s.contacts[i]).id < s.next_id
    &&& forall|i: int, j: int|
        #![trigger s.contacts[i], s.contacts[j]]
        0 <= i < j < s.contacts.len() ==> s.contacts[i].id < s.contacts[j].id
}

/// In a well-formed store no id occurs twice.
pub proof fn lemma_wf_ids_unique(s: StoreView)
    requires
        store_wf(s),
    ensures
        forall|i: int, j: int|
            #![trigger s.contacts[i], s.contacts[j]]
            0 <= i < s.contacts.len() && 0 <= j < s.contacts.len() && i != j
                ==> s.contacts[i].id != s.contacts[j].id,
{
}

/// The store after inserting submission `f`: the new record, built under
/// the counter's id, is appended and the counter moves past it.
pub open spec fn insert_spec(s: StoreView, f: FieldsView) -> StoreView {
    StoreView {
        contacts: s.contacts.push(contact_of(s.next_id as u64, f)),
        next_id: s.next_id + 1,
    }
}

/// An insert into a well-formed store keeps it well formed, and the id it
/// assigns is fresh: live afterwards, not live before.
pub proof fn lemma_insert_spec_fresh(s: StoreView, f: FieldsView)
    requires
        store_wf(s),
        s.next_id < u64::MAX,
    ensures
        store_wf(insert_spec(s, f)),
        !has_id(s.contacts, s.next_id as u64),
        has_id(insert_spec(s, f).contacts, s.next_id as u64),
        insert_spec(s, f).contacts.len() == s.contacts.len() + 1,
        forall|id: u64| has_id(s.contacts, id) ==> has_id(insert_spec(s, f).contacts, id),
{
    let t = insert_spec(s, f);
    let n = s.contacts.len() as int;
    assert(t.contacts[n].id == s.next_id);
    assert forall|a: int, b: int|
        #![trigger t.contacts[a], t.contacts[b]]
        0 <= a < b < t.contacts.len() implies t.contacts[a].id < t.contacts[b].id by {
        assert(t.contacts[a] == s.contacts[a]);
        if b < n {
            assert(t.contacts[b] == s.contacts[b]);
        }
    }
    assert forall|a: int| 0 <= a < t.contacts.len() implies 1 <= (#[trigger] t.contacts[a]).id
        < t.next_id by {
        if a < n {
            assert(t.contacts[a] == s.contacts[a]);
        }
    }
    assert forall|id: u64| has_id(s.contacts, id) implies has_id(t.contacts, id) by {
        let i = choose|i: int| 0 <= i < s.contacts.len() && (#[trigger] s.contacts[i]).id == id;
        assert(t.contacts[i].id == id);
    }
}

/// Two inserts performed one after the other — as create requests are, each
/// holding the store's lock for its whole operation — receive distinct ids,
/// each fresh at its insert, and neither record is lost.
pub proof fn lemma_sequential_inserts_distinct_ids(s0: StoreView, f1: FieldsView, f2: FieldsView)
    requires
        store_wf(s0),
        s0.next_id + 1 < u64::MAX,
    ensures
        ({
            let id1 = s0.next_id as u64;
            let s1 = insert_spec(s0, f1);
            let id2 = s1.next_id as u64;
            let s2 = insert_spec(s1, f2);
            &&& id1 != id2
            &&& !has_id(s0.contacts, id1)
            &&& !has_id(s1.contacts, id2)
            &&& has_id(s2.contacts, id1)
            &&& has_id(s2.contacts, id2)
            &&& s2.contacts.len() == s0.contacts.len() + 2
            &&& store_wf(s2)
        }),
{
    lemma_insert_spec_fresh(s0, f1);
    lemma_insert_spec_fresh(insert_spec(s0, f1), f2);
}

/// A seed record: the four text fields under a given id, no transient
/// error.
pub open spec fn seed_view(
    id: u64,
    first: Seq<char>,
    last: Seq<char>,
    phone: Seq<char>,
    email: Seq<char>,
) -> ContactView {
    ContactView { id: id, first: first, last: last, phone: phone, email: email, error: None }
}

/// The fixed records the directory starts with, ids 1 through 11 in order.
pub open spec fn seed_contacts() -> Seq<ContactView> {
    seq![
        seed_view(1, "John"@, "Doe"@, "555-1234"@, "john@example.com"@),
        seed_view(2, "Jane"@, "Doe"@, "555-4321"@, "jane@example.com"@),
        seed_view(3, "Bob"@, "Smith"@, "555-6789"@, "bob@example.com"@),
        seed_view(4, "Alice"@, "Brown"@, "555-9876"@, "alice@example.com"@),
        seed_view(5, "Charlie"@, "Lee"@, "555-4321"@, "charlie@example.com"@),
        seed_view(6, "David"@, "Williams"@, "555-6789"@, "david@example.com"@),
        seed_view(7, "Emily"@, "Brown"@, "555-7890"@, "emily@example.com"@),
        seed_view(8, "Frank"@, "Jones"@, "555-9012"@, "frank@example.com"@),
        seed_view(9, "George"@, "Smith"@, "555-3456"@, "george@example.com"@),
        seed_view(10, "Hannah"@, "Lee"@, "555-5678"@, "hannah@example.com"@),
        seed_view(11, "Ivan"@, "Ivanov"@, "555-1234"@, "ivan@example.com"@),
    ]
}

fn seed(id: u64, first: &str, last: &str, phone: &str, email: &str) -> (c: Contact)
    ensures
        c@ == seed_view(id, first@, last@, phone@, email@),
{
    let c = Contact {
        id: id,
        first: first.to_owned(),
        last: last.to_owned(),
        phone: phone.to_owned(),
        email: email.to_owned(),
        error: None,
    };
    proof {
        assert(c@ =~= seed_view(id, first@, last@, phone@, email@));
    }
    c
}

/// The fixed seed set of records that the directory is initialized with at
/// startup.
pub fn instantiate_contacts() -> (r: Vec<Contact>)
    ensures
        views_of(r@) == seed_contacts(),
        r@.len() == 11,
{
    let mut r: Vec<Contact> = Vec::new();
    r.push(seed(1, "John", "Doe", "555-1234", "john@example.com"));
    r.push(seed(2, "Jane", "Doe", "555-4321", "jane@example.com"));
    r.push(seed(3, "Bob", "Smith", "555-6789", "bob@example.com"));
    r.push(seed(4, "Alice", "Brown", "555-9876", "alice@example.com"));
    r.push(seed(5, "Charlie", "Lee", "555-4321", "charlie@example.com"));
    r.push(seed(6, "David", "Williams", "555-6789", "david@example.com"));
    r.push(seed(7, "Emily", "Brown", "555-7890", "emily@example.com"));
    r.push(seed(8, "Frank", "Jones", "555-9012", "frank@example.com"));
    r.push(seed(9, "George", "Smith", "555-3456", "george@example.com"));
    r.push(seed(10, "Hannah", "Lee", "555-5678", "hannah@example.com"));
    r.push(seed(11, "Ivan", "Ivanov", "555-1234", "ivan@example.com"));
    proof {
        assert(views_of(r@) =~= seed_contacts());
    }
    r
}

/// The contact directory. All access from request handlers goes through a
/// single mutual-exclusion lock around one value of this type; each
/// operation below is one critical section.
pub struct ContactStore {
    contacts: Vec<Contact>,
    next_id: u64,
}

impl View for ContactStore {
    type V = StoreView;

    closed spec fn view(&self) -> StoreView {
        StoreView { contacts: views_of(self.contacts@), next_id: self.next_id as nat }
    }
}

impl ContactStore {
    /// The store's invariant; every operation requires and preserves it.
    pub open spec fn wf(&self) -> bool {
        store_wf(self@)
    }

    /// An empty store whose first insert will assign id 1.
    pub fn new() -> (s: Self)
        ensures
            s.wf(),
            s@.contacts.len() == 0,
            s@.next_id == 1,
    {
        ContactStore { contacts: Vec::new(), next_id: 1 }
    }

    /// The store as the process starts it: the fixed seed records, the
    /// counter already past their ids.
    pub fn seeded() -> (s: Self)
        ensures
            s.wf(),
            s@.contacts == seed_contacts(),
            s@.next_id == 12,
    {
        let s = ContactStore { contacts: instantiate_contacts(), next_id: 12 };
        proof {
            assert forall|i: int|
                0 <= i < s@.contacts.len() implies 1 <= (#[trigger] s@.contacts[i]).id
                < s@.next_id by {
                assert(s@.contacts[i] == seed_contacts()[i]);
            }
            assert forall|i: int, j: int|
                #![trigger s@.contacts[i], s@.contacts[j]]
                0 <= i < j < s@.contacts.len() implies s@.contacts[i].id < s@.contacts[j].id by {
                assert(s@.contacts[i] == seed_contacts()[i]);
                assert(s@.contacts[j] == seed_contacts()[j]);
            }
        }
        s
    }

    /// Number of live contacts.
    pub fn count(&self) -> (n: usize)
        ensures
            n == self@.contacts.len(),
    {
        self.contacts.len()
    }

    /// A full snapshot of the live contacts, in insertion order. Callers
    /// search and paginate the snapshot after releasing the store's lock.
    pub fn list(&self) -> (r: Vec<Contact>)
        ensures
            views_of(r@) == self@.contacts,
    {
        let mut r: Vec<Contact> = Vec::new();
        let mut i: usize = 0;
        while i < self.contacts.len()
            invariant
                0 <= i <= self.contacts@.len(),
                views_of(r@) == self@.contacts.subrange(0, i as int),
            decreases self.contacts@.len() - i,
        {
            let ghost old_r = r@;
            r.push(self.contacts[i].clone());
            proof {
                assert(views_of(r@) =~= views_of(old_r).push(self.contacts@[i as int]@));
                assert(self@.contacts.subrange(0, i + 1) =~= self@.contacts.subrange(
                    0,
                    i as int,
                ).push(self@.contacts[i as int]));
            }
            i += 1;
        }
        proof {
            assert(self@.contacts.subrange(0, self.contacts@.len() as int) =~= self@.contacts);
        }
        r
    }

    /// Whether the id counter still has room, so an insert may be made.
    pub fn can_insert(&self) -> (r: bool)
        ensures
            r == (self@.next_id < u64::MAX),
    {
        self.next_id < u64::MAX
    }

    /// Inserts the submitted fields as a new record: the record receives
    /// the counter's id — fresh, never a reused one — and is appended, and
    /// the counter moves past it. Returns the stored record.
    pub fn insert(&mut self, fields: &ContactFields) -> (c: Contact)
        requires
            old(self).wf(),
            old(self)@.next_id < u64::MAX,
        ensures
            final(self).wf(),
            final(self)@ == insert_spec(old(self)@, fields@),
            c@ == contact_of(old(self)@.next_id as u64, fields@),
            !has_id(old(self)@.contacts, c@.id),
            has_id(final(self)@.contacts, c@.id),
    {
        proof {
            lemma_insert_spec_fresh(old(self)@, fields@);
        }
        let stored = make_contact(self.next_id, fields);
        let returned = stored.clone();
        self.contacts.push(stored);
        self.next_id = self.next_id + 1;
        proof {
            assert(self@.contacts =~= old(self)@.contacts.push(
                contact_of(old(self)@.next_id as u64, fields@),
            ));
            assert(self@ =~= insert_spec(old(self)@, fields@));
        }
        returned
    }

    /// The record with id `id`, or `NotFound` when no live record has it.
    pub fn find_by_id(&self, id: u64) -> (r: Result<Contact, StoreError>)
        requires
            self.wf(),
        ensures
            match r {
                Ok(c) => has_id(self@.contacts, id) && c@.id == id && self@.contacts.contains(c@),
                Err(e) => e == StoreError::NotFound && !has_id(self@.contacts, id),
            },
    {
        let mut i: usize = 0;
        while i < self.contacts.len()
            invariant
                0 <= i <= self.contacts@.len(),
                forall|k: int| 0 <= k < i ==> (#[trigger] self@.contacts[k]).id != id,
            decreases self.contacts@.len() - i,
        {
            if self.contacts[i].id == id {
                let c = self.contacts[i].clone();
                proof {
                    assert(self@.contacts[i as int] == c@);
                }
                return Ok(c);
            }
            i += 1;
        }
        Err(StoreError::NotFound)
    }

    /// Replaces the four text fields of the record with id `id` by the
    /// submitted fields, absent ones by their default placeholders; the id
    /// stays, nothing else moves. `NotFound`, and no change, when no live
    /// record has the id.
    pub fn update_by_id(&mut self, id: u64, fields: &ContactFields) -> (r: Result<
        Contact,
        StoreError,
    >)
        requires
            old(self).wf(),
        ensures
            final(self).wf(),
            final(self)@.next_id == old(self)@.next_id,
            match r {
                Ok(c) => {
                    &&& has_id(old(self)@.contacts, id)
                    &&& c@ == contact_of(id, fields@)
                    &&& exists|i: int|
                        0 <= i < old(self)@.contacts.len() && (#[trigger] old(self)@.contacts[i]).id == id
                            && final(self)@.contacts == old(self)@.contacts.update(
                            i,
                            contact_of(id, fields@),
                        )
                },
                Err(e) => e == StoreError::NotFound && !has_id(old(self)@.contacts, id)
                    && final(self)@ == old(self)@,
            },
    {
        let n = self.contacts.len();
        let mut i: usize = 0;
        while i < n
            invariant
                old(self).wf(),
                n == self.contacts@.len(),
                0 <= i <= n,
                *self == *old(self),
                forall|k: int| 0 <= k < i ==> (#[trigger] self@.contacts[k]).id != id,
            decreases n - i,
        {
            if self.contacts[i].id == id {
                let stored = make_contact(id, fields);
                let returned = stored.clone();
                self.contacts[i] = stored;
                proof {
                    assert(self@.contacts =~= old(self)@.contacts.update(
                        i as int,
                        contact_of(id, fields@),
                    ));
                    assert(old(self)@.contacts[i as int].id == id);
                    assert forall|a: int, b: int|
                        #![trigger self@.contacts[a], self@.contacts[b]]
                        0 <= a < b < self@.contacts.len() implies self@.contacts[a].id
                        < self@.contacts[b].id by {
                        assert(old(self)@.contacts[a].id < old(self)@.contacts[b].id);
                    }
                }
                return Ok(returned);
            }
            i += 1;
        }
        proof {
            assert(self@ =~= old(self)@);
        }
        Err(StoreError::NotFound)
    }

    /// Removes the record with id `id`; afterwards no live record has that
    /// id and every other record keeps its place in the order. `NotFound`,
    /// and no change, when no live record has the id.
    pub fn delete_by_id(&mut self, id: u64) -> (r: Result<(), StoreError>)
        requires
            old(self).wf(),
        ensures
            final(self).wf(),
            final(self)@.next_id == old(self)@.next_id,
            match r {
                Ok(u) => {
                    &&& has_id(old(self)@.contacts, id)
                    &&& !has_id(final(self)@.contacts, id)
                    &&& exists|i: int|
                        0 <= i < old(self)@.contacts.len() && (#[trigger] old(self)@.contacts[i]).id == id
                            && final(self)@.contacts == old(self)@.contacts.remove(i)
                },
                Err(e) => e == StoreError::NotFound && !has_id(old(self)@.contacts, id)
                    && final(self)@ == old(self)@,
            },
    {
        let n = self.contacts.len();
        let mut i: usize = 0;
        while i < n
            invariant
                old(self).wf(),
                n == self.contacts@.len(),
                0 <= i <= n,
                *self == *old(self),
                forall|k: int| 0 <= k < i ==> (#[trigger] self@.contacts[k]).id != id,
            decreases n - i,
        {
            if self.contacts[i].id == id {
                self.contacts.remove(i);
                proof {
                    assert(self@.contacts =~= old(self)@.contacts.remove(i as int));
                    assert(old(self)@.contacts[i as int].id == id);
                    lemma_wf_ids_unique(old(self)@);
                    assert forall|k: int|
                        0 <= k < self@.contacts.len() implies (#[trigger] self@.contacts[k]).id
                        != id by {
                        if k < i {
                            assert(self@.contacts[k] == old(self)@.contacts[k]);
                        } else {
                            assert(self@.contacts[k] == old(self)@.contacts[k + 1]);
                        }
                    }
                    assert forall|a: int, b: int|
                        #![trigger self@.contacts[a], self@.contacts[b]]
                        0 <= a < b < self@.contacts.len() implies self@.contacts[a].id
                        < self@.contacts[b].id by {
                        let oa: int = if a < i {
                            a
                        } else {
                            a + 1
                        };
                        let ob: int = if b < i {
                            b
                        } else {
                            b + 1
                        };
                        assert(self@.contacts[a] == old(self)@.contacts[oa]);
                        assert(self@.contacts[b] == old(self)@.contacts[ob]);
                    }
                }
                return Ok(());
            }
            i += 1;
        }
        proof {
            assert(self@ =~= old(self)@);
        }
        Err(StoreError::NotFound)
    }
}

} // verus!
