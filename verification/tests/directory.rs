use contact_directory::contact::{Contact, ContactFields};
use contact_directory::query::{normalize_page, paginate, parse_page, search};
use contact_directory::render::{list_view, select_template, TemplateChoice};
use contact_directory::store::{instantiate_contacts, ContactStore, StoreError};
use contact_directory::text::{contains_char, contains_substr, str_eq};
use contact_directory::validate::validate_email;

fn sample_contact() -> Contact {
    Contact {
        id: 3,
        first: "Ann".to_string(),
        last: "Bee".to_string(),
        phone: "555-0000".to_string(),
        email: "ann@bee.example".to_string(),
        error: None,
    }
}

fn all_fields(first: &str, last: &str, phone: &str, email: &str) -> ContactFields {
    ContactFields {
        first: Some(first.to_string()),
        last: Some(last.to_string()),
        phone: Some(phone.to_string()),
        email: Some(email.to_string()),
    }
}

#[test]
fn seed_set_has_eleven_records_in_order() {
    let all = instantiate_contacts();
    assert_eq!(all.len(), 11);
    assert_eq!(all[0].id, 1);
    assert_eq!(all[0].first, "John");
    assert_eq!(all[0].last, "Doe");
    assert_eq!(all[0].phone, "555-1234");
    assert_eq!(all[0].email, "john@example.com");
    assert_eq!(all[10].id, 11);
    assert_eq!(all[10].first, "Ivan");
    for (k, c) in all.iter().enumerate() {
        assert_eq!(c.id, (k as u64) + 1);
        assert!(c.error.is_none());
    }
}

#[test]
fn empty_query_returns_all_in_order() {
    let all = instantiate_contacts();
    let found = search(&all, "");
    assert_eq!(found.len(), all.len());
    for (a, b) in found.iter().zip(all.iter()) {
        assert_eq!(a.id, b.id);
        assert_eq!(a.first, b.first);
        assert_eq!(a.last, b.last);
        assert_eq!(a.phone, b.phone);
        assert_eq!(a.email, b.email);
    }
}

#[test]
fn search_is_case_insensitive_on_every_field() {
    let all = instantiate_contacts();
    // last name, query in the other case than the stored text
    let found = search(&all, "DOE");
    let ids: Vec<u64> = found.iter().map(|c| c.id).collect();
    assert_eq!(ids, vec![1, 2]);
    // first name
    let found = search(&all, "hannah");
    assert_eq!(found.len(), 1);
    assert_eq!(found[0].id, 10);
    // phone
    let found = search(&all, "4321");
    let ids: Vec<u64> = found.iter().map(|c| c.id).collect();
    assert_eq!(ids, vec![2, 5]);
    // email
    let found = search(&all, "GEORGE@EXAMPLE");
    assert_eq!(found.len(), 1);
    assert_eq!(found[0].id, 9);
}

#[test]
fn search_excludes_non_matching_records() {
    let all = instantiate_contacts();
    let found = search(&all, "zzz-no-such-contact");
    assert_eq!(found.len(), 0);
}

#[test]
fn paginate_first_page_of_eleven() {
    let all = instantiate_contacts();
    let (slice, total) = paginate(&all, 1);
    assert_eq!(total, 2);
    assert_eq!(slice.len(), 10);
    assert_eq!(slice[0].id, 1);
    assert_eq!(slice[9].id, 10);
}

#[test]
fn paginate_last_page_holds_the_remainder() {
    let all = instantiate_contacts();
    let (slice, total) = paginate(&all, 2);
    assert_eq!(total, 2);
    assert_eq!(slice.len(), 1);
    assert_eq!(slice[0].id, 11);
}

#[test]
fn paginate_past_the_end_is_empty_not_an_error() {
    let all = instantiate_contacts();
    let (slice, total) = paginate(&all, 3);
    assert_eq!(total, 2);
    assert!(slice.is_empty());
    let (slice, _) = paginate(&all, 1000);
    assert!(slice.is_empty());
}

#[test]
fn paginate_of_empty_input_has_zero_pages() {
    let none: Vec<Contact> = Vec::new();
    let (slice, total) = paginate(&none, 1);
    assert_eq!(total, 0);
    assert!(slice.is_empty());
}

#[test]
fn page_parameter_parsing_and_normalization() {
    assert_eq!(parse_page("7"), 7);
    assert_eq!(parse_page("007"), 7);
    assert_eq!(parse_page(""), 1);
    assert_eq!(parse_page("abc"), 1);
    assert_eq!(parse_page("12x"), 1);
    assert_eq!(parse_page("-3"), 1);
    assert_eq!(parse_page("99999999999999999999999999999"), 1);
    assert_eq!(parse_page("0"), 0);
    assert_eq!(normalize_page(0), 1);
    assert_eq!(normalize_page(1), 1);
    assert_eq!(normalize_page(42), 42);
}

#[test]
fn create_then_fetch_yields_exactly_the_submitted_fields() {
    let mut store = ContactStore::seeded();
    let created = store.insert(&all_fields("Zoe", "X", "1", "z@x.co"));
    let fetched = store.find_by_id(created.id).expect("freshly created id must be found");
    assert_eq!(fetched.first, "Zoe");
    assert_eq!(fetched.last, "X");
    assert_eq!(fetched.phone, "1");
    assert_eq!(fetched.email, "z@x.co");
    assert_eq!(fetched.id, created.id);
    assert_eq!(fetched.id, 12);
}

#[test]
fn create_with_missing_fields_uses_default_placeholders() {
    let mut store = ContactStore::new();
    let created = store.insert(&ContactFields {
        first: None,
        last: None,
        phone: None,
        email: None,
    });
    assert_eq!(created.first, "DefaultFirstName");
    assert_eq!(created.last, "DefaultLastName");
    assert_eq!(created.phone, "DefaultPhone");
    assert_eq!(created.email, "DefaultEmail");
}

#[test]
fn update_with_partial_fields_fills_defaults_not_empty_strings() {
    let mut store = ContactStore::seeded();
    let updated = store
        .update_by_id(
            4,
            &ContactFields {
                first: Some("Alicia".to_string()),
                last: None,
                phone: None,
                email: Some("alicia@example.com".to_string()),
            },
        )
        .expect("id 4 is live");
    assert_eq!(updated.id, 4);
    assert_eq!(updated.first, "Alicia");
    assert_eq!(updated.last, "DefaultLastName");
    assert_eq!(updated.phone, "DefaultPhone");
    assert_eq!(updated.email, "alicia@example.com");
    let fetched = store.find_by_id(4).expect("id 4 stays live");
    assert_eq!(fetched.last, "DefaultLastName");
    assert_ne!(fetched.last, "");
}

#[test]
fn update_of_missing_id_is_not_found_and_changes_nothing() {
    let mut store = ContactStore::seeded();
    let before = store.list();
    let r = store.update_by_id(99, &all_fields("A", "B", "C", "d@e.f"));
    assert_eq!(r.err(), Some(StoreError::NotFound));
    let after = store.list();
    assert_eq!(before.len(), after.len());
    for (a, b) in before.iter().zip(after.iter()) {
        assert_eq!(a.id, b.id);
        assert_eq!(a.first, b.first);
    }
}

#[test]
fn delete_then_search_finds_no_trace() {
    let mut store = ContactStore::seeded();
    store.delete_by_id(10).expect("id 10 is live");
    assert!(store.find_by_id(10).is_err());
    let found = search(&store.list(), "hannah");
    assert!(found.is_empty());
    assert_eq!(store.count(), 10);
}

#[test]
fn delete_of_missing_id_is_not_found_and_changes_nothing() {
    let mut store = ContactStore::seeded();
    let r = store.delete_by_id(42);
    assert_eq!(r.err(), Some(StoreError::NotFound));
    assert_eq!(store.count(), 11);
}

#[test]
fn deleted_id_is_never_reused() {
    let mut store = ContactStore::seeded();
    store.delete_by_id(11).expect("id 11 is live");
    assert_eq!(store.count(), 10);
    let created = store.insert(&all_fields("New", "Comer", "2", "n@c.io"));
    // a length-derived counter would hand out 11 again; the store's counter
    // has already moved past it
    assert_eq!(created.id, 12);
    assert!(store.find_by_id(11).is_err());
}

#[test]
fn successive_creates_get_distinct_ids_and_none_is_lost() {
    let mut store = ContactStore::new();
    let mut ids = Vec::new();
    for k in 0..25u64 {
        let c = store.insert(&all_fields("F", "L", "P", "e@x.y"));
        assert!(!ids.contains(&c.id), "id {} handed out twice", c.id);
        ids.push(c.id);
        assert_eq!(store.count() as u64, k + 1);
    }
    for id in ids {
        assert!(store.find_by_id(id).is_ok());
    }
}

#[test]
fn validate_email_rules() {
    let c = sample_contact();
    assert_eq!(validate_email("", &c), "Email cannot be empty");
    assert_eq!(validate_email("nodomain", &c), "Invalid email");
    assert_eq!(validate_email("ann@bee.example", &c), "Same email as before");
    assert_eq!(validate_email("new@x.co", &c), "");
    // only input with neither separator is malformed; one of the two is
    // enough to fall through to the comparison
    assert_eq!(validate_email("a@b", &c), "");
    assert_eq!(validate_email("a.b", &c), "");
}

#[test]
fn template_choice_follows_the_fragment_intent_signal() {
    assert_eq!(select_template(false), TemplateChoice::FullPage);
    assert_eq!(select_template(true), TemplateChoice::RowsFragment);
    assert_eq!(select_template(false).template_name(), "index.html");
    assert_eq!(select_template(true).template_name(), "rows.html");
}

#[test]
fn list_view_carries_query_and_pages_the_matches() {
    let all = instantiate_contacts();
    let vm = list_view(&all, "doe", 1);
    assert_eq!(vm.title, "Contacts");
    assert_eq!(vm.q, "doe");
    assert_eq!(vm.page, 1);
    assert_eq!(vm.total_pages, 1);
    let ids: Vec<u64> = vm.contacts.iter().map(|c| c.id).collect();
    assert_eq!(ids, vec![1, 2]);
}

#[test]
fn list_view_empty_query_pages_everything() {
    let all = instantiate_contacts();
    let vm = list_view(&all, "", 2);
    assert_eq!(vm.total_pages, 2);
    assert_eq!(vm.contacts.len(), 1);
    assert_eq!(vm.contacts[0].id, 11);
}

#[test]
fn text_primitives() {
    assert!(contains_substr("hello world", "lo wo"));
    assert!(contains_substr("hello", ""));
    assert!(!contains_substr("hello", "world"));
    assert!(!contains_substr("ab", "abc"));
    assert!(contains_char("a@b", '@'));
    assert!(!contains_char("ab", '@'));
    assert!(str_eq("same", "same"));
    assert!(!str_eq("same", "Same"));
}

#[test]
fn folded_search_would_fail_with_an_identity_fold() {
    let all = instantiate_contacts();
    // "JOHN" is a substring of no stored field as written; only genuine
    // case folding of both sides makes it match
    let found = search(&all, "JOHN");
    assert_eq!(found.len(), 1);
    assert_eq!(found[0].id, 1);
}

#[test]
fn blank_contact_backs_the_creation_form() {
    let c = Contact::blank();
    assert_eq!(c.id, 0);
    assert_eq!(c.first, "");
    assert_eq!(c.last, "");
    assert_eq!(c.phone, "");
    assert_eq!(c.email, "");
    assert!(c.error.is_none());
}

#[test]
fn store_count_tracks_mutations() {
    let mut store = ContactStore::new();
    assert_eq!(store.count(), 0);
    let a = store.insert(&all_fields("A", "A", "1", "a@a.a"));
    let b = store.insert(&all_fields("B", "B", "2", "b@b.b"));
    assert_eq!(store.count(), 2);
    assert_ne!(a.id, b.id);
    store.delete_by_id(a.id).expect("a is live");
    assert_eq!(store.count(), 1);
}
