//! The render boundary of the listing: the choice between the full page
//! and the row fragment, and the view model that both templates consume —
//! identical data for the same inputs, the choice is a projection only.

use vstd::prelude::*;
use crate::contact::{Contact, views_of};
use crate::query::{search, search_spec, paginate, page_slice, spec_total_pages};
use crate::text::lower_of;
use crate::PAGE_SIZE;

verus! {

/// The two shapes a listing response can take. The render-intent signal is
/// computed once at the request boundary and passed down as plain data.
#[derive(Debug, Clone, Copy, PartialEq, Eq, Structural)]
pub enum TemplateChoice {
    /// A full navigation: the whole listing page.
    FullPage,
    /// An in-place update: only the repeating row portion.
    RowsFragment,
}

/// Chooses the template from the render-intent signal alone: a
/// fragment-requesting interaction gets the row fragment, a normal
/// navigation the full page.
pub fn select_template(fragment_intent: bool) -> (t: TemplateChoice)
    ensures
        t == (if fragment_intent {
            TemplateChoice::RowsFragment
        } else {
            TemplateChoice::FullPage
        }),
{
    if fragment_intent {
        TemplateChoice::RowsFragment
    } else {
        TemplateChoice::FullPage
    }
}

impl TemplateChoice {
    /// The name of the template file this choice renders with.
    pub fn template_name(&self) -> (r: &'static str)
        ensures
            *self == TemplateChoice::FullPage ==> r@ == "index.html"@,
            *self == TemplateChoice::RowsFragment ==> r@ == "rows.html"@,
    {
        match self {
            TemplateChoice::FullPage => "index.html",
            TemplateChoice::RowsFragment => "rows.html",
        }
    }
}

/// The context both listing templates consume: title, raw query, the page
/// slice of the filtered contacts, the current page, and the page count.
pub struct ListViewModel {
    pub title: String,
    pub q: String,
    pub contacts: Vec<Contact>,
    pub page: usize,
    pub total_pages: usize,
}

/// Builds the listing view model from a snapshot of the store: filters the
/// snapshot by the raw query, pages the result, and carries the inputs
/// through unchanged. Full page and row fragment render this same data.
pub fn list_view(all: &Vec<Contact>, q: &str, page: usize) -> (vm: ListViewModel)
    requires
        1 <= page,
    ensures
        ({
            let filtered = search_spec(views_of(all@), lower_of(q@));
            &&& vm.title@ == "Contacts"@
            &&& vm.q@ == q@
            &&& vm.page == page
            &&& vm.total_pages == spec_total_pages(filtered.len())
            &&& views_of(vm.contacts@) == page_slice(filtered, page as int)
            &&& vm.contacts@.len() <= PAGE_SIZE
            &&& page > vm.total_pages ==> vm.contacts@.len() == 0
        }),
{
    let found = search(all, q);
    let paged = paginate(&found, page);
    ListViewModel {
        title: "Contacts".to_owned(),
        q: q.to_owned(),
        contacts: paged.0,
        page: page,
        total_pages: paged.1,
    }
}

} // verus!
