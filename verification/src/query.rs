//! The query engine: case-insensitive substring search over the four
//! searchable fields, pagination of the filtered view, and normalization of
//! the raw page parameter.

use vstd::prelude::*;
use crate::contact::{Contact, ContactView, views_of};
use crate::text::{spec_contains, lower_of, lowercase, contains_substr, lemma_contains_empty};
use crate::PAGE_SIZE;

verus! {

/// A contact matches the case-folded query `ql` when `ql` occurs in the
/// case folding of its first name, last name, phone, or email.
pub open spec fn contact_matches(c: ContactView, ql: Seq<char>) -> bool {
    ||| spec_contains(lower_of(c.first), ql)
    ||| spec_contains(lower_of(c.last), ql)
    ||| spec_contains(lower_of(c.phone), ql)
    ||| spec_contains(lower_of(c.email), ql)
}

/// The subsequence of `all` whose elements match the case-folded query
/// `ql`, in their original order.
pub open spec fn search_spec(all: Seq<ContactView>, ql: Seq<char>) -> Seq<ContactView> {
    all.filter(|c: ContactView| contact_matches(c, ql))
}

/// Filtering with a predicate that holds of every element returns the
/// sequence unchanged.
proof fn lemma_filter_all<A>(s: Seq<A>, pred: spec_fn(A) -> bool)
    requires
        forall|i: int| 0 <= i < s.len() ==> pred(#[trigger] s[i]),
    ensures
        s.filter(pred) == s,
    decreases s.len(),
{
    reveal(Seq::filter);
    if s.len() == 0 {
        assert(s.filter(pred) =~= s);
    } else {
        lemma_filter_all(s.drop_last(), pred);
        assert(s.drop_last().push(s.last()) =~= s);
    }
}

/// Every element of a filtered sequence is an element of the original.
proof fn lemma_filter_subset<A>(s: Seq<A>, pred: spec_fn(A) -> bool)
    ensures
        forall|i: int|
            0 <= i < s.filter(pred).len() ==> s.contains(#[trigger] s.filter(pred)[i]),
    decreases s.len(),
{
    reveal(Seq::filter);
    if s.len() != 0 {
        lemma_filter_subset(s.drop_last(), pred);
        assert forall|i: int|
            0 <= i < s.filter(pred).len() implies s.contains(#[trigger] s.filter(pred)[i]) by {
            let x = s.filter(pred)[i];
            if i < s.drop_last().filter(pred).len() {
                let j = choose|j: int|
                    0 <= j < s.drop_last().len() && s.drop_last()[j] == x;
                assert(s[j] == x);
            } else {
                assert(s[s.len() - 1] == x);
            }
        }
    }
}

/// The search keeps exactly the matching contacts: every element of
/// `search_spec(all, ql)` matches `ql`; every element of `all` that matches
/// `ql` appears in the result; and the result holds nothing that was not in
/// `all`. Hence an element of `all` left out of the result does not match.
pub proof fn lemma_search_characterization(all: Seq<ContactView>, ql: Seq<char>)
    ensures
        forall|i: int|
            0 <= i < search_spec(all, ql).len() ==> contact_matches(
                #[trigger] search_spec(all, ql)[i],
                ql,
            ),
        forall|i: int|
            0 <= i < all.len() && contact_matches(#[trigger] all[i], ql) ==> search_spec(
                all,
                ql,
            ).contains(all[i]),
        forall|i: int|
            0 <= i < search_spec(all, ql).len() ==> all.contains(
                #[trigger] search_spec(all, ql)[i],
            ),
        forall|i: int|
            0 <= i < all.len() && !search_spec(all, ql).contains(#[trigger] all[i])
                ==> !contact_matches(all[i], ql),
{
    let pred = |c: ContactView| contact_matches(c, ql);
    broadcast use vstd::seq_lib::group_filter_ensures;

    lemma_filter_subset(all, pred);
    assert forall|i: int|
        0 <= i < all.len() && contact_matches(#[trigger] all[i], ql) implies search_spec(
        all,
        ql,
    ).contains(all[i]) by {
        assert(pred(all[i]));
    }
}

fn matches_query(c: &Contact, q_folded: &str) -> (r: bool)
    ensures
        r == contact_matches(c@, q_folded@),
{
    let first = lowercase(c.first.as_str());
    if contains_substr(first.as_str(), q_folded) {
        return true;
    }
    let last = lowercase(c.last.as_str());
    if contains_substr(last.as_str(), q_folded) {
        return true;
    }
    let phone = lowercase(c.phone.as_str());
    if contains_substr(phone.as_str(), q_folded) {
        return true;
    }
    let email = lowercase(c.email.as_str());
    contains_substr(email.as_str(), q_folded)
}

/// Filters `all` down to the contacts that the raw query `q` matches
/// case-insensitively; the empty query keeps every contact, in order.
pub fn search(all: &Vec<Contact>, q: &str) -> (r: Vec<Contact>)
    ensures
        views_of(r@) == search_spec(views_of(all@), lower_of(q@)),
        q@.len() == 0 ==> views_of(r@) == views_of(all@),
{
    let ql = lowercase(q);
    let ghost avs = views_of(all@);
    let ghost pred = |c: ContactView| contact_matches(c, ql@);
    let mut r: Vec<Contact> = Vec::new();
    let mut i: usize = 0;
    while i < all.len()
        invariant
            ql@ == lower_of(q@),
            q@.len() == 0 ==> ql@.len() == 0,
            avs == views_of(all@),
            avs.len() == all@.len(),
            pred == (|c: ContactView| contact_matches(c, ql@)),
            0 <= i <= all@.len(),
            views_of(r@) == avs.subrange(0, i as int).filter(pred),
        decreases all@.len() - i,
    {
        let c = &all[i];
        proof {
            reveal(Seq::filter);
            assert(avs.subrange(0, i + 1).drop_last() =~= avs.subrange(0, i as int));
            assert(avs.subrange(0, i + 1).last() == c@);
        }
        if matches_query(c, ql.as_str()) {
            let ghost old_r = r@;
            r.push(c.clone());
            proof {
                assert(views_of(r@) =~= views_of(old_r).push(c@));
            }
        }
        i += 1;
    }
    proof {
        assert(avs.subrange(0, all@.len() as int) =~= avs);
        if q@.len() == 0 {
            assert forall|k: int| 0 <= k < avs.len() implies pred(#[trigger] avs[k]) by {
                lemma_contains_empty(lower_of(avs[k].first), ql@);
            }
            lemma_filter_all(avs, pred);
        }
    }
    r
}

/// Number of pages that `n` matching contacts fill: the least integer at or
/// above `n / PAGE_SIZE`.
pub open spec fn spec_total_pages(n: nat) -> int {
    (n + PAGE_SIZE - 1) / (PAGE_SIZE as int)
}

/// The slice of `s` shown on page `page` (1-based): elements
/// `(page-1)*PAGE_SIZE` up to `PAGE_SIZE` of them; empty when the start
/// index is at or past the end.
pub open spec fn page_slice(s: Seq<ContactView>, page: int) -> Seq<ContactView> {
    let start = (page - 1) * (PAGE_SIZE as int);
    if start >= s.len() {
        Seq::empty()
    } else if start + PAGE_SIZE <= s.len() {
        s.subrange(start, start + PAGE_SIZE)
    } else {
        s.subrange(start, s.len() as int)
    }
}

/// Pages the matching contacts: returns the slice for `page` together with
/// the total page count. A `page` past the last page yields the empty slice,
/// never an out-of-range access.
pub fn paginate(matches: &Vec<Contact>, page: usize) -> (r: (Vec<Contact>, usize))
    requires
        1 <= page,
    ensures
        r.1 == spec_total_pages(matches@.len()),
        views_of(r.0@) == page_slice(views_of(matches@), page as int),
        r.0@.len() <= PAGE_SIZE,
        page > r.1 ==> r.0@.len() == 0,
{
    let len = matches.len();
    let total = if len == 0 {
        0
    } else {
        1 + (len - 1) / PAGE_SIZE
    };
    proof {
        assert(total == spec_total_pages(matches@.len()));
    }
    let pm1 = page - 1;
    if pm1 >= total {
        proof {
            assert(pm1 * (PAGE_SIZE as int) >= total * (PAGE_SIZE as int)) by (nonlinear_arith)
                requires
                    pm1 >= total,
                    PAGE_SIZE > 0,
            ;
            assert(total * (PAGE_SIZE as int) >= len);
        }
        return (Vec::new(), total);
    }
    proof {
        assert(pm1 * (PAGE_SIZE as int) <= (total - 1) * (PAGE_SIZE as int)) by (nonlinear_arith)
            requires
                pm1 <= total - 1,
                PAGE_SIZE > 0,
        ;
        assert((total - 1) * (PAGE_SIZE as int) <= len - 1);
    }
    let start = pm1 * PAGE_SIZE;
    let remaining = len - start;
    let take = if remaining < PAGE_SIZE {
        remaining
    } else {
        PAGE_SIZE
    };
    let mut out: Vec<Contact> = Vec::new();
    let mut k: usize = 0;
    while k < take
        invariant
            len == matches@.len(),
            start + take <= len,
            0 <= k <= take,
            views_of(out@) == views_of(matches@).subrange(start as int, start + k),
        decreases take - k,
    {
        let ghost old_out = out@;
        out.push(matches[start + k].clone());
        proof {
            assert(views_of(out@) =~= views_of(old_out).push(matches@[start + k]@));
            assert(views_of(matches@).subrange(start as int, start + k + 1) =~= views_of(
                matches@,
            ).subrange(start as int, start + k).push(matches@[start + k]@));
        }
        k += 1;
    }
    proof {
        assert(views_of(out@) == page_slice(views_of(matches@), page as int));
    }
    (out, total)
}

/// `c` is a decimal digit.
pub open spec fn is_digit(c: char) -> bool {
    48 <= c as int <= 57
}

/// The value of the digit `c`.
pub open spec fn digit_val(c: char) -> int {
    c as int - 48
}

/// Every character of `s` is a decimal digit.
pub open spec fn all_digits(s: Seq<char>) -> bool {
    forall|i: int| 0 <= i < s.len() ==> is_digit(#[trigger] s[i])
}

/// The number that the digit string `s` denotes, most significant first.
pub open spec fn digits_value(s: Seq<char>) -> int
    decreases s.len(),
{
    if s.len() == 0 {
        0
    } else {
        digits_value(s.drop_last()) * 10 + digit_val(s.last())
    }
}

/// The page number that the raw query parameter `s` denotes: its decimal
/// value where `s` is a non-empty digit string whose value fits the
/// machine, and the first page otherwise.
pub open spec fn parse_page_spec(s: Seq<char>) -> int {
    if s.len() > 0 && all_digits(s) && digits_value(s) <= usize::MAX {
        digits_value(s)
    } else {
        1
    }
}

proof fn lemma_digits_value_nonneg(s: Seq<char>)
    requires
        all_digits(s),
    ensures
        digits_value(s) >= 0,
    decreases s.len(),
{
    if s.len() > 0 {
        lemma_digits_value_nonneg(s.drop_last());
    }
}

/// A digit string is worth at least as much as any of its prefixes.
proof fn lemma_digits_value_prefix_le(s: Seq<char>, i: int)
    requires
        all_digits(s),
        0 <= i <= s.len(),
    ensures
        digits_value(s.subrange(0, i)) <= digits_value(s),
    decreases s.len() - i,
{
    if i < s.len() {
        lemma_digits_value_prefix_le(s, i + 1);
        let p = s.subrange(0, i + 1);
        assert(p.drop_last() =~= s.subrange(0, i));
        assert(all_digits(s.subrange(0, i)));
        lemma_digits_value_nonneg(s.subrange(0, i));
    } else {
        assert(s.subrange(0, i) =~= s);
    }
}

/// Parses the raw page parameter: the decimal value of a digit string that
/// fits the machine, and `1` for anything else, as a malformed page must
/// default to the first page.
pub fn parse_page(s: &str) -> (r: usize)
    ensures
        r as int == parse_page_spec(s@),
{
    let len = s.unicode_len();
    if len == 0 {
        return 1;
    }
    let mut acc: usize = 0;
    let mut i: usize = 0;
    while i < len
        invariant
            len == s@.len(),
            0 < len,
            0 <= i <= len,
            all_digits(s@.subrange(0, i as int)),
            acc as int == digits_value(s@.subrange(0, i as int)),
        decreases len - i,
    {
        let c = s.get_char(i);
        let u = c as u32;
        proof {
            assert(s@.subrange(0, i + 1).drop_last() =~= s@.subrange(0, i as int));
            assert(s@.subrange(0, i + 1).last() == c);
        }
        if u < 48 || u > 57 {
            proof {
                assert(!is_digit(s@[i as int]));
            }
            return 1;
        }
        let d = (u - 48) as usize;
        if acc > (usize::MAX - d) / 10 {
            proof {
                assert(10 * acc > usize::MAX - d) by (nonlinear_arith)
                    requires
                        acc > (usize::MAX - d as int) / 10,
                        0 <= d <= 9,
                ;
                assert(parse_page_spec(s@) == 1) by {
                    if all_digits(s@) {
                        lemma_digits_value_prefix_le(s@, i + 1);
                    }
                }
            }
            return 1;
        }
        proof {
            assert(10 * acc + d <= usize::MAX) by (nonlinear_arith)
                requires
                    acc <= (usize::MAX - d as int) / 10,
                    0 <= d <= 9,
            ;
        }
        acc = acc * 10 + d;
        i += 1;
    }
    proof {
        assert(s@.subrange(0, len as int) =~= s@);
    }
    acc
}

/// Clamps a raw page number to the 1-based range the pager accepts.
pub fn normalize_page(page: usize) -> (r: usize)
    ensures
        r == (if page >= 1 {
            page as int
        } else {
            1
        }),
{
    if page == 0 {
        1
    } else {
        page
    }
}

} // verus!
