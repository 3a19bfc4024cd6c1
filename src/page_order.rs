//! Page ordering rules: `rules[a]` lists the pages that must come after page
//! `a`; a list of pages is in order when each page must come before the next.
use vstd::prelude::*;
use std::cmp::Ordering;

verus! {

/// For each page, the pages that must follow it.
pub type OrderingRules = Vec<Vec<u8>>;

/// A list of pages.
pub type PageList = Vec<u8>;

/// The rules as sequences.
pub open spec fn rules_view(rules: &OrderingRules) -> Seq<Seq<u8>> {
    rules@.map_values(|v: Vec<u8>| v@)
}

/// Page `a` must come before page `b`.
pub open spec fn precedes(rules: Seq<Seq<u8>>, a: u8, b: u8) -> bool {
    rules[a as int].contains(b)
}

/// The rules cover every page of the list and never ask two pages of it to
/// come each before the other.
pub open spec fn rules_fit(rules: Seq<Seq<u8>>, pages: Seq<u8>) -> bool {
    &&& forall|i: int| 0 <= i < pages.len() ==> (#[trigger] pages[i] as int) < rules.len()
    &&& forall|i: int, j: int|
        0 <= i < pages.len() && 0 <= j < pages.len() ==> !(precedes(rules, #[trigger] pages[i], #[trigger] pages[j])
            && precedes(rules, pages[j], pages[i]))
}

/// Each page of the list must come before the next one.
pub open spec fn in_order(rules: Seq<Seq<u8>>, pages: Seq<u8>) -> bool {
    forall|i: int| 0 <= i < pages.len() - 1 ==> precedes(rules, #[trigger] pages[i], pages[i + 1])
}

/// The sum of the middle pages of the lists that are in order.
pub open spec fn middle_sum(rules: Seq<Seq<u8>>, lists: Seq<Seq<u8>>) -> int
    decreases lists.len(),
{
    if lists.len() == 0 {
        0
    } else {
        let last = lists.last();
        middle_sum(rules, lists.drop_last()) + if in_order(rules, last) {
            last[last.len() as int / 2] as int
        } else {
            0
        }
    }
}

fn contains_page(pages: &Vec<u8>, page: u8) -> (r: bool)
    ensures
        r == pages@.contains(page),
{
    let mut i: usize = 0;
    while i < pages.len()
        invariant
            i <= pages@.len(),
            forall|k: int| 0 <= k < i ==> pages@[k] != page,
        decreases pages@.len() - i,
    {
        if pages[i] == page {
            assert(pages@[i as int] == page);
            return true;
        }
        i = i + 1;
    }
    false
}

/// How pages `a` and `b` must be ordered: `Less` when `a` must come first,
/// `Greater` when `b` must, `Equal` when no rule says.
pub fn get_correct_pair_order(ordering_rules: &OrderingRules, a: u8, b: u8) -> (r: Ordering)
    requires
        (a as int) < ordering_rules@.len(),
        (b as int) < ordering_rules@.len(),
        !(precedes(rules_view(ordering_rules), a, b) && precedes(rules_view(ordering_rules), b, a)),
    ensures
        precedes(rules_view(ordering_rules), a, b) ==> r == Ordering::Less,
        precedes(rules_view(ordering_rules), b, a) ==> r == Ordering::Greater,
        !precedes(rules_view(ordering_rules), a, b) && !precedes(rules_view(ordering_rules), b, a)
            ==> r == Ordering::Equal,
{
    let a_should_precede_b = contains_page(&ordering_rules[a as usize], b);
    let b_should_precede_a = contains_page(&ordering_rules[b as usize], a);
    if a_should_precede_b {
        Ordering::Less
    } else if b_should_precede_a {
        Ordering::Greater
    } else {
        Ordering::Equal
    }
}

/// Whether each page of the list must come before the next.
pub fn is_page_list_correctly_ordered(page_list: &PageList, ordering_rules: &OrderingRules) -> (r: bool)
    requires
        rules_fit(rules_view(ordering_rules), page_list@),
    ensures
        r == in_order(rules_view(ordering_rules), page_list@),
{
    let ghost rules = rules_view(ordering_rules);
    if page_list.len() < 2 {
        return true;
    }
    let mut i: usize = 0;
    while i < page_list.len() - 1
        invariant
            rules == rules_view(ordering_rules),
            rules_fit(rules, page_list@),
            page_list@.len() >= 2,
            i + 1 <= page_list@.len(),
            forall|k: int| 0 <= k < i ==> precedes(rules, #[trigger] page_list@[k], page_list@[k + 1]),
        decreases page_list@.len() - i,
    {
        let a = page_list[i];
        let b = page_list[i + 1];
        assert((page_list@[i as int] as int) < rules.len());
        assert((page_list@[i + 1] as int) < rules.len());
        assert(!(precedes(rules, page_list@[i as int], page_list@[i + 1]) && precedes(
            rules,
            page_list@[i + 1],
            page_list@[i as int],
        )));
        match get_correct_pair_order(ordering_rules, a, b) {
            Ordering::Less => {},
            _ => {
                assert(!precedes(rules, page_list@[i as int], page_list@[i + 1]));
                return false;
            },
        }
        i = i + 1;
    }
    true
}

/// The sum of the middle pages of the lists that are already in order.
pub fn day5_1(ordering_rules: &OrderingRules, page_lists: &Vec<PageList>) -> (r: u32)
    requires
        page_lists@.len() * 255 <= u32::MAX,
        forall|i: int|
            0 <= i < page_lists@.len() ==> #[trigger] page_lists@[i]@.len() > 0 && rules_fit(
                rules_view(ordering_rules),
                page_lists@[i]@,
            ),
    ensures
        r == middle_sum(rules_view(ordering_rules), page_lists@.map_values(|v: PageList| v@)),
{
    let ghost rules = rules_view(ordering_rules);
    let ghost lists = page_lists@.map_values(|v: PageList| v@);
    let mut sum: u32 = 0;
    let mut i: usize = 0;
    while i < page_lists.len()
        invariant
            rules == rules_view(ordering_rules),
            lists == page_lists@.map_values(|v: PageList| v@),
            page_lists@.len() * 255 <= u32::MAX,
            forall|i: int|
                0 <= i < page_lists@.len() ==> #[trigger] page_lists@[i]@.len() > 0 && rules_fit(
                    rules,
                    page_lists@[i]@,
                ),
            i <= page_lists@.len(),
            sum == middle_sum(rules, lists.subrange(0, i as int)),
            sum <= 255 * i,
        decreases page_lists@.len() - i,
    {
        let page_list = &page_lists[i];
        assert(lists.subrange(0, i + 1).drop_last() =~= lists.subrange(0, i as int));
        assert(lists.subrange(0, i + 1).last() == page_list@);
        if is_page_list_correctly_ordered(page_list, ordering_rules) {
            sum = sum + page_list[page_list.len() / 2] as u32;
        }
        i = i + 1;
    }
    assert(lists.subrange(0, i as int) =~= lists);
    sum
}

} // verus!
