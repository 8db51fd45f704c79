//! Which pages of a book are fetched.
use crate::decimal::{decimal, decimal_is_read_back, digits_are_read_one_by_one, digits_value, is_digit};
use vstd::prelude::*;

verus! {

/// The number of pages that a text tells: that of its digits, or zero where they
/// are too many for a number of 32 bits.
pub open spec fn pages_told(text: Seq<char>) -> u32 {
    if digits_value(text) <= u32::MAX {
        digits_value(text) as u32
    } else {
        0
    }
}

/// The number of pages that a text tells. Whatever is not a digit is passed over.
pub fn page_count(text: &str) -> (r: u32)
    ensures
        r == pages_told(text@),
{
    let mut value: u64 = 0;
    let mut too_great: bool = false;
    for c in it: text.chars()
        invariant
            it.seq() == text@,
            value <= u32::MAX,
            !too_great ==> value == digits_value(text@.take(it.index() as int)),
            too_great ==> digits_value(text@.take(it.index() as int)) > u32::MAX,
    {
        let ghost before = text@.take(it.index() as int);
        proof {
            let after = text@.take(it.index() + 1);
            assert(after.drop_last() =~= before);
            assert(after.last() == c);
        }
        if '0' <= c && c <= '9' {
            let d: u64 = (c as u32 - 48) as u64;
            if !too_great {
                let next: u64 = 10 * value + d;
                if next > u32::MAX as u64 {
                    too_great = true;
                } else {
                    value = next;
                }
            }
        }
    }
    assert(text@.take(text@.len() as int) =~= text@);
    if too_great {
        0
    } else {
        value as u32
    }
}

/// A number of pages in decimal is understood, whatever stands before it and
/// after it, as long as that holds no digit.
pub proof fn page_counts_are_understood(before: Seq<char>, n: u32, after: Seq<char>)
    requires
        forall|i: int| 0 <= i < before.len() ==> !is_digit(#[trigger] before[i]),
        forall|i: int| 0 <= i < after.len() ==> !is_digit(#[trigger] after[i]),
    ensures
        pages_told(before + decimal(n as nat) + after) == n,
{
    lemma_no_digits_after(before + decimal(n as nat), after);
    lemma_no_digits_before(before, decimal(n as nat));
    decimal_is_read_back(n as nat, 0);
}

proof fn lemma_no_digits_after(s: Seq<char>, after: Seq<char>)
    requires
        forall|i: int| 0 <= i < after.len() ==> !is_digit(#[trigger] after[i]),
    ensures
        digits_value(s + after) == digits_value(s),
    decreases after.len(),
{
    if after.len() == 0 {
        assert(s + after =~= s);
    } else {
        let shorter = after.drop_last();
        assert(forall|i: int| 0 <= i < shorter.len() ==> shorter[i] == after[i]);
        lemma_no_digits_after(s, shorter);
        assert((s + after).drop_last() =~= s + shorter);
        assert((s + after).last() == after[after.len() - 1]);
    }
}

proof fn lemma_no_digits_before(before: Seq<char>, s: Seq<char>)
    requires
        forall|i: int| 0 <= i < before.len() ==> !is_digit(#[trigger] before[i]),
    ensures
        digits_value(before + s) == digits_value(s),
    decreases s.len(),
{
    if s.len() == 0 {
        let empty: Seq<char> = seq![];
        lemma_no_digits_after(empty, before);
        assert(empty + before =~= before + s);
    } else {
        lemma_no_digits_before(before, s.drop_last());
        assert((before + s).drop_last() =~= before + s.drop_last());
        assert((before + s).last() == s.last());
    }
}

/// The pages `first` to `last`, both included. There is none where `last` is below
/// `first`.
#[derive(Clone, Copy)]
pub struct PageRange {
    pub first: u32,
    pub last: u32,
}

/// The first page that is fetched: `from`, or the first of the book.
pub open spec fn first_page(from: u32) -> u32 {
    if from < 1 {
        1
    } else {
        from
    }
}

/// The last page that is fetched, when `first` is a page of the book: the last of
/// the book, or that of the first `limit` pages from `first` on.
pub open spec fn last_page(first: u32, limit: Option<u32>, total: u32) -> u32 {
    match limit {
        Some(limit) => if limit < total - first + 1 {
            (first + limit - 1) as u32
        } else {
            total
        },
        None => total,
    }
}

/// The pages that are fetched of a book of `total` pages: those from page `from`
/// on, and at most `limit` of them. There is none to fetch where the book ends
/// before page `from`.
pub open spec fn planned(from: u32, limit: Option<u32>, total: u32) -> Option<PageRange> {
    let first = first_page(from);
    if first > total {
        None
    } else {
        Some(PageRange { first, last: last_page(first, limit, total) })
    }
}

/// The pages that are fetched of a book of `total` pages.
pub fn plan_range(from: u32, limit: Option<u32>, total: u32) -> (r: Option<PageRange>)
    ensures
        r == planned(from, limit, total),
{
    let first: u32 = if from < 1 {
        1
    } else {
        from
    };
    if first > total {
        return None;
    }
    let last: u32 = match limit {
        Some(limit) => {
            // One less than how many pages there are from `first` on.
            let further: u32 = total - first;
            if limit <= further {
                first - 1 + limit
            } else {
                total
            }
        },
        None => total,
    };
    Some(PageRange { first, last })
}

impl PageRange {
    /// Whether the range is all of a book of `total` pages.
    pub open spec fn spec_is_whole(self, total: u32) -> bool {
        self.first == 1 && self.last == total
    }

    /// Whether the range is all of a book of `total` pages.
    pub fn is_whole(&self, total: u32) -> (r: bool)
        ensures
            r == self.spec_is_whole(total),
            r == (self.first == 1 && self.last == total),
    {
        self.first == 1 && self.last == total
    }
}

/// The pages that are fetched are pages of the book, start where they are asked
/// for, and are no more than asked for. Without a limit they go on to the last
/// page of the book.
pub proof fn range_stays_in_book(from: u32, limit: Option<u32>, total: u32)
    requires
        planned(from, limit, total) is Some,
    ensures
        ({
            let range = planned(from, limit, total)->0;
            &&& 1 <= range.first <= total
            &&& range.first == first_page(from)
            &&& range.last <= total
            &&& range.last + 1 >= range.first
            &&& limit matches Some(limit) ==> range.last - range.first + 1 <= limit
            &&& limit is None ==> range.last == total
        }),
{
}

/// With a limit, all pages are fetched that the limit and the book allow.
pub proof fn limit_is_used_up(from: u32, limit: u32, total: u32)
    requires
        planned(from, Some(limit), total) is Some,
    ensures
        ({
            let range = planned(from, Some(limit), total)->0;
            let left = total - range.first + 1;
            range.last - range.first + 1 == (if limit < left {
                limit as int
            } else {
                left
            })
        }),
{
}

/// Nothing is fetched exactly where the book ends before the page that is asked
/// for; a book without pages has none.
pub proof fn range_is_missing(from: u32, limit: Option<u32>, total: u32)
    ensures
        planned(from, limit, total) is None <==> from > total || total == 0,
{
}

/// The number of pages that a text tells is the one that its digits make up, one
/// after the other, whatever stands between them; none is told where they make up
/// a number of more than 32 bits.
pub proof fn page_counts_are_those_of_the_digits(text: Seq<char>, c: char)
    ensures
        digits_value(text) <= u32::MAX ==> pages_told(text) as nat == digits_value(text),
        digits_value(text) > u32::MAX ==> pages_told(text) == 0,
        pages_told(Seq::empty()) == 0,
        !('0' <= c <= '9') ==> pages_told(text.push(c)) == pages_told(text),
        '0' <= c <= '9' && 10 * pages_told(text) + (c as int - '0' as int) <= u32::MAX
            && digits_value(text) <= u32::MAX ==> pages_told(text.push(c)) == 10 * pages_told(text)
            + (c as int - '0' as int),
{
    digits_are_read_one_by_one(text, c);
}

/// Page `p` is fetched exactly where it is a page of the book, does not stand before
/// the page that is asked for, and is not more than `limit` pages behind it. Page
/// zero is none, so asking for it is asking for the first.
pub proof fn pages_asked_for_are_fetched(from: u32, limit: Option<u32>, total: u32, p: u32)
    ensures
        (planned(from, limit, total) matches Some(range) && range.first <= p <= range.last) <==> (
        1 <= p <= total && from <= p && (limit matches Some(limit) ==> p - (if from == 0 {
            1int
        } else {
            from as int
        }) < limit)),
        planned(from, limit, total) matches Some(range) ==> range.first == (if from == 0 {
            1
        } else {
            from
        }),
        planned(from, limit, total) is None <==> from > total || total == 0,
{
}

/// Digits make up the same number whatever else stands before them and after them.
pub proof fn digits_among_others(before: Seq<char>, digits: Seq<char>, after: Seq<char>)
    requires
        forall|i: int| 0 <= i < before.len() ==> !('0' <= #[trigger] before[i] <= '9'),
        forall|i: int| 0 <= i < after.len() ==> !('0' <= #[trigger] after[i] <= '9'),
    ensures
        digits_value(before + digits + after) == digits_value(digits),
{
    lemma_no_digits_after(before + digits, after);
    lemma_no_digits_before(before, digits);
}

} // verus!
