//! Names of books and files.
use crate::decimal::{
    decimal, decimal_has_digits_only, decimal_is_read_back, decimals_differ, digits_value, padded,
    padding_puts_zeros_before, push_decimal, push_padded,
};
use crate::text::{
    append_text, chars_of, enclosed, is_white_space, padding_is_trimmed_away, split, split_bounds,
    split_distributes, text_of, text_without_separator_is_one_piece, trim, trim_bounds, white_space,
};
use vstd::prelude::*;

verus! {

/// The directory with the files of the pages, a directory in it for each book.
pub const PAGES_DIR: &'static str = "Pages";

/// The directory with the files of the books.
pub const BOOKS_DIR: &'static str = "All-Books";

/// The characters that no file name may hold: `\ / : * ? " < > |`.
pub open spec fn is_forbidden(c: char) -> bool {
    ||| c == '\\'
    ||| c == '/'
    ||| c == ':'
    ||| c == '*'
    ||| c == '?'
    ||| c == '"'
    ||| c == '<'
    ||| c == '>'
    ||| c == '|'
}

/// `s` with an underscore in place of every forbidden character.
pub open spec fn replaced(s: Seq<char>) -> Seq<char> {
    s.map_values(
        |c: char|
            if is_forbidden(c) {
                '_'
            } else {
                c
            },
    )
}

/// Whether `c` may not stand at either end of a file name: white space and the dot.
pub open spec fn is_edge(c: char) -> bool {
    is_white_space(c) || c == '.'
}

/// `s` without the white space and the dots at its start.
pub open spec fn bare_start(s: Seq<char>) -> Seq<char>
    decreases s.len(),
{
    if s.len() > 0 && is_edge(s[0]) {
        bare_start(s.drop_first())
    } else {
        s
    }
}

/// `s` without the white space and the dots at its end.
pub open spec fn bare_end(s: Seq<char>) -> Seq<char>
    decreases s.len(),
{
    if s.len() > 0 && is_edge(s.last()) {
        bare_end(s.drop_last())
    } else {
        s
    }
}

/// What is left of `s` for a file name: forbidden characters are replaced, and the
/// white space and the dots at either end are taken away, in whatever order they
/// stand there.
pub open spec fn bare_name(s: Seq<char>) -> Seq<char> {
    bare_end(bare_start(replaced(s)))
}

/// The file name for the title `s`; `book` where nothing is left of it.
pub open spec fn safe_name(s: Seq<char>) -> Seq<char> {
    if bare_name(s).len() == 0 {
        "book"@
    } else {
        bare_name(s)
    }
}

/// The file name for a title: characters that no file name may hold become
/// underscores, and white space and dots at either end go. What is empty then is
/// called `book`.
pub fn sanitize_file_name(name: &str) -> (r: String)
    ensures
        r@ == safe_name(name@),
{
    let mut v: Vec<char> = Vec::new();
    for c in it: name.chars()
        invariant
            it.seq() == name@,
            v@ == replaced(name@).take(it.index() as int),
    {
        let kept: char = if c == '\\' || c == '/' || c == ':' || c == '*' || c == '?' || c == '"'
            || c == '<' || c == '>' || c == '|' {
            '_'
        } else {
            c
        };
        v.push(kept);
    }
    let n: usize = v.len();
    assert(v@ =~= replaced(name@));
    assert(v@.subrange(0, n as int) =~= v@);
    let mut a: usize = 0;
    while a < n && (white_space(v[a]) || v[a] == '.')
        invariant
            a <= n == v@.len(),
            bare_start(v@.subrange(a as int, n as int)) == bare_start(v@),
        decreases n - a,
    {
        assert(v@.subrange(a as int, n as int).drop_first() =~= v@.subrange(a + 1, n as int));
        a += 1;
    }
    let ghost rest = v@.subrange(a as int, n as int);
    let mut b: usize = n;
    while b > a && (white_space(v[b - 1]) || v[b - 1] == '.')
        invariant
            a <= b <= n == v@.len(),
            bare_end(v@.subrange(a as int, b as int)) == bare_end(rest),
        decreases b - a,
    {
        assert(v@.subrange(a as int, b as int).drop_last() =~= v@.subrange(a as int, b - 1));
        b -= 1;
    }
    if a == b {
        "book".to_owned()
    } else {
        text_of(&v, a, b)
    }
}

proof fn lemma_bare_start(s: Seq<char>)
    ensures
        bare_start(s).len() > 0 ==> !is_edge(bare_start(s)[0]),
        forall|x: char| #[trigger] bare_start(s).contains(x) ==> s.contains(x),
    decreases s.len(),
{
    if s.len() > 0 && is_edge(s[0]) {
        let rest = s.drop_first();
        lemma_bare_start(rest);
        assert forall|x: char| #[trigger] bare_start(s).contains(x) implies s.contains(x) by {
            let i = choose|i: int| 0 <= i < rest.len() && rest[i] == x;
            assert(s[i + 1] == x);
        }
    }
}

proof fn lemma_bare_end(s: Seq<char>)
    ensures
        bare_end(s).len() <= s.len(),
        bare_end(s) == s.take(bare_end(s).len() as int),
        bare_end(s).len() > 0 ==> !is_edge(bare_end(s).last()),
        forall|x: char| #[trigger] bare_end(s).contains(x) ==> s.contains(x),
    decreases s.len(),
{
    if s.len() > 0 && is_edge(s.last()) {
        let rest = s.drop_last();
        lemma_bare_end(rest);
        assert(bare_end(s) =~= s.take(bare_end(s).len() as int));
        assert forall|x: char| #[trigger] bare_end(s).contains(x) implies s.contains(x) by {
            let i = choose|i: int| 0 <= i < rest.len() && rest[i] == x;
            assert(s[i] == x);
        }
    } else {
        assert(s =~= s.take(s.len() as int));
    }
}

/// A file name is never empty, holds no forbidden character, and neither starts
/// nor ends with white space or a dot.
pub proof fn safe_names_are_safe(s: Seq<char>)
    ensures
        safe_name(s).len() > 0,
        forall|i: int| 0 <= i < safe_name(s).len() ==> !is_forbidden(#[trigger] safe_name(s)[i]),
        !is_white_space(safe_name(s)[0]),
        !is_white_space(safe_name(s).last()),
        safe_name(s)[0] != '.',
        safe_name(s).last() != '.',
{
    reveal_strlit("book");
    let first = bare_start(replaced(s));
    lemma_bare_start(replaced(s));
    lemma_bare_end(first);
    let name = bare_name(s);
    assert forall|i: int| 0 <= i < name.len() implies !is_forbidden(#[trigger] name[i]) by {
        assert(name.contains(name[i]));
        assert(first.contains(name[i]));
        assert(replaced(s).contains(name[i]));
        let x = choose|x: int| 0 <= x < replaced(s).len() && replaced(s)[x] == name[i];
        assert(replaced(s)[x] == name[i]);
    }
}

/// A file name is an entry of its own in a directory: it is neither the directory
/// itself nor the one above, and leads into no other.
pub proof fn safe_names_are_entries(s: Seq<char>)
    ensures
        safe_name(s) != "."@,
        safe_name(s) != ".."@,
        !safe_name(s).contains('/'),
        !safe_name(s).contains('\\'),
{
    reveal_strlit(".");
    reveal_strlit("..");
    safe_names_are_safe(s);
    assert(forall|i: int| 0 <= i < safe_name(s).len() ==> !is_forbidden(safe_name(s)[i]));
}

/// A name that is fit for a file already stays as it is: one that is not empty,
/// holds no forbidden character, and has no white space and no dot at either end.
pub proof fn fit_names_stay(s: Seq<char>)
    requires
        s.len() > 0,
        forall|i: int| 0 <= i < s.len() ==> !is_forbidden(#[trigger] s[i]),
        !is_edge(s[0]),
        !is_edge(s.last()),
    ensures
        safe_name(s) == s,
{
    assert(replaced(s) =~= s);
}

/// A file name is not changed any more.
pub proof fn safe_names_stay(s: Seq<char>)
    ensures
        safe_name(safe_name(s)) == safe_name(s),
{
    safe_names_are_safe(s);
    fit_names_stay(safe_name(s));
}

/// The number of a book in its link: what stands between the first `=` and the
/// next one or the end. There is none without a `=`.
pub open spec fn id_in_link(link: Seq<char>) -> Option<Seq<char>> {
    if split(link, '=').len() > 1 {
        Some(split(link, '=')[1])
    } else {
        None
    }
}

/// The number of a book in its link.
pub fn book_id(link: &str) -> (r: Option<String>)
    ensures
        r is Some <==> id_in_link(link@) is Some,
        r matches Some(id) ==> id@ == id_in_link(link@)->0,
{
    let v = chars_of(link);
    let bounds = split_bounds(&v, '=');
    assert(enclosed(v@, bounds@).len() == bounds@.len());
    if bounds.len() > 1 {
        let (start, end) = bounds[1];
        assert(enclosed(v@, bounds@)[1] == v@.subrange(start as int, end as int));
        Some(text_of(&v, start, end))
    } else {
        None
    }
}

/// The title of a book: the one that was found, trimmed, or `book_` and the number
/// of the book where none was found or nothing is left of it.
pub open spec fn title(found: Option<Seq<char>>, id: Seq<char>) -> Seq<char> {
    match found {
        Some(text) => if trim(text).len() > 0 {
            trim(text)
        } else {
            "book_"@ + id
        },
        None => "book_"@ + id,
    }
}

/// What an optional string stands for.
pub open spec fn option_view(text: Option<String>) -> Option<Seq<char>> {
    match text {
        Some(text) => Some(text@),
        None => None,
    }
}

/// The title of a book.
pub fn book_title(found: &Option<String>, id: &str) -> (r: String)
    ensures
        r@ == title(option_view(*found), id@),
{
    match found {
        Some(text) => {
            let v = chars_of(text);
            let n: usize = v.len();
            assert(v@.subrange(0, n as int) =~= v@);
            let (a, b) = trim_bounds(&v, 0, n);
            if a < b {
                return text_of(&v, a, b);
            }
        },
        None => {},
    }
    append_text("book_", id)
}

/// The file name of page `n`.
pub open spec fn page_file(n: nat, extension: Seq<char>) -> Seq<char> {
    "page_"@ + padded(n, 4) + "."@ + extension
}

/// The file name of page `n`: its number has at least four digits.
pub fn page_file_name(n: u32, extension: &str) -> (r: String)
    ensures
        r@ == page_file(n as nat, extension@),
{
    let mut r: String = "page_".to_owned();
    push_padded(&mut r, n, 4);
    r.append(".");
    r.append(extension);
    r
}

/// The files of different pages have different names.
pub proof fn page_files_differ(a: nat, b: nat, extension: Seq<char>)
    requires
        a != b,
    ensures
        page_file(a, extension) != page_file(b, extension),
{
    decimals_differ(a, b, 4);
    let tail = "."@ + extension;
    let left = "page_"@;
    if page_file(a, extension) == page_file(b, extension) {
        let whole = page_file(a, extension);
        let k = left.len() as int;
        assert(padded(a, 4) =~= whole.subrange(k, whole.len() - tail.len()));
        assert(padded(b, 4) =~= whole.subrange(k, whole.len() - tail.len()));
    }
}

/// The selector of the picture of page `n` in the reader.
pub open spec fn selector(n: nat) -> Seq<char> {
    "#bookreadcont"@ + decimal(n) + " svg"@
}

/// The selector of the picture of page `n` in the reader.
pub fn page_selector(n: u32) -> (r: String)
    ensures
        r@ == selector(n as nat),
{
    let mut r: String = "#bookreadcont".to_owned();
    push_decimal(&mut r, n);
    r.append(" svg");
    r
}

/// What is typed to turn to page `n`.
pub fn page_number_text(n: u32) -> (r: String)
    ensures
        r@ == decimal(n as nat),
{
    let mut r: String = String::new();
    push_decimal(&mut r, n);
    assert(r@ =~= decimal(n as nat));
    r
}

/// The file name of a book, or of the pages `first` to `last` of it.
pub open spec fn book_file(title: Seq<char>, first: nat, last: nat, total: nat) -> Seq<char> {
    if first == 1 && last == total {
        title + ".pdf"@
    } else {
        title + " (стр. "@ + decimal(first) + "-"@ + decimal(last) + ").pdf"@
    }
}

/// The file name of a book with `total` pages; where only the pages `first` to
/// `last` were fetched, it says so.
pub fn book_file_name(title: &str, first: u32, last: u32, total: u32) -> (r: String)
    ensures
        r@ == book_file(title@, first as nat, last as nat, total as nat),
{
    let mut r: String = title.to_owned();
    if first == 1 && last == total {
        r.append(".pdf");
    } else {
        r.append(" (стр. ");
        push_decimal(&mut r, first);
        r.append("-");
        push_decimal(&mut r, last);
        r.append(").pdf");
    }
    r
}

/// A file name is the title, letter by letter, but for what no file name may have:
/// it is one piece of the title, all that stands before it and after it is white
/// space and dots, and only `\\ / : * ? " < > |` became underscores. It is `book`
/// exactly where nothing else is left.
pub proof fn safe_names_keep_the_title(s: Seq<char>)
    ensures
        exists|i: int, j: int|
            {
                &&& 0 <= i <= j <= s.len()
                &&& forall|k: int|
                    0 <= k < i || j <= k < s.len() ==> is_white_space(#[trigger] s[k]) || s[k] == '.'
                &&& i == j ==> safe_name(s) == "book"@
                &&& i < j ==> (#[trigger] s.subrange(i, j)).len() == safe_name(s).len()
                &&& i < j ==> forall|k: int|
                    0 <= k < j - i ==> #[trigger] safe_name(s)[k] == (if "\\/:*?\"<>|"@.contains(
                        s[i + k],
                    ) {
                        '_'
                    } else {
                        s[i + k]
                    })
            },
{
    let t = replaced(s);
    let i = lemma_bare_from_start(t);
    let n = lemma_bare_from_end(bare_start(t));
    let j = i + n;
    assert forall|c: char| "\\/:*?\"<>|"@.contains(c) == is_forbidden(c) by {
        lemma_forbidden(c);
    }
    assert forall|k: int| 0 <= k < i || j <= k < s.len() implies is_white_space(#[trigger] s[k])
        || s[k] == '.' by {
        if k >= j {
            assert(bare_start(t)[k - i] == t[k]);
        }
        assert(is_edge(t[k]));
    }
    assert(s.subrange(i, j).len() == j - i);
    assert(bare_name(s).len() == n);
    if i < j {
        assert forall|k: int| 0 <= k < j - i implies #[trigger] safe_name(s)[k] == (
        if "\\/:*?\"<>|"@.contains(s[i + k]) {
            '_'
        } else {
            s[i + k]
        }) by {
            assert(safe_name(s)[k] == t[i + k]);
        }
    }
}

/// The forbidden characters are those of this text.
proof fn lemma_forbidden(c: char)
    ensures
        "\\/:*?\"<>|"@.contains(c) == is_forbidden(c),
{
    reveal_strlit("\\/:*?\"<>|");
    let list = "\\/:*?\"<>|"@;
    assert(list[0] == '\\' && list[1] == '/' && list[2] == ':' && list[3] == '*' && list[4] == '?'
        && list[5] == '"' && list[6] == '<' && list[7] == '>' && list[8] == '|');
    assert(list.len() == 9);
}

proof fn lemma_bare_from_start(s: Seq<char>) -> (i: int)
    ensures
        0 <= i <= s.len(),
        bare_start(s) == s.skip(i),
        forall|k: int| 0 <= k < i ==> is_edge(#[trigger] s[k]),
    decreases s.len(),
{
    if s.len() > 0 && is_edge(s[0]) {
        let rest = s.drop_first();
        let i = lemma_bare_from_start(rest) + 1;
        assert(bare_start(s) =~= s.skip(i));
        assert forall|k: int| 0 <= k < i implies is_edge(#[trigger] s[k]) by {
            if k > 0 {
                assert(rest[k - 1] == s[k]);
            }
        }
        i
    } else {
        assert(s =~= s.skip(0));
        0
    }
}

proof fn lemma_bare_from_end(s: Seq<char>) -> (j: int)
    ensures
        0 <= j <= s.len(),
        bare_end(s) == s.take(j),
        forall|k: int| j <= k < s.len() ==> is_edge(#[trigger] s[k]),
    decreases s.len(),
{
    if s.len() > 0 && is_edge(s.last()) {
        let rest = s.drop_last();
        let j = lemma_bare_from_end(rest);
        assert(bare_end(s) =~= s.take(j));
        assert forall|k: int| j <= k < s.len() implies is_edge(#[trigger] s[k]) by {
            if k < rest.len() {
                assert(rest[k] == s[k]);
            }
        }
        j
    } else {
        assert(s =~= s.take(s.len() as int));
        s.len() as int
    }
}

/// The number of a book is found in its link wherever there is one: behind the first
/// `=`, up to the next one or the end. A link without a `=` has none.
pub proof fn ids_are_found_in_links(before: Seq<char>, id: Seq<char>, after: Seq<char>)
    requires
        !before.contains('='),
        !id.contains('='),
    ensures
        id_in_link(before) is None,
        id_in_link(before.push('=') + id) == Some(id),
        id_in_link(before.push('=') + (id.push('=') + after)) == Some(id),
{
    text_without_separator_is_one_piece(before, '=');
    text_without_separator_is_one_piece(id, '=');
    split_distributes(before, '=', id);
    split_distributes(id, '=', after);
    split_distributes(before, '=', id.push('=') + after);
}

/// The title that was found is used, without the white space around it; only where
/// there is nothing but white space, or nothing at all, is the book called `book_`
/// and its number.
pub proof fn titles_are_used_as_found(
    before: Seq<char>,
    text: Seq<char>,
    after: Seq<char>,
    id: Seq<char>,
)
    requires
        forall|i: int| 0 <= i < before.len() ==> is_white_space(#[trigger] before[i]),
        forall|i: int| 0 <= i < after.len() ==> is_white_space(#[trigger] after[i]),
        text.len() > 0 ==> !is_white_space(text[0]) && !is_white_space(text.last()),
    ensures
        text.len() > 0 ==> title(Some(before + text + after), id) == text,
        text.len() == 0 ==> title(Some(before + text + after), id) == "book_"@ + id,
        title(None, id) == "book_"@ + id,
{
    padding_is_trimmed_away(before, text, after);
}

/// An optional string stands for its text, if there is one.
pub proof fn optional_strings_stand_for_their_texts(text: String)
    ensures
        option_view(Some(text)) == Some(text@),
        option_view(None) == None::<Seq<char>>,
{
}

/// The file of a page is called `page_`, the number of the page with at least four
/// digits, a dot and the extension. The number can be read from it, and has no more
/// zeros before it than it needs.
pub proof fn page_files_tell_the_page(n: nat, extension: Seq<char>)
    ensures
        exists|digits: Seq<char>|
            {
                &&& page_file(n, extension) == "page_"@ + digits + "."@ + extension
                &&& #[trigger] digits_value(digits) == n
                &&& digits.len() >= 4
                &&& digits.len() > 4 ==> digits[0] != '0'
                &&& forall|i: int| 0 <= i < digits.len() ==> '0' <= #[trigger] digits[i] <= '9'
            },
{
    let digits = padded(n, 4);
    decimal_is_read_back(n, 4);
    padding_puts_zeros_before(n, 4);
    decimal_has_digits_only(n);
    let zeros = digits.len() - decimal(n).len();
    assert(digits_value(digits) == n);
    assert forall|i: int| 0 <= i < digits.len() implies '0' <= #[trigger] digits[i] <= '9' by {
        if i >= zeros {
            assert(digits[i] == decimal(n)[i - zeros]);
        }
    }
    if digits.len() > 4 {
        assert(digits[0] == decimal(n)[0]);
        if n == 0 {
            assert(decimal(0).len() == 1);
        }
    }
}

/// The picture of a page stands in the container with the number of the page.
pub proof fn selectors_tell_the_page(n: nat)
    ensures
        selector(n) == "#bookreadcont"@ + decimal(n) + " svg"@,
{
}

/// The file of a book bears the bare title only where all pages are in it, the first
/// to the last; any part of the book says in its name from which page to which.
pub proof fn parts_are_told_from_the_book(
    title: Seq<char>,
    first: nat,
    last: nat,
    total: nat,
)
    ensures
        first == 1 && last == total ==> book_file(title, first, last, total) == title + ".pdf"@,
        first != 1 || last != total ==> book_file(title, first, last, total) == title
            + " (стр. "@ + decimal(first) + "-"@ + decimal(last) + ").pdf"@,
        (first != 1 || last != total) ==> book_file(title, first, last, total) != title + ".pdf"@,
{
    reveal_strlit(".pdf");
    reveal_strlit(" (стр. ");
    reveal_strlit("-");
    reveal_strlit(").pdf");
    if first != 1 || last != total {
        let part = book_file(title, first, last, total);
        let whole = title + ".pdf"@;
        assert(part[title.len() as int] == ' ');
        assert(whole[title.len() as int] == '.');
    }
}

/// Different parts of a book have different file names.
pub proof fn book_files_differ(
    title: Seq<char>,
    total: nat,
    first: nat,
    last: nat,
    other_first: nat,
    other_last: nat,
)
    requires
        first != other_first || last != other_last,
    ensures
        book_file(title, first, last, total) != book_file(title, other_first, other_last, total),
{
    parts_are_told_from_the_book(title, first, last, total);
    parts_are_told_from_the_book(title, other_first, other_last, total);
    let a = book_file(title, first, last, total);
    let b = book_file(title, other_first, other_last, total);
    if a == b && (first != 1 || last != total) && (other_first != 1 || other_last != total) {
        let head = title + " (стр. "@;
        let tail = ").pdf"@;
        let left = decimal(first) + "-"@ + decimal(last);
        let right = decimal(other_first) + "-"@ + decimal(other_last);
        let k = head.len() as int;
        assert(a =~= head + left + tail);
        assert(b =~= head + right + tail);
        assert(left =~= a.subrange(k, a.len() - tail.len()));
        assert(right =~= b.subrange(k, b.len() - tail.len()));
        lemma_spans_differ(first, last, other_first, other_last);
    }
}

proof fn lemma_spans_differ(first: nat, last: nat, other_first: nat, other_last: nat)
    requires
        decimal(first) + "-"@ + decimal(last) == decimal(other_first) + "-"@ + decimal(other_last),
    ensures
        first == other_first,
        last == other_last,
{
    reveal_strlit("-");
    let a = decimal(first);
    let b = decimal(other_first);
    let left = a + "-"@ + decimal(last);
    let right = b + "-"@ + decimal(other_last);
    decimal_has_digits_only(first);
    decimal_has_digits_only(other_first);
    assert(left[a.len() as int] == '-');
    assert(right[b.len() as int] == '-');
    if a.len() < b.len() {
        assert(right[a.len() as int] == b[a.len() as int]);
    } else if b.len() < a.len() {
        assert(left[b.len() as int] == a[b.len() as int]);
    }
    assert(a =~= left.take(a.len() as int));
    assert(b =~= right.take(a.len() as int));
    assert(decimal(last) =~= left.skip((a.len() + 1) as int));
    assert(decimal(other_last) =~= right.skip((a.len() + 1) as int));
    if first != other_first {
        decimals_differ(first, other_first, 0);
    }
    if last != other_last {
        decimals_differ(last, other_last, 0);
    }
}

} // verus!
