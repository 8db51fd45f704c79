//! Plain text: white space, trimming and splitting.
//!
//! Texts are modelled as sequences of characters.
use vstd::prelude::*;

verus! {

/// `String::push` of std: the text afterwards is the text before, with the
/// character added at its end.
pub assume_specification[ String::push ](s: &mut String, c: char)
    ensures
        final(s)@ == old(s)@.push(c),
;

/// The characters with the Unicode property `White_Space`.
pub open spec fn is_white_space(c: char) -> bool {
    ||| '\u{9}' <= c <= '\u{d}'
    ||| c == '\u{20}'
    ||| c == '\u{85}'
    ||| c == '\u{a0}'
    ||| c == '\u{1680}'
    ||| '\u{2000}' <= c <= '\u{200a}'
    ||| c == '\u{2028}'
    ||| c == '\u{2029}'
    ||| c == '\u{202f}'
    ||| c == '\u{205f}'
    ||| c == '\u{3000}'
}

/// Whether `c` is white space.
pub fn white_space(c: char) -> (r: bool)
    ensures
        r == is_white_space(c),
{
    ('\u{9}' <= c && c <= '\u{d}') || c == '\u{20}' || c == '\u{85}' || c == '\u{a0}'
        || c == '\u{1680}' || ('\u{2000}' <= c && c <= '\u{200a}') || c == '\u{2028}'
        || c == '\u{2029}' || c == '\u{202f}' || c == '\u{205f}' || c == '\u{3000}'
}

/// `s` without the white space at its start.
pub open spec fn trim_start(s: Seq<char>) -> Seq<char>
    decreases s.len(),
{
    if s.len() > 0 && is_white_space(s[0]) {
        trim_start(s.drop_first())
    } else {
        s
    }
}

/// `s` without the white space at its end.
pub open spec fn trim_end(s: Seq<char>) -> Seq<char>
    decreases s.len(),
{
    if s.len() > 0 && is_white_space(s.last()) {
        trim_end(s.drop_last())
    } else {
        s
    }
}

/// `s` without the white space at either end.
pub open spec fn trim(s: Seq<char>) -> Seq<char> {
    trim_end(trim_start(s))
}

/// The characters of a text.
pub fn chars_of(s: &str) -> (r: Vec<char>)
    ensures
        r@ == s@,
{
    let mut r: Vec<char> = Vec::new();
    for c in it: s.chars()
        invariant
            r@ == s@.take(it.index() as int),
            it.seq() == s@,
    {
        r.push(c);
    }
    r
}

/// The text made of the characters `v[start..end]`.
pub fn text_of(v: &Vec<char>, start: usize, end: usize) -> (r: String)
    requires
        start <= end <= v.len(),
    ensures
        r@ == v@.subrange(start as int, end as int),
{
    let mut r: String = String::new();
    let mut i: usize = start;
    while i < end
        invariant
            start <= i <= end <= v.len(),
            r@ == v@.subrange(start as int, i as int),
        decreases end - i,
    {
        r.push(v[i]);
        i += 1;
    }
    r
}

/// The text of `first` followed by that of `second`.
pub fn append_text(first: &str, second: &str) -> (r: String)
    ensures
        r@ == first@ + second@,
{
    let mut r: String = first.to_owned();
    r.append(second);
    r
}

/// The part of `v[start..end]` that is left when the white space at either end
/// is taken away.
pub fn trim_bounds(v: &Vec<char>, start: usize, end: usize) -> (r: (usize, usize))
    requires
        start <= end <= v.len(),
    ensures
        start <= r.0 <= r.1 <= end,
        v@.subrange(r.0 as int, r.1 as int) == trim(v@.subrange(start as int, end as int)),
{
    let mut a: usize = start;
    let ghost whole = v@.subrange(start as int, end as int);
    while a < end && white_space(v[a])
        invariant
            start <= a <= end <= v.len(),
            trim_start(v@.subrange(a as int, end as int)) == trim_start(whole),
        decreases end - a,
    {
        assert(v@.subrange(a as int, end as int).drop_first() =~= v@.subrange(a + 1, end as int));
        a += 1;
    }
    let mut b: usize = end;
    let ghost rest = v@.subrange(a as int, end as int);
    assert(trim_start(whole) == rest);
    while b > a && white_space(v[b - 1])
        invariant
            start <= a <= b <= end <= v.len(),
            trim_end(v@.subrange(a as int, b as int)) == trim_end(rest),
        decreases b - a,
    {
        assert(v@.subrange(a as int, b as int).drop_last() =~= v@.subrange(a as int, b - 1));
        b -= 1;
    }
    (a, b)
}

/// The pieces of `s` between the copies of `sep`, in order. There is always at
/// least one.
pub open spec fn split(s: Seq<char>, sep: char) -> Seq<Seq<char>>
    decreases s.len(),
{
    if s.len() == 0 {
        seq![seq![]]
    } else {
        let pieces = split(s.drop_last(), sep);
        if s.last() == sep {
            pieces.push(seq![])
        } else {
            pieces.drop_last().push(pieces.last().push(s.last()))
        }
    }
}

/// The parts of `v` that the bounds enclose.
pub open spec fn enclosed(v: Seq<char>, bounds: Seq<(usize, usize)>) -> Seq<Seq<char>> {
    Seq::new(bounds.len(), |i: int| v.subrange(bounds[i].0 as int, bounds[i].1 as int))
}

/// Whether all bounds lie within a text of the length `len`.
pub open spec fn within(bounds: Seq<(usize, usize)>, len: nat) -> bool {
    forall|i: int|
        0 <= i < bounds.len() ==> (#[trigger] bounds[i]).0 <= bounds[i].1 && bounds[i].1 <= len
}

/// The bounds of the pieces of `v` between the copies of `sep`.
pub fn split_bounds(v: &Vec<char>, sep: char) -> (r: Vec<(usize, usize)>)
    ensures
        within(r@, v@.len()),
        enclosed(v@, r@) == split(v@, sep),
{
    let mut r: Vec<(usize, usize)> = Vec::new();
    let mut start: usize = 0;
    let mut i: usize = 0;
    assert(v@.subrange(0, 0) =~= seq![]);
    assert(split(v@.take(0), sep) =~= seq![v@.subrange(0, 0)]);
    assert(enclosed(v@, r@) =~= seq![]);
    assert(enclosed(v@, r@).push(v@.subrange(0, 0)) =~= seq![v@.subrange(0, 0)]);
    while i < v.len()
        invariant
            start <= i <= v@.len(),
            within(r@, v@.len()),
            enclosed(v@, r@).push(v@.subrange(start as int, i as int)) == split(
                v@.take(i as int),
                sep,
            ),
        decreases v@.len() - i,
    {
        let ghost before = r@;
        let ghost piece = v@.subrange(start as int, i as int);
        proof {
            assert(v@.take(i + 1).drop_last() =~= v@.take(i as int));
            assert(v@.take(i + 1).last() == v@[i as int]);
        }
        if v[i] == sep {
            r.push((start, i));
            start = i + 1;
            assert(enclosed(v@, r@) =~= enclosed(v@, before).push(piece));
            assert(v@.subrange(start as int, i + 1) =~= seq![]);
        } else {
            assert(v@.subrange(start as int, i + 1) =~= piece.push(v@[i as int]));
            assert(enclosed(v@, before).push(piece).drop_last() =~= enclosed(v@, before));
        }
        i += 1;
    }
    let ghost before = r@;
    r.push((start, i));
    assert(v@.take(i as int) =~= v@);
    assert(enclosed(v@, r@) =~= enclosed(v@, before).push(v@.subrange(start as int, i as int)));
    r
}

/// The pieces of two texts with a separator between them are those of the first
/// and then those of the second.
pub proof fn split_distributes(a: Seq<char>, sep: char, b: Seq<char>)
    ensures
        split(a.push(sep) + b, sep) == split(a, sep) + split(b, sep),
        split(b, sep).len() >= 1,
    decreases b.len(),
{
    let whole = a.push(sep) + b;
    if b.len() == 0 {
        assert(whole =~= a.push(sep));
        assert(a.push(sep).drop_last() =~= a);
        assert(split(whole, sep) =~= split(a, sep) + split(b, sep));
    } else {
        split_distributes(a, sep, b.drop_last());
        assert(whole.drop_last() =~= a.push(sep) + b.drop_last());
        assert(whole.last() == b.last());
        let left = split(a, sep);
        let right = split(b.drop_last(), sep);
        assert((left + right).last() == right.last());
        assert((left + right).drop_last() =~= left + right.drop_last());
        assert(split(whole, sep) =~= left + split(b, sep));
    }
}

/// No piece contains the separator.
pub proof fn pieces_are_free_of_separator(s: Seq<char>, sep: char)
    ensures
        split(s, sep).len() >= 1,
        forall|i: int|
            0 <= i < split(s, sep).len() ==> !(#[trigger] split(s, sep)[i]).contains(sep),
    decreases s.len(),
{
    if s.len() > 0 {
        pieces_are_free_of_separator(s.drop_last(), sep);
        let before = split(s.drop_last(), sep);
        let after = split(s, sep);
        assert forall|i: int| 0 <= i < after.len() implies !(#[trigger] after[i]).contains(sep) by {
            if i < after.len() - 1 {
                assert(after[i] == before[i]);
            } else if s.last() != sep {
                let piece = before.last();
                assert(!before[before.len() - 1].contains(sep));
                if after[i].contains(sep) {
                    let x = choose|x: int| 0 <= x < after[i].len() && after[i][x] == sep;
                    assert(piece[x] == sep);
                }
            }
        }
    }
}

/// What is left of a trimmed text is a part of it that neither starts nor ends
/// with white space; trimming it again changes nothing.
pub proof fn trimmed_text(s: Seq<char>)
    ensures
        trim(s).len() <= s.len(),
        trim(s).len() > 0 ==> !is_white_space(trim(s)[0]) && !is_white_space(trim(s).last()),
        trim(trim(s)) == trim(s),
        forall|c: char| #[trigger] trim(s).contains(c) ==> s.contains(c),
{
    lemma_trim_start(s);
    lemma_trim_end(trim_start(s));
}

proof fn lemma_trim_start(s: Seq<char>)
    ensures
        trim_start(s).len() <= s.len(),
        trim_start(s) == s.skip(s.len() - trim_start(s).len()),
        trim_start(s).len() > 0 ==> !is_white_space(trim_start(s)[0]),
        forall|c: char| #[trigger] trim_start(s).contains(c) ==> s.contains(c),
    decreases s.len(),
{
    if s.len() > 0 && is_white_space(s[0]) {
        let rest = s.drop_first();
        lemma_trim_start(rest);
        assert(trim_start(s) =~= s.skip(s.len() - trim_start(s).len()));
        assert forall|c: char| #[trigger] trim_start(s).contains(c) implies s.contains(c) by {
            let x = choose|x: int| 0 <= x < rest.len() && rest[x] == c;
            assert(s[x + 1] == c);
        }
    } else {
        assert(s =~= s.skip(0));
    }
}

proof fn lemma_trim_end(s: Seq<char>)
    ensures
        trim_end(s).len() <= s.len(),
        trim_end(s) == s.take(trim_end(s).len() as int),
        trim_end(s).len() > 0 ==> !is_white_space(trim_end(s).last()),
        forall|c: char| #[trigger] trim_end(s).contains(c) ==> s.contains(c),
    decreases s.len(),
{
    if s.len() > 0 && is_white_space(s.last()) {
        let rest = s.drop_last();
        lemma_trim_end(rest);
        assert(trim_end(s) =~= s.take(trim_end(s).len() as int));
        assert forall|c: char| #[trigger] trim_end(s).contains(c) implies s.contains(c) by {
            let x = choose|x: int| 0 <= x < rest.len() && rest[x] == c;
            assert(s[x] == c);
        }
    } else {
        assert(s =~= s.take(s.len() as int));
    }
}

/// Trimming takes white space away, and nothing else: what is left stands in the
/// text in one piece, all that stands before it and after it is white space, and it
/// starts and ends with something that is not.
pub proof fn trimming_takes_white_space_only(s: Seq<char>)
    ensures
        exists|i: int, j: int|
            {
                &&& 0 <= i <= j <= s.len()
                &&& trim(s) == #[trigger] s.subrange(i, j)
                &&& forall|k: int|
                    0 <= k < i || j <= k < s.len() ==> is_white_space(#[trigger] s[k])
                &&& i < j ==> !is_white_space(s[i]) && !is_white_space(s[j - 1])
            },
{
    let i = lemma_taken_from_start(s);
    let rest = trim_start(s);
    let n = lemma_taken_from_end(rest);
    let j = i + n;
    lemma_trim_start(s);
    lemma_trim_end(rest);
    assert(trim(s) =~= s.subrange(i, j));
    assert forall|k: int| 0 <= k < i || j <= k < s.len() implies is_white_space(
        #[trigger] s[k],
    ) by {
        if k >= j {
            assert(rest[k - i] == s[k]);
        }
    }
    if i < j {
        assert(s[i] == rest[0]);
        assert(s[j - 1] == trim(s).last());
    }
}

/// How much trimming takes from the start of a text.
proof fn lemma_taken_from_start(s: Seq<char>) -> (i: int)
    ensures
        0 <= i <= s.len(),
        trim_start(s) == s.skip(i),
        forall|k: int| 0 <= k < i ==> is_white_space(#[trigger] s[k]),
    decreases s.len(),
{
    if s.len() > 0 && is_white_space(s[0]) {
        let rest = s.drop_first();
        let i = lemma_taken_from_start(rest) + 1;
        assert(trim_start(s) =~= s.skip(i));
        assert forall|k: int| 0 <= k < i implies is_white_space(#[trigger] s[k]) by {
            if k > 0 {
                assert(rest[k - 1] == s[k]);
            }
        }
        i
    } else {
        assert(s =~= s.skip(0));
        0
    }
}

/// How much of a text is left when its end is trimmed.
proof fn lemma_taken_from_end(s: Seq<char>) -> (j: int)
    ensures
        0 <= j <= s.len(),
        trim_end(s) == s.take(j),
        forall|k: int| j <= k < s.len() ==> is_white_space(#[trigger] s[k]),
    decreases s.len(),
{
    if s.len() > 0 && is_white_space(s.last()) {
        let rest = s.drop_last();
        let j = lemma_taken_from_end(rest);
        assert(trim_end(s) =~= s.take(j));
        assert forall|k: int| j <= k < s.len() implies is_white_space(#[trigger] s[k]) by {
            if k < rest.len() {
                assert(rest[k] == s[k]);
            }
        }
        j
    } else {
        assert(s =~= s.take(s.len() as int));
        s.len() as int
    }
}

/// White space around a text is trimmed away, however much of it there is, and the
/// text that neither starts nor ends with white space is left as it is.
pub proof fn padding_is_trimmed_away(before: Seq<char>, text: Seq<char>, after: Seq<char>)
    requires
        forall|i: int| 0 <= i < before.len() ==> is_white_space(#[trigger] before[i]),
        forall|i: int| 0 <= i < after.len() ==> is_white_space(#[trigger] after[i]),
        text.len() > 0 ==> !is_white_space(text[0]) && !is_white_space(text.last()),
    ensures
        trim(before + text + after) == text,
{
    let s = before + text + after;
    trimming_takes_white_space_only(s);
    let (i, j) = choose|i: int, j: int|
        {
            &&& 0 <= i <= j <= s.len()
            &&& trim(s) == #[trigger] s.subrange(i, j)
            &&& forall|k: int| 0 <= k < i || j <= k < s.len() ==> is_white_space(#[trigger] s[k])
            &&& i < j ==> !is_white_space(s[i]) && !is_white_space(s[j - 1])
        };
    let a = before.len() as int;
    let b = a + text.len();
    assert forall|k: int| 0 <= k < a implies is_white_space(#[trigger] s[k]) by {
        assert(s[k] == before[k]);
    }
    assert forall|k: int| b <= k < s.len() implies is_white_space(#[trigger] s[k]) by {
        assert(s[k] == after[k - b]);
    }
    if text.len() > 0 {
        assert(s[a] == text[0]);
        assert(s[b - 1] == text.last());
        assert(!is_white_space(s[a]));
        assert(!is_white_space(s[b - 1]));
        assert(i <= a && b <= j);
        assert(is_white_space(s[i]) || i == a);
        assert(is_white_space(s[j - 1]) || j == b);
        assert(s.subrange(a, b) =~= text);
    } else {
        assert(trim(s) =~= text) by {
            if i < j {
                assert(is_white_space(s[i]));
            }
        }
    }
}

/// The pieces with `sep` between them.
pub open spec fn joined(pieces: Seq<Seq<char>>, sep: char) -> Seq<char>
    decreases pieces.len(),
{
    if pieces.len() == 0 {
        seq![]
    } else if pieces.len() == 1 {
        pieces[0]
    } else {
        joined(pieces.drop_last(), sep).push(sep) + pieces.last()
    }
}

/// The pieces of a text with the separator between them make up the text again.
pub proof fn pieces_make_up_the_text(s: Seq<char>, sep: char)
    ensures
        joined(split(s, sep), sep) == s,
    decreases s.len(),
{
    pieces_are_free_of_separator(s, sep);
    if s.len() == 0 {
        assert(s =~= seq![]);
    } else {
        let shorter = s.drop_last();
        let pieces = split(shorter, sep);
        let all = split(s, sep);
        pieces_are_free_of_separator(shorter, sep);
        pieces_make_up_the_text(shorter, sep);
        assert(s =~= shorter.push(s.last()));
        if s.last() == sep {
            assert(all.drop_last() =~= pieces);
            assert(joined(all, sep) =~= s);
        } else {
            assert(all.drop_last() =~= pieces.drop_last());
            assert(joined(all, sep) =~= s);
        }
    }
}

/// A text without the separator is one piece.
pub proof fn text_without_separator_is_one_piece(s: Seq<char>, sep: char)
    requires
        !s.contains(sep),
    ensures
        split(s, sep) == seq![s],
    decreases s.len(),
{
    if s.len() > 0 {
        let rest = s.drop_last();
        assert forall|x: int| 0 <= x < rest.len() implies rest[x] != sep by {
            assert(rest[x] == s[x]);
        }
        text_without_separator_is_one_piece(rest, sep);
        assert(s[s.len() - 1] != sep);
        assert(rest.push(s.last()) =~= s);
        assert(split(s, sep) =~= seq![s]);
    } else {
        assert(s =~= seq![]);
    }
}

} // verus!
