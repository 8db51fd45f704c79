//! The list of the books to fetch.
use crate::text::{
    chars_of, enclosed, is_white_space, padding_is_trimmed_away, pieces_are_free_of_separator, split, split_bounds,
    split_distributes, text_of, text_without_separator_is_one_piece, trim, trim_bounds, trimmed_text,
    within,
};
use vstd::prelude::*;

verus! {

/// The lines, trimmed, without those of which nothing is left.
pub open spec fn kept(lines: Seq<Seq<char>>) -> Seq<Seq<char>>
    decreases lines.len(),
{
    if lines.len() == 0 {
        seq![]
    } else {
        let before = kept(lines.drop_last());
        let line = trim(lines.last());
        if line.len() == 0 {
            before
        } else {
            before.push(line)
        }
    }
}

/// The links in a text: one to a line, without the white space around it. Blank
/// lines hold none.
pub open spec fn links(content: Seq<char>) -> Seq<Seq<char>> {
    kept(split(content, '\n'))
}

/// What strings stand for.
pub open spec fn string_views(strings: Seq<String>) -> Seq<Seq<char>> {
    Seq::new(strings.len(), |i: int| strings[i]@)
}

/// The links in a text.
pub fn read_links(content: &str) -> (r: Vec<String>)
    ensures
        string_views(r@) == links(content@),
        r@.len() == links(content@).len(),
        forall|i: int| 0 <= i < r@.len() ==> (#[trigger] r@[i])@ == links(content@)[i],
{
    let v = chars_of(content);
    let bounds = split_bounds(&v, '\n');
    let mut r: Vec<String> = Vec::new();
    let mut i: usize = 0;
    let ghost lines = enclosed(v@, bounds@);
    assert(string_views(r@) =~= kept(lines.take(0)));
    while i < bounds.len()
        invariant
            i <= bounds@.len(),
            within(bounds@, v@.len()),
            lines == enclosed(v@, bounds@),
            string_views(r@) == kept(lines.take(i as int)),
        decreases bounds@.len() - i,
    {
        let (start, end) = bounds[i];
        let (a, b) = trim_bounds(&v, start, end);
        let ghost before = r@;
        proof {
            assert(lines.take(i + 1).drop_last() =~= lines.take(i as int));
            assert(lines.take(i + 1).last() == v@.subrange(start as int, end as int));
        }
        if a < b {
            let line = text_of(&v, a, b);
            r.push(line);
            assert(string_views(r@) =~= string_views(before).push(line@));
        }
        i += 1;
    }
    assert(lines.take(i as int) =~= lines);
    assert forall|j: int| 0 <= j < r@.len() implies (#[trigger] r@[j])@ == links(
        content@,
    )[j] by {
        assert(string_views(r@)[j] == r@[j]@);
    }
    r
}

/// Every link has at least one character, has no line break in it, and has no
/// white space at either end.
pub proof fn links_are_trimmed(content: Seq<char>, i: int)
    requires
        0 <= i < links(content).len(),
    ensures
        links(content)[i].len() > 0,
        !links(content)[i].contains('\n'),
        !is_white_space(links(content)[i][0]),
        !is_white_space(links(content)[i].last()),
{
    pieces_are_free_of_separator(content, '\n');
    lemma_kept(split(content, '\n'), i);
}

proof fn lemma_kept(lines: Seq<Seq<char>>, i: int)
    requires
        0 <= i < kept(lines).len(),
        forall|j: int| 0 <= j < lines.len() ==> !(#[trigger] lines[j]).contains('\n'),
    ensures
        kept(lines)[i].len() > 0,
        !kept(lines)[i].contains('\n'),
        !is_white_space(kept(lines)[i][0]),
        !is_white_space(kept(lines)[i].last()),
    decreases lines.len(),
{
    let before = kept(lines.drop_last());
    if i < before.len() {
        assert forall|j: int| 0 <= j < lines.drop_last().len() implies !(
        #[trigger] lines.drop_last()[j]).contains('\n') by {
            assert(lines.drop_last()[j] == lines[j]);
        }
        lemma_kept(lines.drop_last(), i);
        assert(kept(lines)[i] == before[i]);
    } else {
        trimmed_text(lines.last());
        assert(!lines[lines.len() - 1].contains('\n'));
    }
}

proof fn lemma_kept_concat(a: Seq<Seq<char>>, b: Seq<Seq<char>>)
    ensures
        kept(a + b) == kept(a) + kept(b),
    decreases b.len(),
{
    if b.len() == 0 {
        assert(a + b =~= a);
        assert(kept(a) + kept(b) =~= kept(a));
    } else {
        lemma_kept_concat(a, b.drop_last());
        assert((a + b).drop_last() =~= a + b.drop_last());
        assert((a + b).last() == b.last());
        assert(kept(a + b) =~= kept(a) + kept(b));
    }
}

/// The links in two texts, one below the other, are those of the first and then
/// those of the second.
pub proof fn links_follow_lines(above: Seq<char>, below: Seq<char>)
    ensures
        links(above.push('\n') + below) == links(above) + links(below),
{
    split_distributes(above, '\n', below);
    lemma_kept_concat(split(above, '\n'), split(below, '\n'));
}

/// A line of its own is a link when it is not blank, the white space around it
/// left out, and nothing when it is.
pub proof fn line_is_one_link(line: Seq<char>)
    requires
        !line.contains('\n'),
    ensures
        links(line) == (if trim(line).len() == 0 {
            Seq::<Seq<char>>::empty()
        } else {
            seq![trim(line)]
        }),
{
    lemma_no_split(line);
    let lines = seq![line];
    assert(lines.drop_last() =~= seq![]);
    assert(kept(lines.drop_last()) =~= seq![]);
    assert(links(line) == kept(lines));
    if trim(line).len() > 0 {
        assert(kept(lines) =~= seq![trim(line)]);
    }
}

/// A link on a line of its own comes out letter by letter as it stands there,
/// however long it is and however much white space is around it.
pub proof fn links_come_out_unchanged(before: Seq<char>, link: Seq<char>, after: Seq<char>)
    requires
        link.len() > 0,
        !is_white_space(link[0]),
        !is_white_space(link.last()),
        forall|i: int| 0 <= i < before.len() ==> is_white_space(#[trigger] before[i]),
        forall|i: int| 0 <= i < after.len() ==> is_white_space(#[trigger] after[i]),
        !(before + link + after).contains('\n'),
    ensures
        links(before + link + after) == seq![link],
{
    padding_is_trimmed_away(before, link, after);
    line_is_one_link(before + link + after);
}

proof fn lemma_no_split(line: Seq<char>)
    requires
        !line.contains('\n'),
    ensures
        split(line, '\n') == seq![line],
{
    text_without_separator_is_one_piece(line, '\n');
}

} // verus!
