//! Documents of several pages.
//!
//! Object 1 of a document is its catalog and object 2 its page tree. Two numbers
//! follow for each page, one for the page and one for its contents, and after
//! them, page by page, the numbers of the objects that the pages draw with.
use crate::numbering::{
    assign_all, fresh_numbering, numbering_is_injective, numbers_suffice, Numbering, NumberingView,
};
use crate::render::{has_number, self_contained, PageView, RenderedPage};
use crate::writer::{
    all_numbers, chunk_objects, embed, finish, new_pdf, numbers_met, own_numbers, pdf_bytes,
    pdf_objects, renumber, renumbered, renumbered_text, write_catalog, write_page, write_page_tree,
    write_placement, ChunkObject, PdfObject,
};
use vstd::prelude::*;

verus! {

/// The number of the catalog.
pub const CATALOG_ID: i32 = 1;

/// The number of the page tree.
pub const PAGE_TREE_ID: i32 = 2;

/// The greatest number of pages for which there are numbers.
pub const MAX_PAGES: usize = 1073741822;

/// The name under which a page finds its picture, `S1`.
pub open spec fn picture_name() -> Seq<u8> {
    seq![0x53u8, 0x31u8]
}

/// The number of page `i`, counted from zero.
pub open spec fn page_id(i: int) -> i32 {
    (3 + 2 * i) as i32
}

/// The number of the contents of page `i`, counted from zero.
pub open spec fn contents_id(i: int) -> i32 {
    (4 + 2 * i) as i32
}

/// How the objects of a page are numbered from `next` on.
pub open spec fn page_numbering(next: i32, page: PageView) -> NumberingView {
    assign_all(fresh_numbering(next), numbers_met(page.objects))
}

/// What stands at the start of a document of `n` pages.
pub open spec fn front(n: nat) -> Seq<PdfObject> {
    seq![
        PdfObject::Catalog { id: CATALOG_ID, page_tree: PAGE_TREE_ID },
        PdfObject::PageTree {
            id: PAGE_TREE_ID,
            kids: Seq::new(n, |i: int| page_id(i)),
            count: n as i32,
        },
    ]
}

/// What is written for page `i`, when `map` gives the new numbers of its objects.
pub open spec fn with_page(
    steps: Seq<PdfObject>,
    i: int,
    page: PageView,
    map: Map<i32, i32>,
) -> Seq<PdfObject> {
    steps.push(
        PdfObject::Page {
            id: page_id(i),
            parent: PAGE_TREE_ID,
            contents: contents_id(i),
            size: page.size,
            name: picture_name(),
            picture: map[page.root],
        },
    ).push(
        PdfObject::Placement { id: contents_id(i), size: page.size, name: picture_name() },
    ).push(PdfObject::Embedded { objects: renumbered(page.objects, map) })
}

/// The document with its first `k` pages in place, and the next free number; or
/// `None` where the numbers run out.
pub open spec fn layout(pages: Seq<PageView>, k: nat) -> Option<(i32, Seq<PdfObject>)>
    decreases k,
{
    if k == 0 {
        if pages.len() <= MAX_PAGES {
            Some((page_id(pages.len() as int), front(pages.len())))
        } else {
            None
        }
    } else {
        match layout(pages, (k - 1) as nat) {
            Some((next, steps)) => {
                let page = pages[k - 1];
                let numbering = page_numbering(next, page);
                if numbering.exhausted {
                    None
                } else {
                    Some((numbering.next, with_page(steps, k - 1, page, numbering.map)))
                }
            },
            None => None,
        }
    }
}

/// The document of the given pages, or `None` where there are not enough numbers
/// for its objects.
pub open spec fn document(pages: Seq<PageView>) -> Option<Seq<PdfObject>> {
    match layout(pages, pages.len()) {
        Some((next, steps)) => Some(steps),
        None => None,
    }
}

/// The file of the document of the given pages, where there is one.
#[verifier::opaque]
pub open spec fn document_file(pages: Seq<PageView>) -> Option<Seq<u8>> {
    match document(pages) {
        Some(steps) => Some(pdf_bytes(steps)),
        None => None,
    }
}

/// What pages stand for.
pub open spec fn page_views(pages: Seq<RenderedPage>) -> Seq<PageView> {
    Seq::new(pages.len(), |i: int| pages[i]@)
}

/// Whether every page is whole by itself.
pub open spec fn all_self_contained(pages: Seq<PageView>) -> bool {
    forall|i: int|
        0 <= i < pages.len() ==> self_contained(
            (#[trigger] pages[i]).objects,
            pages[i].root,
        )
}

/// The numbers of an object and its references are among the numbers met.
proof fn lemma_numbers_met(objects: Seq<ChunkObject>, i: int)
    requires
        0 <= i < objects.len(),
    ensures
        numbers_met(objects).contains(objects[i].0),
        objects[i].2 matches Some(references) ==> forall|k: int|
            0 <= k < references.len() ==> numbers_met(objects).contains(#[trigger] references[k]),
    decreases objects.len(),
{
    let shorter = objects.drop_last();
    let before = numbers_met(shorter).push(objects.last().0);
    let all = numbers_met(objects);
    assert(forall|x: int| 0 <= x < before.len() ==> all[x] == before[x]);
    if i < shorter.len() {
        lemma_numbers_met(shorter, i);
        assert(shorter[i] == objects[i]);
        assert forall|v: i32| numbers_met(shorter).contains(v) implies all.contains(v) by {
            let x = choose|x: int| 0 <= x < numbers_met(shorter).len() && numbers_met(shorter)[x] == v;
            assert(all[x] == v);
        }
    } else {
        assert(all[before.len() - 1] == objects[i].0);
        if let Some(references) = objects[i].2 {
            assert forall|k: int| 0 <= k < references.len() implies all.contains(
                #[trigger] references[k],
            ) by {
                assert(all[before.len() + k] == references[k]);
            }
        }
    }
}

/// All numbers of a page get their replacements, unless the numbers run out.
proof fn lemma_page_numbering(next: i32, page: PageView)
    requires
        self_contained(page.objects, page.root),
        !page_numbering(next, page).exhausted,
    ensures
        ({
            let map = page_numbering(next, page).map;
            &&& map.contains_key(page.root)
            &&& forall|i: int|
                0 <= i < page.objects.len() ==> map.contains_key((#[trigger] page.objects[i]).0)
        }),
{
    let n = page_numbering(next, page);
    let met = numbers_met(page.objects);
    numbering_is_injective(next, met);
    assert forall|i: int| 0 <= i < page.objects.len() implies n.map.contains_key(
        (#[trigger] page.objects[i]).0,
    ) by {
        lemma_numbers_met(page.objects, i);
        let x = choose|x: int| 0 <= x < met.len() && met[x] == page.objects[i].0;
        assert(n.map.contains_key(met[x]));
    }
}

/// With its first `k` pages in place a document uses no number twice, and only
/// numbers of the front, of these pages, and from the first number after the
/// pages up to the next free one.
proof fn lemma_layout(pages: Seq<PageView>, k: nat)
    requires
        k <= pages.len(),
        all_self_contained(pages),
        layout(pages, k) is Some,
    ensures
        pages.len() <= MAX_PAGES,
        page_id(pages.len() as int) <= (layout(pages, k)->0).0,
        all_numbers((layout(pages, k)->0).1).no_duplicates(),
        forall|x: int|
            0 <= x < all_numbers((layout(pages, k)->0).1).len() ==> {
                let v = #[trigger] all_numbers((layout(pages, k)->0).1)[x];
                ||| 1 <= v < page_id(k as int)
                ||| page_id(pages.len() as int) <= v < (layout(pages, k)->0).0
            },
    decreases k,
{
    let n = pages.len();
    if k == 0 {
        let catalog = front(n)[0];
        let tree = front(n)[1];
        assert(front(n).drop_last() =~= seq![catalog]);
        assert(seq![catalog].drop_last() =~= seq![]);
        assert(all_numbers(seq![]) =~= seq![]);
        assert(all_numbers(seq![catalog]) =~= seq![CATALOG_ID]);
        assert(all_numbers(front(n)) =~= seq![CATALOG_ID, PAGE_TREE_ID]);
    } else {
        lemma_layout(pages, (k - 1) as nat);
        let (next, steps) = layout(pages, (k - 1) as nat)->0;
        let page = pages[k - 1];
        let numbering = page_numbering(next, page);
        numbering_is_injective(next, numbers_met(page.objects));
        lemma_page_numbering(next, page);
        let all = with_page(steps, k - 1, page, numbering.map);
        let two = all.drop_last();
        let one = two.drop_last();
        assert(one.drop_last() =~= steps);
        let embedded = own_numbers(all.last());
        assert(all_numbers(one) =~= all_numbers(steps).push(page_id(k - 1)));
        assert(all_numbers(two) =~= all_numbers(one).push(contents_id(k - 1)));
        assert(all_numbers(all) =~= all_numbers(two) + embedded);
        assert(embedded.len() == page.objects.len());
        assert forall|x: int| 0 <= x < embedded.len() implies next <= #[trigger] embedded[x]
            < numbering.next by {
            assert(numbering.map.contains_key(page.objects[x].0));
        }
        assert forall|x: int, y: int| 0 <= x < y < embedded.len() implies embedded[x]
            != embedded[y] by {
            assert(page.objects[x].0 != page.objects[y].0);
            assert(numbering.map.contains_key(page.objects[x].0));
            assert(numbering.map.contains_key(page.objects[y].0));
        }
    }
}

/// Writes the document of the given pages, if there are enough numbers for its
/// objects.
///
/// Each page is a sheet of its own size, on which the picture of the page is
/// drawn over the whole sheet, together with all objects that the picture needs.
pub fn try_assemble_pdf(pages: &[RenderedPage]) -> (r: Option<Vec<u8>>)
    ensures
        r is Some <==> document(page_views(pages@)) is Some,
        r matches Some(file) ==> file@ == pdf_bytes(document(page_views(pages@))->0),
        r is Some <==> document_file(page_views(pages@)) is Some,
        r matches Some(file) ==> document_file(page_views(pages@)) == Some(file@),
        r is Some ==> all_self_contained(page_views(pages@)),
{
    reveal(document_file);
    let ghost views = page_views(pages@);
    let n: usize = pages.len();
    if n > MAX_PAGES {
        proof {
            lemma_no_layout(views, 0, n as nat);
        }
        return None;
    }
    let mut kids: Vec<i32> = Vec::new();
    let mut i: usize = 0;
    while i < n
        invariant
            i <= n <= MAX_PAGES,
            kids@ == Seq::new(i as nat, |j: int| page_id(j)),
        decreases n - i,
    {
        kids.push(3 + 2 * (i as i32));
        i += 1;
    }
    let mut name: Vec<u8> = Vec::new();
    name.push(0x53);
    name.push(0x31);
    assert(name@ =~= picture_name());

    let mut pdf = new_pdf();
    write_catalog(&mut pdf, CATALOG_ID, PAGE_TREE_ID);
    write_page_tree(&mut pdf, PAGE_TREE_ID, &kids, n as i32);
    assert(pdf_objects(pdf) =~= front(n as nat));

    let mut next: i32 = 3 + 2 * (n as i32);
    let mut k: usize = 0;
    while k < n
        invariant
            k <= n <= MAX_PAGES,
            n == pages@.len(),
            views == page_views(pages@),
            name@ == picture_name(),
            next > 0,
            layout(views, k as nat) == Some((next, pdf_objects(pdf))),
            forall|j: int| 0 <= j < k ==> self_contained(
                (#[trigger] views[j]).objects,
                views[j].root,
            ),
        decreases n - k,
    {
        let page = &pages[k];
        proof {
            use_type_invariant(page);
            assert(views[k as int] == page@);
        }
        let mut numbering = Numbering::new(next);
        let chunk = renumber(page.chunk(), &mut numbering);
        assert(numbering@ == page_numbering(next, page@));
        proof {
            numbering_is_injective(next, numbers_met(page@.objects));
        }
        if numbering.exhausted() {
            proof {
                lemma_no_layout(views, (k + 1) as nat, n as nat);
                reveal(document_file);
            }
            return None;
        }
        proof {
            lemma_page_numbering(next, page@);
        }
        match numbering.get(page.root()) {
            Some(picture) => {
                let id: i32 = 3 + 2 * (k as i32);
                write_page(&mut pdf, id, PAGE_TREE_ID, id + 1, page.size(), &name, picture);
                write_placement(&mut pdf, id + 1, page.size(), &name);
                assert(chunk_objects(chunk) =~= renumbered(
                    page@.objects,
                    numbering@.map,
                ));
                embed(&mut pdf, &chunk);
            },
            None => {
                assert(false);
            },
        }
        next = numbering.next();
        k += 1;
    }
    proof {
        assert(all_self_contained(views));
        lemma_layout(views, n as nat);
    }
    Some(finish(pdf))
}

/// Where the numbers have run out, they stay so for all later pages.
proof fn lemma_no_layout(pages: Seq<PageView>, k: nat, m: nat)
    requires
        k <= m,
        layout(pages, k) is None,
    ensures
        layout(pages, m) is None,
    decreases m,
{
    if k < m {
        lemma_no_layout(pages, k, (m - 1) as nat);
    }
}

/// Writes the document of the given pages.
pub fn assemble_pdf(pages: &[RenderedPage]) -> (r: Vec<u8>)
    requires
        document(page_views(pages@)) is Some,
    ensures
        r@ == pdf_bytes(document(page_views(pages@))->0),
{
    match try_assemble_pdf(pages) {
        Some(file) => file,
        None => {
            assert(false);
            Vec::new()
        },
    }
}

/// A document of `n` pages holds its catalog, its page tree, and then three steps
/// for each page in order: the page, with the size of the rendered page; its
/// contents, which draw the picture at the same size; and its objects.
pub proof fn pages_stand_in_order(pages: Seq<PageView>)
    requires
        document(pages) is Some,
    ensures
        ({
            let steps = document(pages)->0;
            &&& steps.len() == 2 + 3 * pages.len()
            &&& steps[0] == (PdfObject::Catalog { id: CATALOG_ID, page_tree: PAGE_TREE_ID })
            &&& steps[1] == (PdfObject::PageTree {
                id: PAGE_TREE_ID,
                kids: Seq::new(pages.len(), |i: int| page_id(i)),
                count: pages.len() as i32,
            })
            &&& forall|i: int| 0 <= i < pages.len() ==> #[trigger] page_in_place(pages, i)
        }),
{
    lemma_in_order(pages, pages.len());
    let steps = document(pages)->0;
    assert(steps[0] == steps.take(2)[0]);
    assert(steps[1] == steps.take(2)[1]);
    assert forall|i: int| 0 <= i < pages.len() implies #[trigger] page_in_place(pages, i) by {
        let before = steps.take(2 + 3 * i);
        let after = steps.take(5 + 3 * i);
        assert(after == with_page(before, i, pages[i], map_of_page(pages, i)));
        assert(steps[2 + 3 * i] == after[2 + 3 * i]);
        assert(steps[3 + 3 * i] == after[3 + 3 * i]);
        assert(steps[4 + 3 * i] == after[4 + 3 * i]);
    }
}

/// How page `i` stands in the document of `pages`.
pub open spec fn page_in_place(pages: Seq<PageView>, i: int) -> bool {
    let steps = document(pages)->0;
    let map = map_of_page(pages, i);
    &&& steps[2 + 3 * i] == (PdfObject::Page {
        id: page_id(i),
        parent: PAGE_TREE_ID,
        contents: contents_id(i),
        size: pages[i].size,
        name: picture_name(),
        picture: map[pages[i].root],
    })
    &&& steps[3 + 3 * i] == (PdfObject::Placement {
        id: contents_id(i),
        size: pages[i].size,
        name: picture_name(),
    })
    &&& steps[4 + 3 * i] == (PdfObject::Embedded { objects: renumbered(pages[i].objects, map) })
}

/// The new numbers of the objects of page `i`.
pub open spec fn map_of_page(pages: Seq<PageView>, i: int) -> Map<i32, i32> {
    page_numbering((layout(pages, i as nat)->0).0, pages[i]).map
}

proof fn lemma_in_order(pages: Seq<PageView>, k: nat)
    requires
        k <= pages.len(),
        layout(pages, k) is Some,
    ensures
        ({
            let steps = (layout(pages, k)->0).1;
            &&& steps.len() == 2 + 3 * k
            &&& steps.take(2) =~= front(pages.len())
            &&& forall|i: int|
                #![trigger map_of_page(pages, i)]
                0 <= i < k ==> with_page(steps.take(2 + 3 * i), i, pages[i], map_of_page(pages, i))
                    =~= steps.take(5 + 3 * i)
        }),
    decreases k,
{
    let steps = (layout(pages, k)->0).1;
    if k == 0 {
        assert(steps.take(2) =~= front(pages.len()));
    } else {
        lemma_in_order(pages, (k - 1) as nat);
        let before = (layout(pages, (k - 1) as nat)->0).1;
        assert(steps.take(2) =~= before.take(2));
        assert forall|i: int| #![trigger map_of_page(pages, i)] 0 <= i < k implies with_page(
            steps.take(2 + 3 * i),
            i,
            pages[i],
            map_of_page(pages, i),
        ) =~= steps.take(5 + 3 * i) by {
            if i < k - 1 {
                assert(steps.take(2 + 3 * i) =~= before.take(2 + 3 * i));
                assert(steps.take(5 + 3 * i) =~= before.take(5 + 3 * i));
            } else {
                assert(steps.take(2 + 3 * i) =~= before);
                assert(steps.take(5 + 3 * i) =~= steps);
            }
        }
    }
}

/// No number is used twice in a document, and none is the last number there is.
pub proof fn numbers_are_unique(pages: Seq<PageView>)
    requires
        all_self_contained(pages),
        document(pages) is Some,
    ensures
        all_numbers(document(pages)->0).no_duplicates(),
        forall|v: i32| #[trigger]
            all_numbers(document(pages)->0).contains(v) ==> 1 <= v < i32::MAX,
{
    lemma_layout(pages, pages.len());
}

/// Whether one of the objects that a step writes refers to the number `v`.
pub open spec fn refers_to(object: PdfObject, v: i32) -> bool {
    match object {
        PdfObject::Catalog { page_tree, .. } => v == page_tree,
        PdfObject::PageTree { kids, .. } => kids.contains(v),
        PdfObject::Page { parent, contents, picture, .. } => v == parent || v == contents || v
            == picture,
        PdfObject::Placement { .. } => false,
        PdfObject::Embedded { objects } => exists|j: int|
            0 <= j < objects.len() && #[trigger] object_refers_to(objects[j], v),
    }
}

/// Whether an object of a chunk refers to the number `v`.
pub open spec fn object_refers_to(object: ChunkObject, v: i32) -> bool {
    object.2 matches Some(references) && references.contains(v)
}

proof fn lemma_own_number(steps: Seq<PdfObject>, x: int, v: i32)
    requires
        0 <= x < steps.len(),
        own_numbers(steps[x]).contains(v),
    ensures
        all_numbers(steps).contains(v),
    decreases steps.len(),
{
    let shorter = steps.drop_last();
    let before = all_numbers(shorter);
    let all = all_numbers(steps);
    if x < shorter.len() {
        assert(shorter[x] == steps[x]);
        lemma_own_number(shorter, x, v);
        let y = choose|y: int| 0 <= y < before.len() && before[y] == v;
        assert(all[y] == v);
    } else {
        let own = own_numbers(steps[x]);
        let y = choose|y: int| 0 <= y < own.len() && own[y] == v;
        assert(all[before.len() + y] == v);
    }
}

/// No reference in a document leads nowhere: whatever an object refers to, be it
/// the catalog, the page tree, a page, or an object that a page draws with, is an
/// object of the document.
pub proof fn references_resolve(pages: Seq<PageView>, x: int, v: i32)
    requires
        all_self_contained(pages),
        document(pages) is Some,
        0 <= x < document(pages)->0.len(),
        refers_to(document(pages)->0[x], v),
    ensures
        all_numbers(document(pages)->0).contains(v),
{
    let steps = document(pages)->0;
    pages_stand_in_order(pages);
    assert(own_numbers(steps[1])[0] == PAGE_TREE_ID);
    lemma_own_number(steps, 1, PAGE_TREE_ID);
    if x == 0 {
    } else if x == 1 {
        let kids = Seq::new(pages.len(), |i: int| page_id(i));
        let y = choose|y: int| 0 <= y < kids.len() && kids[y] == v;
        assert(page_in_place(pages, y));
        assert(own_numbers(steps[2 + 3 * y])[0] == page_id(y));
        lemma_own_number(steps, 2 + 3 * y, v);
    } else {
        let i = (x - 2) / 3;
        let page = pages[i];
        let map = map_of_page(pages, i);
        assert(page_in_place(pages, i));
        if x == 2 + 3 * i {
            if v == contents_id(i) {
                assert(own_numbers(steps[3 + 3 * i])[0] == contents_id(i));
                lemma_own_number(steps, 3 + 3 * i, v);
            } else if v == map[page.root] {
                lemma_embedded_number(pages, i, page.root);
            }
        } else if x == 3 + 3 * i {
        } else {
            assert(x == 4 + 3 * i);
            let objects = renumbered(page.objects, map);
            let j = choose|j: int|
                0 <= j < objects.len() && #[trigger] object_refers_to(objects[j], v);
            let now = objects[j].2->0;
            let k = choose|k: int| 0 <= k < now.len() && now[k] == v;
            assert(has_number(page.objects, page.objects[j].2->0[k]));
            lemma_embedded_number(pages, i, page.objects[j].2->0[k]);
        }
    }
}

/// The new number of an object of page `i` is one of the document.
proof fn lemma_embedded_number(pages: Seq<PageView>, i: int, id: i32)
    requires
        document(pages) is Some,
        0 <= i < pages.len(),
        has_number(pages[i].objects, id),
    ensures
        all_numbers(document(pages)->0).contains(map_of_page(pages, i)[id]),
{
    let steps = document(pages)->0;
    pages_stand_in_order(pages);
    assert(page_in_place(pages, i));
    let objects = pages[i].objects;
    let m = choose|m: int| 0 <= m < objects.len() && (#[trigger] objects[m]).0 == id;
    assert(own_numbers(steps[4 + 3 * i])[m] == map_of_page(pages, i)[id]);
    lemma_own_number(steps, 4 + 3 * i, map_of_page(pages, i)[id]);
}

/// Every object of a page finds what it refers to among the objects of the same
/// page: the new number in a reference is that of the object which the old number
/// belonged to.
pub proof fn pictures_are_whole(pages: Seq<PageView>, i: int, j: int, k: int)
    requires
        all_self_contained(pages),
        document(pages) is Some,
        0 <= i < pages.len(),
        0 <= j < pages[i].objects.len(),
        0 <= k < pages[i].objects[j].2->0.len(),
    ensures
        ({
            let objects = pages[i].objects;
            let reference = objects[j].2->0[k];
            let map = map_of_page(pages, i);
            &&& map.contains_key(reference)
            &&& exists|m: int|
                0 <= m < objects.len() && (#[trigger] objects[m]).0 == reference && renumbered(
                    objects,
                    map,
                )[m].0 == map[reference]
        }),
{
    let objects = pages[i].objects;
    let reference = objects[j].2->0[k];
    assert(has_number(objects, reference));
    if layout(pages, (i + 1) as nat) is None {
        lemma_no_layout(pages, (i + 1) as nat, pages.len());
    }
    lemma_page_numbering((layout(pages, i as nat)->0).0, pages[i]);
}

/// How many numbers the first `k` pages bring with them.
pub open spec fn numbers_brought(pages: Seq<PageView>, k: nat) -> nat
    decreases k,
{
    if k == 0 {
        0
    } else {
        numbers_brought(pages, (k - 1) as nat) + numbers_met(pages[k - 1].objects).len()
    }
}

/// There is a document wherever the catalog, the page tree, the pages, their
/// contents and all numbers in the objects of the pages together are fewer than
/// the numbers there are.
pub proof fn document_exists(pages: Seq<PageView>)
    requires
        3 + 2 * pages.len() + numbers_brought(pages, pages.len()) <= i32::MAX,
    ensures
        document(pages) is Some,
{
    lemma_layout_exists(pages, pages.len());
}

proof fn lemma_layout_exists(pages: Seq<PageView>, k: nat)
    requires
        k <= pages.len(),
        3 + 2 * pages.len() + numbers_brought(pages, k) <= i32::MAX,
    ensures
        layout(pages, k) is Some,
        (layout(pages, k)->0).0 <= 3 + 2 * pages.len() + numbers_brought(pages, k),
    decreases k,
{
    if k > 0 {
        lemma_layout_exists(pages, (k - 1) as nat);
        numbers_suffice(
            (layout(pages, (k - 1) as nat)->0).0,
            numbers_met(pages[k - 1].objects),
        );
    }
}

/// What pages stand for is what each of them stands for, all of them in their order.
pub proof fn pages_stand_for_themselves(pages: Seq<RenderedPage>, i: int)
    requires
        0 <= i < pages.len(),
    ensures
        page_views(pages).len() == pages.len(),
        page_views(pages)[i] == pages[i]@,
{
}

/// The file of pages is that of their document, and there is one wherever there is a
/// document.
pub proof fn files_are_those_of_documents(pages: Seq<PageView>)
    ensures
        match document(pages) {
            Some(steps) => document_file(pages) == Some(pdf_bytes(steps)),
            None => document_file(pages) is None,
        },
{
    reveal(document_file);
}

/// A document begins with a catalog that leads to its page tree, and the tree counts
/// all pages and lists them in their order, each of them once.
pub proof fn every_page_is_listed(pages: Seq<PageView>, i: int)
    requires
        document(pages) is Some,
        0 <= i < pages.len(),
    ensures
        ({
            let steps = document(pages)->0;
            &&& steps.len() == 2 + 3 * pages.len()
            &&& steps[0] matches PdfObject::Catalog { id, page_tree } && id == 1 && page_tree == 2
            &&& steps[1] matches PdfObject::PageTree { id, kids, count } && id == 2 && count
                == pages.len() && kids.len() == pages.len() && kids[i] == 3 + 2 * i
        }),
{
    pages_stand_in_order(pages);
    lemma_few_pages(pages, pages.len());
}

/// There are no more pages in a document than there are numbers for.
proof fn lemma_few_pages(pages: Seq<PageView>, k: nat)
    requires
        layout(pages, k) is Some,
    ensures
        pages.len() <= MAX_PAGES,
    decreases k,
{
    if k > 0 {
        lemma_few_pages(pages, (k - 1) as nat);
    }
}

/// Page `i` of a document is page `i` that was given, and the whole of it: its sheet
/// has the size of that page, its contents draw one picture over all of the sheet,
/// the picture is the one that draws that page, and every object of that page is
/// there, with each reference leading to the object that it led to before.
pub proof fn every_page_is_drawn(pages: Seq<PageView>, i: int)
    requires
        all_self_contained(pages),
        document(pages) is Some,
        0 <= i < pages.len(),
    ensures
        ({
            let steps = document(pages)->0;
            let page = pages[i];
            let name = seq![0x53u8, 0x31u8];
            let objects = steps[4 + 3 * i]->Embedded_objects;
            &&& steps[2 + 3 * i] matches PdfObject::Page {
                id,
                parent,
                contents,
                size,
                name: under,
                picture,
            } && id == 3 + 2 * i && parent == 2 && contents == 4 + 2 * i && size == page.size && under
                == name && (forall|j: int|
                0 <= j < objects.len() ==> ((#[trigger] objects[j]).0 == picture <==> page.objects[j].0
                    == page.root))
            &&& steps[3 + 3 * i] matches PdfObject::Placement { id, size, name: under } && id == 4 + 2
                * i && size == page.size && under == name
            &&& steps[4 + 3 * i] is Embedded
            &&& objects.len() == page.objects.len()
            &&& forall|j: int, k: int, m: int|
                #![trigger objects[j].2->0[k], objects[m]]
                0 <= j < objects.len() && 0 <= m < objects.len() && 0 <= k
                    < page.objects[j].2->0.len() ==> (objects[j].2->0[k] == objects[m].0
                    <==> page.objects[j].2->0[k] == page.objects[m].0)
            &&& forall|j: int|
                #![trigger objects[j]]
                0 <= j < objects.len() ==> objects[j].2 is Some && objects[j].2->0.len()
                    == page.objects[j].2->0.len() && objects[j].1 == renumbered_text(
                    page.objects[j].1,
                    objects[j].0,
                    map_of_page(pages, i),
                )
        }),
{
    pages_stand_in_order(pages);
    lemma_few_pages(pages, pages.len());
    assert(page_in_place(pages, i));
    let steps = document(pages)->0;
    let page = pages[i];
    let map = map_of_page(pages, i);
    if layout(pages, (i + 1) as nat) is None {
        lemma_no_layout(pages, (i + 1) as nat, pages.len());
    }
    let next = (layout(pages, i as nat)->0).0;
    lemma_page_numbering(next, page);
    numbering_is_injective(next, numbers_met(page.objects));
    let objects = steps[4 + 3 * i]->Embedded_objects;
    assert(objects == renumbered(page.objects, map));
    assert forall|j: int| 0 <= j < objects.len() implies ((#[trigger] objects[j]).0
        == map[page.root] <==> page.objects[j].0 == page.root) by {
        assert(map.contains_key(page.objects[j].0));
    }
    assert forall|j: int, k: int, m: int|
        #![trigger objects[j].2->0[k], objects[m]]
        0 <= j < objects.len() && 0 <= m < objects.len() && 0 <= k
            < page.objects[j].2->0.len() implies (objects[j].2->0[k] == objects[m].0
        <==> page.objects[j].2->0[k] == page.objects[m].0) by {
        let old = page.objects[j].2->0[k];
        assert(has_number(page.objects, old));
        let x = choose|x: int| 0 <= x < page.objects.len() && (#[trigger] page.objects[x]).0 == old;
        assert(map.contains_key(page.objects[x].0));
        assert(map.contains_key(page.objects[m].0));
    }
}

/// No two objects of the pages get the same number, be they of one page or of two,
/// and none gets one of the catalog, the page tree, a page or its contents.
pub proof fn objects_of_pages_are_apart(pages: Seq<PageView>, i: int, j: int, x: int, y: int)
    requires
        all_self_contained(pages),
        document(pages) is Some,
        0 <= i <= j < pages.len(),
        0 <= x < pages[i].objects.len(),
        0 <= y < pages[j].objects.len(),
    ensures
        ({
            let steps = document(pages)->0;
            let a = steps[4 + 3 * i]->Embedded_objects[x].0;
            let b = steps[4 + 3 * j]->Embedded_objects[y].0;
            &&& i != j || x != y ==> a != b
            &&& 3 + 2 * pages.len() <= a
        }),
{
    pages_stand_in_order(pages);
    assert(page_in_place(pages, i));
    assert(page_in_place(pages, j));
    lemma_objects_of_page(pages, i, x);
    lemma_objects_of_page(pages, j, y);
    lemma_numbers_grow(pages, 0, i as nat);
    lemma_few_pages(pages, pages.len());
    if i < j {
        lemma_numbers_grow(pages, (i + 1) as nat, j as nat);
    } else if x != y {
        assert(pages[i].objects[x].0 != pages[i].objects[y].0);
        numbering_is_injective(
            (layout(pages, i as nat)->0).0,
            numbers_met(pages[i].objects),
        );
    }
}

/// The numbers of the objects of a page lie from the number that is free before it up
/// to the one that is free after it.
proof fn lemma_objects_of_page(pages: Seq<PageView>, i: int, x: int)
    requires
        all_self_contained(pages),
        document(pages) is Some,
        0 <= i < pages.len(),
        0 <= x < pages[i].objects.len(),
    ensures
        layout(pages, i as nat) is Some,
        layout(pages, (i + 1) as nat) is Some,
        map_of_page(pages, i).contains_key(pages[i].objects[x].0),
        (layout(pages, i as nat)->0).0 <= map_of_page(pages, i)[pages[i].objects[x].0] < (layout(
            pages,
            (i + 1) as nat,
        )->0).0,
{
    if layout(pages, (i + 1) as nat) is None {
        lemma_no_layout(pages, (i + 1) as nat, pages.len());
    }
    let next = (layout(pages, i as nat)->0).0;
    lemma_page_numbering(next, pages[i]);
    numbering_is_injective(next, numbers_met(pages[i].objects));
    assert(map_of_page(pages, i).contains_key(pages[i].objects[x].0));
}

/// The number that is free never gets less.
proof fn lemma_numbers_grow(pages: Seq<PageView>, k: nat, m: nat)
    requires
        k <= m,
        layout(pages, m) is Some,
    ensures
        layout(pages, k) is Some,
        (layout(pages, k)->0).0 <= (layout(pages, m)->0).0,
    decreases m,
{
    if k < m {
        let next = (layout(pages, (m - 1) as nat)->0).0;
        numbering_is_injective(next, numbers_met(pages[m - 1].objects));
        lemma_numbers_grow(pages, k, (m - 1) as nat);
    }
}

/// Each page brings with it the numbers of its objects and of their references, and
/// no others.
pub proof fn numbers_are_brought_page_by_page(pages: Seq<PageView>, k: nat)
    ensures
        numbers_brought(pages, 0) == 0,
        numbers_brought(pages, k + 1) == numbers_brought(pages, k) + numbers_met(
            pages[k as int].objects,
        ).len(),
{
}

} // verus!
