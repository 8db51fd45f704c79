//! The PDF writer and what it has written.
//!
//! All calls into `pdf_writer` are made here. A document is modelled as the
//! sequence of the objects that were written into it.
use crate::numbering::{assign_all, positive, Numbering};
use pdf_writer::{Chunk, Content, Finish, Name, Pdf, Rect, Ref};
use svg2pdf::usvg::Size;
use vstd::prelude::*;

verus! {

/// `pdf_writer::Chunk`, a collection of written objects.
#[verifier::external_type_specification]
#[verifier::external_body]
pub struct ExChunk(Chunk);

/// `pdf_writer::Pdf`, a document that is being written.
#[verifier::external_type_specification]
#[verifier::external_body]
pub struct ExPdf(Pdf);

/// `usvg::Size`, the width and the height of a picture.
#[verifier::external_type_specification]
#[verifier::external_body]
pub struct ExSize(Size);

/// An object of a chunk: its number, its text from the number on to where the
/// next object starts, and the numbers that the text refers to, in the order in
/// which `Chunk::renumber` comes across them. The last part is `None` for a text
/// that `Chunk::renumber` drops, because it is not an object that was written to
/// its end.
pub type ChunkObject = (i32, Seq<u8>, Option<Seq<i32>>);

/// The objects that a chunk holds, in the order in which they were written.
pub uninterp spec fn chunk_objects(chunk: Chunk) -> Seq<ChunkObject>;

/// Whether every object was written to its end.
pub open spec fn all_complete(objects: Seq<ChunkObject>) -> bool {
    forall|i: int| 0 <= i < objects.len() ==> (#[trigger] objects[i]).2 is Some
}

/// The numbers in a chunk, those of objects and those in references, in the
/// order in which they stand there.
pub open spec fn numbers_met(objects: Seq<ChunkObject>) -> Seq<i32>
    decreases objects.len(),
{
    if objects.len() == 0 {
        seq![]
    } else {
        let last = objects.last();
        numbers_met(objects.drop_last()).push(last.0) + (match last.2 {
            Some(references) => references,
            None => seq![],
        })
    }
}

/// The text that `Chunk::renumber` makes of an object with the text `text`, when
/// the object gets the number `id` and the numbers in its references are
/// replaced by `map`.
pub uninterp spec fn renumbered_text(text: Seq<u8>, id: i32, map: Map<i32, i32>) -> Seq<u8>;

/// An object after its number, and those in its references, were replaced by `map`.
pub open spec fn renumbered_object(object: ChunkObject, map: Map<i32, i32>) -> ChunkObject {
    (
        map[object.0],
        renumbered_text(object.1, map[object.0], map),
        match object.2 {
            Some(references) => Some(references.map_values(|id: i32| map[id])),
            None => None,
        },
    )
}

/// The objects after their numbers, and those in their references, were
/// replaced by `map`.
pub open spec fn renumbered(objects: Seq<ChunkObject>, map: Map<i32, i32>) -> Seq<ChunkObject> {
    objects.map_values(|object: ChunkObject| renumbered_object(object, map))
}

/// Calls `Chunk::renumber`. It goes through the objects in order, hands
/// [`Numbering::assign`] first the number of the object and then each number
/// that the object refers to, and returns the objects with the replacements in
/// place: each refers to the replacements of what it referred to, in the same
/// order. Where the numbers ran out nothing is stated of the result.
#[verifier::external_body]
pub(crate) fn renumber(chunk: &Chunk, numbering: &mut Numbering) -> (r: Chunk)
    requires
        positive(old(numbering)@),
        all_complete(chunk_objects(*chunk)),
    ensures
        final(numbering)@ == assign_all(old(numbering)@, numbers_met(chunk_objects(*chunk))),
        !final(numbering)@.exhausted ==> chunk_objects(r).len() == chunk_objects(*chunk).len(),
        !final(numbering)@.exhausted ==> forall|i: int|
            0 <= i < chunk_objects(r).len() ==> {
                let map = final(numbering)@.map;
                let object = chunk_objects(*chunk)[i];
                &&& (#[trigger] chunk_objects(r)[i]).0 == map[object.0]
                &&& chunk_objects(r)[i].1 == renumbered_text(object.1, map[object.0], map)
                &&& chunk_objects(r)[i].2 == Some(object.2->0.map_values(|id: i32| map[id]))
            },
{
    chunk.renumber(|id| Ref::new(numbering.assign(id.get())))
}

/// One step of writing a document.
pub enum PdfObject {
    /// The catalog, object `id`. It names the page tree.
    Catalog { id: i32, page_tree: i32 },
    /// The page tree, object `id`. It lists the pages and says how many there are.
    PageTree { id: i32, kids: Seq<i32>, count: i32 },
    /// A page, object `id`. It names the tree that it belongs to, its contents
    /// and, under `name`, a picture. Its sheet has the lower left corner at the
    /// origin and the size `size`.
    Page { id: i32, parent: i32, contents: i32, size: Size, name: Seq<u8>, picture: i32 },
    /// The contents of a page, object `id`: the picture `name`, one point wide and
    /// one point high, is stretched to `size` and drawn.
    Placement { id: i32, size: Size, name: Seq<u8> },
    /// The objects of a chunk.
    Embedded { objects: Seq<ChunkObject> },
}

/// What was written into a document, in the order in which it was written.
pub uninterp spec fn pdf_objects(pdf: Pdf) -> Seq<PdfObject>;

/// The file that `Pdf::finish` makes of the given objects.
pub uninterp spec fn pdf_bytes(objects: Seq<PdfObject>) -> Seq<u8>;

/// The numbers of the objects that a step writes.
pub open spec fn own_numbers(object: PdfObject) -> Seq<i32> {
    match object {
        PdfObject::Catalog { id, .. } => seq![id],
        PdfObject::PageTree { id, .. } => seq![id],
        PdfObject::Page { id, .. } => seq![id],
        PdfObject::Placement { id, .. } => seq![id],
        PdfObject::Embedded { objects } => Seq::new(objects.len(), |i: int| objects[i].0),
    }
}

/// The numbers of all objects.
pub open spec fn all_numbers(objects: Seq<PdfObject>) -> Seq<i32>
    decreases objects.len(),
{
    if objects.len() == 0 {
        seq![]
    } else {
        all_numbers(objects.drop_last()) + own_numbers(objects.last())
    }
}

/// Calls `Pdf::new`: nothing is written yet.
#[verifier::external_body]
pub(crate) fn new_pdf() -> (r: Pdf)
    ensures
        pdf_objects(r) == Seq::<PdfObject>::empty(),
{
    Pdf::new()
}

/// Calls `Pdf::catalog` and, on the writer that it returns, `Catalog::pages`: the
/// catalog is written.
#[verifier::external_body]
pub(crate) fn write_catalog(pdf: &mut Pdf, id: i32, page_tree: i32)
    requires
        id > 0,
        page_tree > 0,
    ensures
        pdf_objects(*final(pdf)) == pdf_objects(*old(pdf)).push(
            PdfObject::Catalog { id, page_tree },
        ),
{
    pdf.catalog(Ref::new(id)).pages(Ref::new(page_tree));
}

/// Calls `Chunk::pages` and, on the writer that it returns, `Pages::kids` and
/// `Pages::count`: the page tree is written.
#[verifier::external_body]
pub(crate) fn write_page_tree(pdf: &mut Pdf, id: i32, kids: &Vec<i32>, count: i32)
    requires
        id > 0,
        forall|i: int| 0 <= i < kids@.len() ==> #[trigger] kids@[i] > 0,
    ensures
        pdf_objects(*final(pdf)) == pdf_objects(*old(pdf)).push(
            PdfObject::PageTree { id, kids: kids@, count },
        ),
{
    pdf.pages(Ref::new(id)).kids(kids.iter().copied().map(Ref::new)).count(count);
}

/// Calls `Chunk::page` and, on the writer that it returns, `Page::media_box`,
/// `Page::parent`, `Page::contents` and `Page::resources` with one entry under
/// `/XObject`: the page is written.
#[verifier::external_body]
pub(crate) fn write_page(
    pdf: &mut Pdf,
    id: i32,
    parent: i32,
    contents: i32,
    size: &Size,
    name: &Vec<u8>,
    picture: i32,
)
    requires
        id > 0,
        parent > 0,
        contents > 0,
        picture > 0,
    ensures
        pdf_objects(*final(pdf)) == pdf_objects(*old(pdf)).push(
            PdfObject::Page { id, parent, contents, size: *size, name: name@, picture },
        ),
{
    let mut page = pdf.page(Ref::new(id));
    page.media_box(Rect::new(Default::default(), Default::default(), size.width(), size.height()));
    page.parent(Ref::new(parent));
    page.contents(Ref::new(contents));
    let mut resources = page.resources();
    resources.x_objects().pair(Name(name), Ref::new(picture));
    resources.finish();
    page.finish();
}

/// Makes a content stream with `Content::transform`, by the matrix that stretches
/// to `size`, and `Content::x_object`, and hands it to `Chunk::stream`: the
/// contents of a page are written. `Chunk::stream` gives up on a stream whose
/// length is beyond `i32`; with a name this short it stays far below.
#[verifier::external_body]
pub(crate) fn write_placement(pdf: &mut Pdf, id: i32, size: &Size, name: &Vec<u8>)
    requires
        id > 0,
        name@.len() <= 0xffff,
    ensures
        pdf_objects(*final(pdf)) == pdf_objects(*old(pdf)).push(
            PdfObject::Placement { id, size: *size, name: name@ },
        ),
{
    let zero = Default::default();
    let mut content = Content::new();
    content.transform([size.width(), zero, zero, size.height(), zero, zero]).x_object(Name(name));
    pdf.stream(Ref::new(id), &content.finish());
}

/// Calls `Chunk::extend`: the objects of the chunk are added as they are.
#[verifier::external_body]
pub(crate) fn embed(pdf: &mut Pdf, chunk: &Chunk)
    ensures
        pdf_objects(*final(pdf)) == pdf_objects(*old(pdf)).push(
            PdfObject::Embedded { objects: chunk_objects(*chunk) },
        ),
{
    pdf.extend(chunk);
}

/// Calls `Pdf::finish`, which adds the table of the objects and returns the file.
/// It gives up where a number was used twice, or where the last number was used.
#[verifier::external_body]
pub(crate) fn finish(pdf: Pdf) -> (r: Vec<u8>)
    requires
        all_numbers(pdf_objects(pdf)).no_duplicates(),
        forall|i: int|
            0 <= i < all_numbers(pdf_objects(pdf)).len() ==> #[trigger] all_numbers(
                pdf_objects(pdf),
            )[i] < i32::MAX,
    ensures
        r@ == pdf_bytes(pdf_objects(pdf)),
{
    pdf.finish()
}

} // verus!
