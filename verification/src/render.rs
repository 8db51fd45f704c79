//! From the SVG of a page to its PDF objects.
use crate::text::append_text;
use crate::writer::{all_complete, chunk_objects, ChunkObject};
use pdf_writer::Chunk;
use svg2pdf::usvg::{Options, Size, Tree};
use svg2pdf::{ConversionError, ConversionOptions};
use vstd::prelude::*;
use vstd::string::to_string_from_display_ensures;

verus! {

/// `usvg::Options`, how an SVG is read.
#[verifier::external_type_specification]
#[verifier::external_body]
pub struct ExOptions<'a>(Options<'a>);

/// `usvg::Tree`, an SVG that was read.
#[verifier::external_type_specification]
#[verifier::external_body]
pub struct ExTree(Tree);

/// `usvg::Error`, why an SVG was not read.
#[verifier::external_type_specification]
#[verifier::external_body]
pub struct ExSvgError(svg2pdf::usvg::Error);

/// `svg2pdf::ConversionError`, why a tree was not converted.
#[verifier::external_type_specification]
#[verifier::external_body]
pub struct ExConversionError(ConversionError);

/// The resolution at which a pixel is a point of the PDF.
pub const POINTS_PER_INCH: u8 = 72;

/// The resolution, in pixels to the inch, at which `options` convert units of
/// length.
pub uninterp spec fn options_dpi(options: Options<'static>) -> u8;

/// The default `usvg::Options`, with the resolution replaced by `dpi`.
pub uninterp spec fn default_options_at(dpi: u8) -> Options<'static>;

/// Calls `usvg::Options::default` and replaces the resolution by `dpi`; all other
/// options stay as they are by default.
#[verifier::external_body]
fn options_with_dpi(dpi: u8) -> (r: Options<'static>)
    ensures
        r == default_options_at(dpi),
        options_dpi(r) == dpi,
{
    Options { dpi: dpi.into(), ..Options::default() }
}

/// The options with which all pages are read: the default ones, which know no font,
/// at 72 pixels to the inch.
///
/// `usvg` turns every length into pixels, and the pixels are then taken for
/// points of the PDF. At 72 pixels to the inch the two are the same, so a page
/// gets its true size whether the SVG gives it without a unit, in `pt` or in
/// `mm`.
pub fn build_usvg_options() -> (r: Options<'static>)
    ensures
        r == default_options_at(POINTS_PER_INCH),
        options_dpi(r) == POINTS_PER_INCH,
{
    options_with_dpi(POINTS_PER_INCH)
}

/// The outcomes that can come of `usvg::Tree::from_str` for `text` and `options`;
/// `None` where it can panic. Files that the SVG names are read as they are on the
/// machine, so more than one outcome can come of the same text, and the call can
/// panic where it does so for some files.
///
/// It panics where the region of a mask, a filter or a pattern, given in parts of
/// the box of what it is applied to, has no area left in single precision or is out
/// of range, and where the radius of an `feMorphology` or the size of a marker is
/// out of range.
pub uninterp spec fn reading_outcomes(text: Seq<char>, options: Options<'static>) -> Option<
    Set<Result<Tree, svg2pdf::usvg::Error>>,
>;

/// `usvg::Tree::from_str`: where it does not panic, what it returns is one of the
/// outcomes that can come of the text and the options it was given. Nothing else is
/// stated of the tree, nor of when there is one.
pub assume_specification[ Tree::from_str ](text: &str, opt: &Options) -> (r: Result<
    Tree,
    svg2pdf::usvg::Error,
>)
    requires
        reading_outcomes(text@, *opt) is Some,
    ensures
        (reading_outcomes(text@, *opt)->0).contains(r),
;

/// Whether `outcome` can come of reading `text` with `options`.
pub open spec fn may_be_read(
    text: Seq<char>,
    options: Options<'static>,
    outcome: Result<Tree, svg2pdf::usvg::Error>,
) -> bool {
    reading_outcomes(text, options) matches Some(outcomes) && outcomes.contains(outcome)
}

/// The size of the picture that a tree describes.
pub uninterp spec fn tree_size(tree: Tree) -> Size;

/// `usvg::Tree::size`: the size of the picture, which the tree holds.
pub assume_specification[ Tree::size ](tree: &Tree) -> (r: Size)
    ensures
        r == tree_size(*tree),
;

/// Whether the objects are whole by themselves and `root` is one of them: no
/// number is used twice, every object was written to its end, and every
/// reference leads to one of the objects.
pub open spec fn self_contained(objects: Seq<ChunkObject>, root: i32) -> bool {
    &&& all_complete(objects)
    &&& forall|i: int, j: int|
        0 <= i < j < objects.len() ==> (#[trigger] objects[i]).0 != (#[trigger] objects[j]).0
    &&& has_number(objects, root)
    &&& forall|i: int, k: int|
        #![trigger objects[i].2->0[k]]
        0 <= i < objects.len() && 0 <= k < objects[i].2->0.len() ==> has_number(
            objects,
            objects[i].2->0[k],
        )
}

/// Whether one of the objects has the number `id`.
pub open spec fn has_number(objects: Seq<ChunkObject>, id: i32) -> bool {
    exists|i: int| 0 <= i < objects.len() && (#[trigger] objects[i]).0 == id
}

/// The outcomes that can come of `svg2pdf::to_chunk` for `tree` and the default
/// `ConversionOptions`, objects and the number of the one that draws the whole
/// picture, or an error; `None` where it can panic. The objects, and their order,
/// differ from call to call.
///
/// It panics where a group that is faded, masked, blended or set apart has a box
/// without an area after its transform, in single precision; where the name of a
/// font is cut in the middle of a character; and where `resvg`, which draws the
/// groups with filters, works out a region that is out of range.
pub uninterp spec fn conversion_outcomes(tree: Tree) -> Option<
    Set<Result<(Seq<ChunkObject>, i32), ConversionError>>,
>;

/// Whether `outcome` can come of converting `tree`.
pub open spec fn may_be_converted(
    tree: Tree,
    outcome: Result<(Seq<ChunkObject>, i32), ConversionError>,
) -> bool {
    conversion_outcomes(tree) matches Some(outcomes) && outcomes.contains(outcome)
}

/// What a conversion came to: the objects of the chunk, and the number with them.
pub open spec fn converted_view(converted: Result<(Chunk, i32), ConversionError>) -> Result<
    (Seq<ChunkObject>, i32),
    ConversionError,
> {
    match converted {
        Ok((chunk, root)) => Ok((chunk_objects(chunk), root)),
        Err(error) => Err(error),
    }
}

/// Calls `svg2pdf::to_chunk` with the default `ConversionOptions`. It returns a
/// chunk of objects and the number of the one that draws the whole picture. It
/// takes each number from one counter, so none is used twice, writes every
/// object to its end, the root among them, and puts every object that is referred
/// to into the chunk. Where it does not panic, what it returns is one of the
/// outcomes that can come of the tree; which one, and when the conversion fails, is
/// not stated.
#[verifier::external_body]
fn convert(tree: &Tree) -> (r: Result<(Chunk, i32), ConversionError>)
    requires
        conversion_outcomes(*tree) is Some,
    ensures
        (conversion_outcomes(*tree)->0).contains(converted_view(r)),
        r matches Ok((chunk, root)) ==> self_contained(chunk_objects(chunk), root),
{
    svg2pdf::to_chunk(tree, ConversionOptions::default()).map(|(chunk, root)| (chunk, root.get()))
}

/// Why a page was not converted.
pub enum RenderError {
    /// The SVG was not read; the text is what `usvg` says of it.
    Parse(String),
    /// The tree was not converted; the text is what `svg2pdf` says of it.
    Convert(String),
}

impl RenderError {
    /// What is told of the error.
    pub open spec fn spec_message(self) -> Seq<char> {
        match self {
            RenderError::Parse(reason) => "usvg parse: "@ + reason@,
            RenderError::Convert(reason) => "svg2pdf: "@ + reason@,
        }
    }

    /// What is told of the error.
    pub fn message(&self) -> (r: String)
        ensures
            r@ == self.spec_message(),
            match *self {
                RenderError::Parse(reason) => r@ == "usvg parse: "@ + reason@,
                RenderError::Convert(reason) => r@ == "svg2pdf: "@ + reason@,
            },
    {
        match self {
            RenderError::Parse(reason) => append_text("usvg parse: ", reason),
            RenderError::Convert(reason) => append_text("svg2pdf: ", reason),
        }
    }
}

/// What a [`RenderedPage`] stands for.
#[verifier::ext_equal]
pub struct PageView {
    /// The objects of the page.
    pub objects: Seq<ChunkObject>,
    /// The number of the object that draws the whole page.
    pub root: i32,
    /// The size of the page in points.
    pub size: Size,
}

/// A converted page: its objects, the number of the object that draws all of it,
/// and its size in points. The objects are whole by themselves.
pub struct RenderedPage {
    chunk: Chunk,
    root: i32,
    size: Size,
}

impl View for RenderedPage {
    type V = PageView;

    closed spec fn view(&self) -> PageView {
        PageView { objects: chunk_objects(self.chunk), root: self.root, size: self.size }
    }
}

impl RenderedPage {
    /// The objects of a page are whole by themselves.
    #[verifier::type_invariant]
    pub open spec fn wf(self) -> bool {
        self_contained(self@.objects, self@.root)
    }

    /// The objects of the page.
    pub(crate) fn chunk(&self) -> (r: &Chunk)
        ensures
            chunk_objects(*r) == self@.objects,
    {
        &self.chunk
    }

    /// The number of the object that draws the whole page.
    pub(crate) fn root(&self) -> (r: i32)
        ensures
            r == self@.root,
    {
        self.root
    }

    /// The size of the page in points.
    pub fn size(&self) -> (r: &Size)
        ensures
            *r == self@.size,
    {
        &self.size
    }
}

/// The page that a tree of the size `size` was converted to.
pub fn rendered_page(size: Size, converted: Result<(Chunk, i32), ConversionError>) -> (r: Result<
    RenderedPage,
    RenderError,
>)
    requires
        converted matches Ok((chunk, root)) ==> self_contained(chunk_objects(chunk), root),
    ensures
        match converted {
            Ok((chunk, root)) => r matches Ok(page) && page@ == (PageView {
                objects: chunk_objects(chunk),
                root,
                size,
            }),
            Err(error) => r matches Err(RenderError::Convert(reason))
                && to_string_from_display_ensures(&error, reason),
        },
{
    match converted {
        Ok((chunk, root)) => Ok(RenderedPage { chunk, root, size }),
        Err(error) => Err(RenderError::Convert(error.to_string())),
    }
}

/// Whether `tree` can be read from `svg`, and converted to `page`, whose size is
/// that of the tree.
pub open spec fn comes_of_tree(
    svg: Seq<char>,
    options: Options<'static>,
    tree: Tree,
    page: PageView,
) -> bool {
    &&& may_be_read(svg, options, Ok(tree))
    &&& may_be_converted(tree, Ok((page.objects, page.root)))
    &&& page.size == tree_size(tree)
}

/// Whether `error` can come of reading `svg`, and `reason` is what it says.
pub open spec fn comes_of_reading(
    svg: Seq<char>,
    options: Options<'static>,
    error: svg2pdf::usvg::Error,
    reason: String,
) -> bool {
    &&& may_be_read(svg, options, Err(error))
    &&& to_string_from_display_ensures(&error, reason)
}

/// Whether `svg` can be refused, with `reason` as what is said of it.
pub open spec fn may_be_refused(svg: Seq<char>, options: Options<'static>, reason: String) -> bool {
    exists|error: svg2pdf::usvg::Error| #[trigger] comes_of_reading(svg, options, error, reason)
}

/// Whether `tree` can be read from `svg`, `error` can come of converting it, and
/// `reason` is what the error says.
pub open spec fn comes_of_converting(
    svg: Seq<char>,
    options: Options<'static>,
    tree: Tree,
    error: ConversionError,
    reason: String,
) -> bool {
    &&& may_be_read(svg, options, Ok(tree))
    &&& may_be_converted(tree, Err(error))
    &&& to_string_from_display_ensures(&error, reason)
}

/// Whether `outcome` can come of reading `svg` with `options` and converting what
/// was read.
pub open spec fn may_be_rendered(
    svg: Seq<char>,
    options: Options<'static>,
    outcome: Result<PageView, RenderError>,
) -> bool {
    match outcome {
        Ok(page) => {
            &&& self_contained(page.objects, page.root)
            &&& exists|tree: Tree| #[trigger] comes_of_tree(svg, options, tree, page)
        },
        Err(RenderError::Parse(reason)) => may_be_refused(svg, options, reason),
        Err(RenderError::Convert(reason)) => exists|tree: Tree, error: ConversionError| #[trigger]
            comes_of_converting(svg, options, tree, error, reason),
    }
}

/// What rendering came to.
pub open spec fn rendered_view(rendered: Result<RenderedPage, RenderError>) -> Result<
    PageView,
    RenderError,
> {
    match rendered {
        Ok(page) => Ok(page@),
        Err(error) => Err(error),
    }
}

/// Whether neither reading `svg` with `options`, nor converting what can be read,
/// panics.
pub open spec fn rendering_returns(svg: Seq<char>, options: Options<'static>) -> bool {
    &&& reading_outcomes(svg, options) is Some
    &&& forall|tree: Tree|
        may_be_read(svg, options, Ok(tree)) ==> #[trigger] conversion_outcomes(tree) is Some
}

/// Reads the SVG of a page and converts what was read to objects that are whole by
/// themselves. The size of the page is that of the tree that was converted. It
/// fails exactly where `usvg` does not read the SVG or `svg2pdf` does not convert
/// the tree.
///
/// The outcome rests on what `usvg` and `svg2pdf` make of the SVG with the fonts
/// and files of the machine. An SVG on which one of them panics is left out.
pub fn render_svg(svg: &str, options: &Options<'static>) -> (r: Result<RenderedPage, RenderError>)
    requires
        rendering_returns(svg@, *options),
    ensures
        may_be_rendered(svg@, *options, rendered_view(r)),
{
    match Tree::from_str(svg, options) {
        Ok(tree) => {
            let size = tree.size();
            let converted = convert(&tree);
            let ghost outcome = converted;
            let r = rendered_page(size, converted);
            proof {
                if let Err(error) = outcome {
                    let reason = (r->Err_0)->Convert_0;
                    assert(comes_of_converting(svg@, *options, tree, error, reason));
                } else {
                    assert(comes_of_tree(svg@, *options, tree, (r->Ok_0)@));
                }
            }
            r
        },
        Err(error) => {
            let reason = error.to_string();
            assert(comes_of_reading(svg@, *options, error, reason));
            assert(may_be_refused(svg@, *options, reason));
            Err(RenderError::Parse(reason))
        },
    }
}

/// A page comes of the whole SVG and of nothing else: there is a tree that `usvg`
/// can read from just this text with these options, that `svg2pdf` can convert to
/// the objects of the page, and whose size is that of the page.
pub proof fn pages_come_of_their_pictures(
    svg: Seq<char>,
    options: Options<'static>,
    page: PageView,
)
    requires
        may_be_rendered(svg, options, Ok(page)),
    ensures
        exists|tree: Tree|
            {
                &&& (reading_outcomes(svg, options)->0).contains(Ok(tree))
                &&& (conversion_outcomes(tree)->0).contains(Ok((page.objects, page.root)))
                &&& page.size == #[trigger] tree_size(tree)
            },
        exists|i: int|
            0 <= i < page.objects.len() && (#[trigger] page.objects[i]).0 == page.root,
{
    let tree = choose|tree: Tree| #[trigger] comes_of_tree(svg, options, tree, page);
    assert(page.size == tree_size(tree));
    assert(has_number(page.objects, page.root));
}

/// A page is not converted only where `usvg` can refuse just this text, or can read a
/// tree from it that `svg2pdf` can refuse; and what is told of it is what they say.
pub proof fn refusals_come_of_the_picture(
    svg: Seq<char>,
    options: Options<'static>,
    error: RenderError,
)
    requires
        may_be_rendered(svg, options, Err(error)),
    ensures
        match error {
            RenderError::Parse(reason) => exists|said: svg2pdf::usvg::Error|
                {
                    &&& (reading_outcomes(svg, options)->0).contains(Err(said))
                    &&& #[trigger] to_string_from_display_ensures(&said, reason)
                },
            RenderError::Convert(reason) => exists|tree: Tree, said: ConversionError|
                #![trigger conversion_outcomes(tree), to_string_from_display_ensures(&said, reason)]
                {
                    &&& (reading_outcomes(svg, options)->0).contains(Ok(tree))
                    &&& (conversion_outcomes(tree)->0).contains(Err(said))
                    &&& to_string_from_display_ensures(&said, reason)
                },
        },
{
    match error {
        RenderError::Parse(reason) => {
            let said = choose|said: svg2pdf::usvg::Error| #[trigger]
                comes_of_reading(svg, options, said, reason);
            assert(to_string_from_display_ensures(&said, reason));
        },
        RenderError::Convert(reason) => {
            let (tree, said) = choose|tree: Tree, said: ConversionError| #[trigger]
                comes_of_converting(svg, options, tree, said, reason);
            assert(conversion_outcomes(tree) is Some);
            assert(to_string_from_display_ensures(&said, reason));
        },
    }
}

/// An SVG can be rendered wherever neither reading it nor converting what was read
/// panics.
pub proof fn pictures_are_taken(svg: Seq<char>, options: Options<'static>)
    requires
        reading_outcomes(svg, options) is Some,
        forall|tree: Tree|
            (reading_outcomes(svg, options)->0).contains(Ok::<Tree, svg2pdf::usvg::Error>(tree))
                ==> #[trigger] conversion_outcomes(tree) is Some,
    ensures
        rendering_returns(svg, options),
{
}

/// What rendering came to is the page, with all its objects, or the error.
pub proof fn rendered_pages_stand_for_themselves(rendered: Result<RenderedPage, RenderError>)
    ensures
        match rendered {
            Ok(page) => rendered_view(rendered) == Ok::<PageView, RenderError>(page@),
            Err(error) => rendered_view(rendered) == Err::<PageView, RenderError>(error),
        },
{
}

} // verus!
