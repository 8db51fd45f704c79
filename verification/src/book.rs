//! Fetching one book.
//!
//! The reader on the site is opened, its pages are turned one by one, the picture
//! of each is taken out and written as a file of its own, and in the end all of
//! them are put into one document. What is to be done next is decided here; the
//! browser and the files are worked from outside, which reports back what came of
//! it.
use crate::decimal::{decimal, decimal_is_read_back, digits_value, push_decimal};
use crate::document::{
    document, document_file, files_are_those_of_documents, page_views, try_assemble_pdf,
};
use crate::names::{
    book_file, book_file_name, book_id, book_title, id_in_link, ids_are_found_in_links, option_view, page_file,
    page_file_name, page_number_text, page_selector, safe_name, sanitize_file_name, selector, title,
};
use crate::range::{
    digits_among_others, first_page, page_count, page_counts_are_those_of_the_digits,
    page_counts_are_understood, pages_asked_for_are_fetched, pages_told, plan_range, planned,
    range_stays_in_book, PageRange,
};
use crate::render::{
    may_be_rendered, render_svg, rendered_view, rendering_returns, PageView, RenderError, RenderedPage,
};
use crate::text::{append_text, trim};
use crate::writer::pdf_bytes;
use svg2pdf::usvg::{Options, Size};
use vstd::prelude::*;

verus! {

/// What is asked for.
#[derive(Clone, Copy)]
pub struct BookOptions {
    /// The page to start with.
    pub from: u32,
    /// How many pages to fetch at most.
    pub pages: Option<u32>,
    /// Whether to keep the picture of each page as it is, too.
    pub dump_svg: bool,
    /// Whether to leave it at the files of the pages.
    pub no_merge: bool,
}

/// The picture of a page as it was taken out of the reader.
pub struct ExtractedSvg {
    /// The picture, with the definitions that it needs put into it.
    pub svg: String,
    /// How many definitions were put into it.
    pub added: u32,
    /// Some of the definitions that were not found.
    pub missing: Vec<String>,
    /// How many definitions were not found.
    pub missing_count: u32,
}

impl ExtractedSvg {
    /// Whether definitions that the picture needs were not found.
    pub fn is_incomplete(&self) -> (r: bool)
        ensures
            r == (self.missing_count > 0),
    {
        self.missing_count > 0
    }
}

/// Why a book was not fetched.
#[derive(Clone, Copy)]
pub enum BookError {
    /// The link does not tell the number of the book.
    NoBookId,
    /// The reader does not tell how many pages there are.
    NoPageCount,
    /// The book ends before the first page that is asked for.
    StartBeyondEnd { first: u32, total: u32 },
    /// No page was fetched.
    NoPages,
    /// There are not enough numbers for the objects of a document.
    TooManyObjects,
    /// The last thing that was done failed.
    Outside,
}

/// What is to be done next.
pub enum BookAction {
    /// Open a tab.
    OpenTab,
    /// Go to a page.
    Goto { url: String },
    /// Tell what the reader says of the number of pages.
    ReadPageCount,
    /// Tell what the reader says of the title.
    ReadTitle,
    /// Make the directory for the files of the pages.
    CreatePageDir { name: String },
    /// Turn to a page and wait for its picture.
    ShowPage { n: u32, number: String, selector: String },
    /// Take out the picture of a page.
    ExtractSvg { n: u32, selector: String },
    /// Write the picture of a page to a file.
    WriteSvg { n: u32, file: String, svg: String },
    /// Convert the picture of a page.
    Convert { n: u32, svg: String },
    /// Write the document of a page, which has the size `size`, to a file.
    WritePage { n: u32, file: String, bytes: Vec<u8>, size: Size },
    /// Close the tab.
    CloseTab,
    /// Make the directory for the books.
    CreateBookDir,
    /// Write the document of the book to a file.
    WriteBook { file: String, bytes: Vec<u8> },
    /// Stop.
    Finish { result: Result<(), BookError> },
}

/// What a [`BookAction`] stands for.
#[verifier::ext_equal]
pub enum BookActionView {
    OpenTab,
    Goto { url: Seq<char> },
    ReadPageCount,
    ReadTitle,
    CreatePageDir { name: Seq<char> },
    ShowPage { n: u32, number: Seq<char>, selector: Seq<char> },
    ExtractSvg { n: u32, selector: Seq<char> },
    WriteSvg { n: u32, file: Seq<char>, svg: Seq<char> },
    Convert { n: u32, svg: Seq<char> },
    WritePage { n: u32, file: Seq<char>, bytes: Seq<u8>, size: Size },
    CloseTab,
    CreateBookDir,
    WriteBook { file: Seq<char>, bytes: Seq<u8> },
    Finish { result: Result<(), BookError> },
}

impl View for BookAction {
    type V = BookActionView;

    open spec fn view(&self) -> BookActionView {
        match *self {
            BookAction::OpenTab => BookActionView::OpenTab,
            BookAction::Goto { url } => BookActionView::Goto { url: url@ },
            BookAction::ReadPageCount => BookActionView::ReadPageCount,
            BookAction::ReadTitle => BookActionView::ReadTitle,
            BookAction::CreatePageDir { name } => BookActionView::CreatePageDir { name: name@ },
            BookAction::ShowPage { n, number, selector } => BookActionView::ShowPage {
                n,
                number: number@,
                selector: selector@,
            },
            BookAction::ExtractSvg { n, selector } => BookActionView::ExtractSvg {
                n,
                selector: selector@,
            },
            BookAction::WriteSvg { n, file, svg } => BookActionView::WriteSvg {
                n,
                file: file@,
                svg: svg@,
            },
            BookAction::Convert { n, svg } => BookActionView::Convert { n, svg: svg@ },
            BookAction::WritePage { n, file, bytes, size } => BookActionView::WritePage {
                n,
                file: file@,
                bytes: bytes@,
                size,
            },
            BookAction::CloseTab => BookActionView::CloseTab,
            BookAction::CreateBookDir => BookActionView::CreateBookDir,
            BookAction::WriteBook { file, bytes } => BookActionView::WriteBook {
                file: file@,
                bytes: bytes@,
            },
            BookAction::Finish { result } => BookActionView::Finish { result },
        }
    }
}

/// What came of an action.
pub enum BookEvent {
    /// It was done.
    Done,
    /// It failed.
    Failed,
    /// The text that was to be told, if there is any.
    Text(Option<String>),
    /// The picture that was taken out.
    Svg(ExtractedSvg),
    /// The page that was converted, or why it was not.
    Converted(Result<RenderedPage, RenderError>),
}

/// What a [`BookEvent`] stands for.
pub enum BookEventView {
    Done,
    Failed,
    Text(Option<Seq<char>>),
    Svg(Seq<char>),
    Converted(Option<PageView>),
}

impl View for BookEvent {
    type V = BookEventView;

    open spec fn view(&self) -> BookEventView {
        match *self {
            BookEvent::Done => BookEventView::Done,
            BookEvent::Failed => BookEventView::Failed,
            BookEvent::Text(text) => BookEventView::Text(option_view(text)),
            BookEvent::Svg(extracted) => BookEventView::Svg(extracted.svg@),
            BookEvent::Converted(Ok(page)) => BookEventView::Converted(Some(page@)),
            BookEvent::Converted(Err(_)) => BookEventView::Converted(None),
        }
    }
}

/// How far the work has got: what is being waited for.
#[derive(Clone, Copy)]
pub enum BookStage {
    OpeningTab,
    Loading,
    Counting,
    Naming,
    MakingPageDir,
    Turning { n: u32 },
    Extracting { n: u32 },
    DumpingSvg { n: u32 },
    Converting { n: u32 },
    SavingPage { n: u32 },
    ClosingTab,
    MakingBookDir,
    SavingBook,
    Ended,
}

/// What a [`BookJob`] stands for.
#[verifier::ext_equal]
pub struct BookState {
    /// The link of the book.
    pub link: Seq<char>,
    /// What is asked for.
    pub options: BookOptions,
    /// What is being waited for.
    pub stage: BookStage,
    /// The number of the book.
    pub id: Seq<char>,
    /// How many pages the book has.
    pub total: u32,
    /// The name of the directory of its pages, and of its file.
    pub name: Seq<char>,
    /// The pages that are fetched.
    pub range: PageRange,
    /// The picture that is to be converted.
    pub svg: Seq<char>,
    /// The pages for the document of the book, in order.
    pub rendered: Seq<PageView>,
}

/// Whether `event` can come of what is being waited for.
pub open spec fn book_expects(stage: BookStage, event: BookEventView) -> bool {
    match stage {
        BookStage::Counting => event is Text || event is Failed,
        BookStage::Naming => event is Text || event is Failed,
        BookStage::Extracting { n } => event is Svg || event is Failed,
        BookStage::Converting { n } => event is Converted,
        BookStage::Ended => false,
        _ => event is Done || event is Failed,
    }
}

/// The start of the work on the book behind `link`.
pub open spec fn book_start(link: Seq<char>, options: BookOptions) -> BookState {
    BookState {
        link,
        options,
        stage: BookStage::OpeningTab,
        id: seq![],
        total: 0,
        name: seq![],
        range: PageRange { first: 1, last: 0 },
        svg: seq![],
        rendered: seq![],
    }
}

/// The work ends.
pub open spec fn ended(s: BookState, result: Result<(), BookError>) -> (BookState, BookActionView) {
    (BookState { stage: BookStage::Ended, ..s }, BookActionView::Finish { result })
}

/// Page `n` is turned to, or the tab is closed where the last page was before it.
pub open spec fn to_page(s: BookState, n: int) -> (BookState, BookActionView) {
    if n <= s.range.last {
        (
            BookState { stage: BookStage::Turning { n: n as u32 }, ..s },
            BookActionView::ShowPage {
                n: n as u32,
                number: decimal(n as nat),
                selector: selector(n as nat),
            },
        )
    } else {
        (BookState { stage: BookStage::ClosingTab, ..s }, BookActionView::CloseTab)
    }
}

/// The picture of page `n` is converted.
pub open spec fn to_conversion(s: BookState, n: u32) -> (BookState, BookActionView) {
    (
        BookState { stage: BookStage::Converting { n }, svg: seq![], ..s },
        BookActionView::Convert { n, svg: s.svg },
    )
}

/// Page `n` was converted to `page`: it is written as a document of its own, and is
/// kept for the document of the book where there is to be one.
pub open spec fn to_page_file(s: BookState, n: u32, page: PageView) -> (BookState, BookActionView) {
    match document_file(seq![page]) {
        Some(bytes) => (
            BookState {
                stage: BookStage::SavingPage { n },
                rendered: if s.options.no_merge {
                    s.rendered
                } else {
                    s.rendered.push(page)
                },
                ..s
            },
            BookActionView::WritePage {
                n,
                file: page_file(n as nat, "pdf"@),
                bytes,
                size: page.size,
            },
        ),
        None => ended(s, Err(BookError::TooManyObjects)),
    }
}

/// What follows when `event` comes at the stage of `s`.
pub open spec fn book_step(s: BookState, event: BookEventView) -> (BookState, BookActionView) {
    match s.stage {
        BookStage::OpeningTab => match (event, id_in_link(s.link)) {
            (BookEventView::Failed, _) => ended(s, Err(BookError::Outside)),
            (_, None) => ended(s, Err(BookError::NoBookId)),
            (_, Some(id)) => (
                BookState { stage: BookStage::Loading, id, ..s },
                BookActionView::Goto { url: s.link },
            ),
        },
        BookStage::Loading => if event is Failed {
            ended(s, Err(BookError::Outside))
        } else {
            (BookState { stage: BookStage::Counting, ..s }, BookActionView::ReadPageCount)
        },
        BookStage::Counting => match event {
            BookEventView::Text(text) => {
                let total = match text {
                    Some(text) => pages_told(text),
                    None => 0,
                };
                if total == 0 {
                    ended(s, Err(BookError::NoPageCount))
                } else {
                    (
                        BookState { stage: BookStage::Naming, total, ..s },
                        BookActionView::ReadTitle,
                    )
                }
            },
            _ => ended(s, Err(BookError::Outside)),
        },
        BookStage::Naming => {
            let found = match event {
                BookEventView::Text(text) => text,
                _ => None,
            };
            let name = safe_name(title(found, s.id));
            (
                BookState { stage: BookStage::MakingPageDir, name, ..s },
                BookActionView::CreatePageDir { name },
            )
        },
        BookStage::MakingPageDir => if event is Failed {
            ended(s, Err(BookError::Outside))
        } else {
            match planned(s.options.from, s.options.pages, s.total) {
                Some(range) => to_page(BookState { range, ..s }, range.first as int),
                None => ended(
                    s,
                    Err(
                        BookError::StartBeyondEnd {
                            first: first_page(s.options.from),
                            total: s.total,
                        },
                    ),
                ),
            }
        },
        BookStage::Turning { n } => if event is Failed {
            to_page(s, n + 1)
        } else {
            (
                BookState { stage: BookStage::Extracting { n }, ..s },
                BookActionView::ExtractSvg { n, selector: selector(n as nat) },
            )
        },
        BookStage::Extracting { n } => match event {
            BookEventView::Svg(svg) => if s.options.dump_svg {
                (
                    BookState { stage: BookStage::DumpingSvg { n }, svg, ..s },
                    BookActionView::WriteSvg { n, file: page_file(n as nat, "svg"@), svg },
                )
            } else {
                to_conversion(BookState { svg, ..s }, n)
            },
            _ => to_page(s, n + 1),
        },
        BookStage::DumpingSvg { n } => to_conversion(s, n),
        BookStage::Converting { n } => match event {
            BookEventView::Converted(Some(page)) => to_page_file(s, n, page),
            _ => to_page(s, n + 1),
        },
        BookStage::SavingPage { n } => to_page(s, n + 1),
        BookStage::ClosingTab => if event is Failed {
            ended(s, Err(BookError::Outside))
        } else if s.options.no_merge {
            ended(s, Ok(()))
        } else if s.rendered.len() == 0 {
            ended(s, Err(BookError::NoPages))
        } else {
            (BookState { stage: BookStage::MakingBookDir, ..s }, BookActionView::CreateBookDir)
        },
        BookStage::MakingBookDir => if event is Failed {
            ended(s, Err(BookError::Outside))
        } else {
            match document_file(s.rendered) {
                Some(bytes) => (
                    BookState { stage: BookStage::SavingBook, ..s },
                    BookActionView::WriteBook {
                        file: book_file(
                            s.name,
                            s.range.first as nat,
                            s.range.last as nat,
                            s.total as nat,
                        ),
                        bytes,
                    },
                ),
                None => ended(s, Err(BookError::TooManyObjects)),
            }
        },
        BookStage::SavingBook => if event is Failed {
            ended(s, Err(BookError::Outside))
        } else {
            ended(s, Ok(()))
        },
        BookStage::Ended => ended(s, Err(BookError::Outside)),
    }
}

/// The work on one book.
pub struct BookJob {
    link: String,
    options: BookOptions,
    stage: BookStage,
    id: String,
    total: u32,
    name: String,
    range: PageRange,
    svg: String,
    rendered: Vec<RenderedPage>,
}

impl View for BookJob {
    type V = BookState;

    closed spec fn view(&self) -> BookState {
        BookState {
            link: self.link@,
            options: self.options,
            stage: self.stage,
            id: self.id@,
            total: self.total,
            name: self.name@,
            range: self.range,
            svg: self.svg@,
            rendered: page_views(self.rendered@),
        }
    }
}

impl BookJob {
    /// The start of the work on the book behind `link`, and what is to be done
    /// first.
    pub fn start(link: &str, options: BookOptions) -> (r: (BookJob, BookAction))
        ensures
            r.0@ == book_start(link@, options),
            r.1@ == BookActionView::OpenTab,
    {
        let job = BookJob {
            link: link.to_owned(),
            options,
            stage: BookStage::OpeningTab,
            id: String::new(),
            total: 0,
            name: String::new(),
            range: PageRange { first: 1, last: 0 },
            svg: String::new(),
            rendered: Vec::new(),
        };
        assert(job@ =~= book_start(link@, options));
        (job, BookAction::OpenTab)
    }

    /// Whether `event` can come of what is being waited for.
    pub fn expects(&self, event: &BookEvent) -> (r: bool)
        ensures
            r == book_expects(self@.stage, event@),
    {
        match self.stage {
            BookStage::Counting => matches!(event, BookEvent::Text(_) | BookEvent::Failed),
            BookStage::Naming => matches!(event, BookEvent::Text(_) | BookEvent::Failed),
            BookStage::Extracting { n: _ } => matches!(
                event,
                BookEvent::Svg(_) | BookEvent::Failed
            ),
            BookStage::Converting { n: _ } => matches!(event, BookEvent::Converted(_)),
            BookStage::Ended => false,
            _ => matches!(event, BookEvent::Done | BookEvent::Failed),
        }
    }

    fn end(&mut self, result: Result<(), BookError>) -> (r: BookAction)
        ensures
            (final(self)@, r@) == ended(old(self)@, result),
    {
        self.stage = BookStage::Ended;
        BookAction::Finish { result }
    }

    fn show(&mut self, n: u32) -> (r: BookAction)
        requires
            n <= old(self)@.range.last,
        ensures
            (final(self)@, r@) == to_page(old(self)@, n as int),
    {
        self.stage = BookStage::Turning { n };
        BookAction::ShowPage { n, number: page_number_text(n), selector: page_selector(n) }
    }

    fn close(&mut self) -> (r: BookAction)
        ensures
            final(self)@ == (BookState { stage: BookStage::ClosingTab, ..old(self)@ }),
            r@ == BookActionView::CloseTab,
    {
        self.stage = BookStage::ClosingTab;
        BookAction::CloseTab
    }

    fn show_next(&mut self, n: u32) -> (r: BookAction)
        ensures
            (final(self)@, r@) == to_page(old(self)@, n + 1),
    {
        if n < self.range.last {
            self.show(n + 1)
        } else {
            self.close()
        }
    }

    fn convert(&mut self, n: u32) -> (r: BookAction)
        ensures
            (final(self)@, r@) == to_conversion(old(self)@, n),
    {
        let svg = self.svg.clone();
        self.svg = String::new();
        self.stage = BookStage::Converting { n };
        BookAction::Convert { n, svg }
    }

    fn save_page(&mut self, n: u32, page: RenderedPage) -> (r: BookAction)
        ensures
            (final(self)@, r@) == to_page_file(old(self)@, n, page@),
    {
        let size = *page.size();
        let ghost view = page@;
        let mut one: Vec<RenderedPage> = Vec::new();
        one.push(page);
        assert(page_views(one@) =~= seq![view]);
        match try_assemble_pdf(one.as_slice()) {
            Some(bytes) => {
                self.stage = BookStage::SavingPage { n };
                if !self.options.no_merge {
                    let ghost before = self.rendered@;
                    self.rendered.append(&mut one);
                    assert(page_views(self.rendered@) =~= page_views(before).push(view));
                }
                BookAction::WritePage { n, file: page_file_name(n, "pdf"), bytes, size }
            },
            None => self.end(Err(BookError::TooManyObjects)),
        }
    }

    fn open(&mut self) -> (r: BookAction)
        requires
            old(self)@.stage is OpeningTab,
        ensures
            (final(self)@, r@) == book_step(old(self)@, BookEventView::Done),
    {
        match book_id(self.link.as_str()) {
            Some(id) => {
                self.id = id;
                self.stage = BookStage::Loading;
                BookAction::Goto { url: self.link.clone() }
            },
            None => self.end(Err(BookError::NoBookId)),
        }
    }

    fn count(&mut self, text: &Option<String>) -> (r: BookAction)
        requires
            old(self)@.stage is Counting,
        ensures
            (final(self)@, r@) == book_step(
                old(self)@,
                BookEventView::Text(option_view(*text)),
            ),
    {
        let total: u32 = match text {
            Some(text) => page_count(text.as_str()),
            None => 0,
        };
        if total == 0 {
            self.end(Err(BookError::NoPageCount))
        } else {
            self.total = total;
            self.stage = BookStage::Naming;
            BookAction::ReadTitle
        }
    }

    fn name(&mut self, found: &Option<String>) -> (r: BookAction)
        requires
            old(self)@.stage is Naming,
        ensures
            (final(self)@, r@) == book_step(
                old(self)@,
                BookEventView::Text(option_view(*found)),
            ),
    {
        let full = book_title(found, self.id.as_str());
        self.name = sanitize_file_name(full.as_str());
        self.stage = BookStage::MakingPageDir;
        BookAction::CreatePageDir { name: self.name.clone() }
    }

    fn begin_pages(&mut self) -> (r: BookAction)
        requires
            old(self)@.stage is MakingPageDir,
        ensures
            (final(self)@, r@) == book_step(old(self)@, BookEventView::Done),
    {
        match plan_range(self.options.from, self.options.pages, self.total) {
            Some(range) => {
                self.range = range;
                if range.first <= range.last {
                    self.show(range.first)
                } else {
                    self.close()
                }
            },
            None => {
                let first: u32 = if self.options.from < 1 {
                    1
                } else {
                    self.options.from
                };
                self.end(Err(BookError::StartBeyondEnd { first, total: self.total }))
            },
        }
    }

    fn dump_or_convert(&mut self, n: u32, svg: String) -> (r: BookAction)
        requires
            old(self)@.stage == (BookStage::Extracting { n }),
        ensures
            (final(self)@, r@) == book_step(old(self)@, BookEventView::Svg(svg@)),
    {
        if self.options.dump_svg {
            self.svg = svg.clone();
            self.stage = BookStage::DumpingSvg { n };
            BookAction::WriteSvg { n, file: page_file_name(n, "svg"), svg }
        } else {
            self.svg = svg;
            self.convert(n)
        }
    }

    fn merge(&mut self) -> (r: BookAction)
        requires
            old(self)@.stage is MakingBookDir,
        ensures
            (final(self)@, r@) == book_step(old(self)@, BookEventView::Done),
    {
        match try_assemble_pdf(self.rendered.as_slice()) {
            Some(bytes) => {
                self.stage = BookStage::SavingBook;
                let file = book_file_name(
                    self.name.as_str(),
                    self.range.first,
                    self.range.last,
                    self.total,
                );
                BookAction::WriteBook { file, bytes }
            },
            None => self.end(Err(BookError::TooManyObjects)),
        }
    }

    /// Takes what came of the last action and tells what is to be done next.
    pub fn step(&mut self, event: BookEvent) -> (r: BookAction)
        requires
            book_expects(old(self)@.stage, event@),
        ensures
            (final(self)@, r@) == book_step(old(self)@, event@),
    {
        match (self.stage, event) {
            (BookStage::Turning { n }, BookEvent::Failed) => self.show_next(n),
            (BookStage::Turning { n }, _) => {
                self.stage = BookStage::Extracting { n };
                BookAction::ExtractSvg { n, selector: page_selector(n) }
            },
            (BookStage::Extracting { n }, BookEvent::Svg(extracted)) => self.dump_or_convert(
                n,
                extracted.svg,
            ),
            (BookStage::Extracting { n }, _) => self.show_next(n),
            (BookStage::DumpingSvg { n }, _) => self.convert(n),
            (BookStage::Converting { n }, BookEvent::Converted(Ok(page))) => self.save_page(
                n,
                page,
            ),
            (BookStage::Converting { n }, _) => self.show_next(n),
            (BookStage::SavingPage { n }, _) => self.show_next(n),
            (BookStage::Naming, BookEvent::Text(found)) => self.name(&found),
            (BookStage::Naming, _) => self.name(&None),
            (BookStage::Counting, BookEvent::Text(text)) => self.count(&text),
            (_, BookEvent::Failed) => self.end(Err(BookError::Outside)),
            (BookStage::OpeningTab, _) => self.open(),
            (BookStage::Loading, _) => {
                self.stage = BookStage::Counting;
                BookAction::ReadPageCount
            },
            (BookStage::MakingPageDir, _) => self.begin_pages(),
            (BookStage::ClosingTab, _) => {
                if self.options.no_merge {
                    self.end(Ok(()))
                } else if self.rendered.len() == 0 {
                    self.end(Err(BookError::NoPages))
                } else {
                    self.stage = BookStage::MakingBookDir;
                    BookAction::CreateBookDir
                }
            },
            (BookStage::MakingBookDir, _) => self.merge(),
            (BookStage::SavingBook, _) => self.end(Ok(())),
            (_, _) => self.end(Err(BookError::Outside)),
        }
    }

    /// Takes what came of the last action, converts the picture of a page where
    /// that is what follows, and tells what is to be done next. The text with it
    /// says why a page was not converted. A picture on which the conversion panics is
    /// left out; [`BookJob::step`] takes the outcome of any conversion.
    pub fn advance(&mut self, event: BookEvent, options: &Options<'static>) -> (r: (
        BookAction,
        Option<String>,
    ))
        requires
            book_expects(old(self)@.stage, event@),
            book_step(old(self)@, event@).1 matches BookActionView::Convert { n, svg }
                ==> rendering_returns(svg, *options),
        ensures
            ({
                let (s, action) = book_step(old(self)@, event@);
                match action {
                    BookActionView::Convert { n, svg } => may_follow_conversion(
                        s,
                        svg,
                        *options,
                        (final(self)@, r.0@),
                        option_view(r.1),
                    ),
                    _ => (final(self)@, r.0@) == (s, action) && r.1 is None,
                }
            }),
    {
        match self.step(event) {
            BookAction::Convert { n: _, svg } => {
                let converted = render_svg(svg.as_str(), options);
                let ghost outcome = rendered_view(converted);
                let note = match &converted {
                    Ok(_) => None,
                    Err(error) => Some(error.message()),
                };
                let ghost before = self@;
                let action = self.step(BookEvent::Converted(converted));
                assert(may_be_rendered(svg@, *options, outcome));
                assert(may_follow_conversion(
                    before,
                    svg@,
                    *options,
                    (self@, action@),
                    option_view(note),
                ));
                (action, note)
            },
            action => (action, None),
        }
    }

    /// What is told of an error; nothing where it came from outside, which tells of
    /// it itself, or where the numbers of the objects ran out.
    pub fn message(&self, error: BookError) -> (r: Option<String>)
        ensures
            option_view(r) == error_message(self@, error),
    {
        match error {
            BookError::NoBookId => Some(
                append_text("не удалось извлечь id книги из ссылки: ", self.link.as_str()),
            ),
            BookError::NoPageCount => Some(
                append_text("не удалось определить число страниц для ", self.link.as_str()),
            ),
            BookError::StartBeyondEnd { first, total } => {
                let mut r: String = "--from ".to_owned();
                push_decimal(&mut r, first);
                r.append(" больше, чем страниц в книге (");
                push_decimal(&mut r, total);
                r.append(")");
                Some(r)
            },
            BookError::NoPages => {
                let mut r: String = "ни одна страница книги ".to_owned();
                r.append(self.id.as_str());
                r.append(" не была получена");
                Some(r)
            },
            BookError::TooManyObjects => None,
            BookError::Outside => None,
        }
    }

    /// The pages that are fetched.
    pub fn range(&self) -> (r: PageRange)
        ensures
            r == self@.range,
    {
        self.range
    }

    /// How many pages the book has.
    pub fn total(&self) -> (r: u32)
        ensures
            r == self@.total,
    {
        self.total
    }
}

/// The page that rendering came to, if it did.
pub open spec fn page_of(outcome: Result<PageView, RenderError>) -> Option<PageView> {
    match outcome {
        Ok(page) => Some(page),
        Err(_) => None,
    }
}

/// What is told of a page that was not converted.
pub open spec fn note_of(outcome: Result<PageView, RenderError>) -> Option<Seq<char>> {
    match outcome {
        Ok(_) => None,
        Err(error) => Some(error.spec_message()),
    }
}

/// Whether `next` and `note` can follow where the work stands at `s` and `svg` is
/// converted: they are what follows on one of the outcomes that can come of it.
pub open spec fn may_follow_conversion(
    s: BookState,
    svg: Seq<char>,
    options: Options<'static>,
    next: (BookState, BookActionView),
    note: Option<Seq<char>>,
) -> bool {
    exists|outcome: Result<PageView, RenderError>| #[trigger]
        may_be_rendered(svg, options, outcome) && next == book_step(
            s,
            BookEventView::Converted(page_of(outcome)),
        ) && note == note_of(outcome)
}

/// What is told of an error.
pub open spec fn error_message(s: BookState, error: BookError) -> Option<Seq<char>> {
    match error {
        BookError::NoBookId => Some("не удалось извлечь id книги из ссылки: "@ + s.link),
        BookError::NoPageCount => Some("не удалось определить число страниц для "@ + s.link),
        BookError::StartBeyondEnd { first, total } => Some(
            "--from "@ + decimal(first as nat) + " больше, чем страниц в книге ("@ + decimal(
                total as nat,
            ) + ")"@,
        ),
        BookError::NoPages => Some(
            "ни одна страница книги "@ + s.id + " не была получена"@,
        ),
        BookError::TooManyObjects => None,
        BookError::Outside => None,
    }
}

/// Where the work stands after `events`, and all that was to be done so far.
pub open spec fn book_run(link: Seq<char>, options: BookOptions, events: Seq<BookEventView>) -> (
    BookState,
    Seq<BookActionView>,
)
    decreases events.len(),
{
    if events.len() == 0 {
        (book_start(link, options), seq![BookActionView::OpenTab])
    } else {
        let (s, actions) = book_run(link, options, events.drop_last());
        let (next, action) = book_step(s, events.last());
        (next, actions.push(action))
    }
}

/// Whether each of `events` can come of what is being waited for when it comes.
pub open spec fn book_accepts(
    link: Seq<char>,
    options: BookOptions,
    events: Seq<BookEventView>,
) -> bool
    decreases events.len(),
{
    events.len() > 0 ==> {
        &&& book_accepts(link, options, events.drop_last())
        &&& book_expects(book_run(link, options, events.drop_last()).0.stage, events.last())
    }
}

/// The pages that are turned to in `actions`, in order.
pub open spec fn pages_shown(actions: Seq<BookActionView>) -> Seq<u32>
    decreases actions.len(),
{
    if actions.len() == 0 {
        seq![]
    } else {
        let before = pages_shown(actions.drop_last());
        match actions.last() {
            BookActionView::ShowPage { n, .. } => before.push(n),
            _ => before,
        }
    }
}

/// The pages that came of conversions in `events`, in order.
pub open spec fn pages_converted(events: Seq<BookEventView>) -> Seq<PageView>
    decreases events.len(),
{
    if events.len() == 0 {
        seq![]
    } else {
        let before = pages_converted(events.drop_last());
        match events.last() {
            BookEventView::Converted(Some(page)) => before.push(page),
            _ => before,
        }
    }
}

/// The pages whose files are written in `actions`, in order.
pub open spec fn pages_written(actions: Seq<BookActionView>) -> Seq<u32>
    decreases actions.len(),
{
    if actions.len() == 0 {
        seq![]
    } else {
        let before = pages_written(actions.drop_last());
        match actions.last() {
            BookActionView::WritePage { n, .. } => before.push(n),
            _ => before,
        }
    }
}

/// Whether the pages stand in ascending order, none of them twice.
pub open spec fn is_ascending(pages: Seq<u32>) -> bool {
    forall|i: int, j: int|
        0 <= i < j < pages.len() ==> #[trigger] pages[i] < #[trigger] pages[j]
}

/// The page that is being worked on.
pub open spec fn page_at(stage: BookStage) -> Option<u32> {
    match stage {
        BookStage::Turning { n } => Some(n),
        BookStage::Extracting { n } => Some(n),
        BookStage::DumpingSvg { n } => Some(n),
        BookStage::Converting { n } => Some(n),
        BookStage::SavingPage { n } => Some(n),
        _ => None,
    }
}

/// Whether all pages have been worked on.
pub open spec fn is_past_pages(stage: BookStage) -> bool {
    stage is ClosingTab || stage is MakingBookDir || stage is SavingBook
}

/// The first `k` pages of a range.
pub open spec fn pages_from(first: u32, k: nat) -> Seq<u32> {
    Seq::new(k, |i: int| (first + i) as u32)
}

/// How many pages a range has.
pub open spec fn pages_in(range: PageRange) -> nat {
    if range.first <= range.last {
        (range.last - range.first + 1) as nat
    } else {
        0
    }
}

/// What holds of the work at any time.
spec fn book_inv(
    link: Seq<char>,
    options: BookOptions,
    events: Seq<BookEventView>,
    s: BookState,
    actions: Seq<BookActionView>,
) -> bool {
    let shown = pages_shown(actions);
    let written = pages_written(actions);
    &&& s.link == link
    &&& is_ascending(written)
    &&& forall|i: int|
        0 <= i < written.len() ==> shown.len() > 0 && #[trigger] written[i] <= shown.last()
    &&& page_at(s.stage) is Some && !(s.stage is SavingPage) ==> forall|i: int|
        0 <= i < written.len() ==> #[trigger] written[i] < shown.last()
    &&& shown.len() > 0 ==> planned(options.from, options.pages, s.total) == Some(s.range)
    &&& s.stage is MakingBookDir <==> actions.last() is CreateBookDir
    &&& s.options == options
    &&& actions.len() == events.len() + 1
    &&& page_at(s.stage) matches Some(n) ==> {
        &&& planned(options.from, options.pages, s.total) == Some(s.range)
        &&& s.range.first <= n <= s.range.last
        &&& shown == pages_from(s.range.first, (n - s.range.first + 1) as nat)
    }
    &&& is_past_pages(s.stage) ==> {
        &&& planned(options.from, options.pages, s.total) == Some(s.range)
        &&& shown == pages_from(s.range.first, pages_in(s.range))
    }
    &&& s.stage is Ended ==> {
        &&& shown.len() <= pages_in(s.range)
        &&& shown == pages_from(s.range.first, shown.len())
    }
    &&& page_at(s.stage) is None && !is_past_pages(s.stage) && !(s.stage is Ended) ==> {
        &&& shown.len() == 0
        &&& s.range == (PageRange { first: 1, last: 0 })
        &&& pages_converted(events).len() == 0
    }
    &&& !(s.stage is Ended) ==> s.rendered == (if options.no_merge {
        seq![]
    } else {
        pages_converted(events)
    })
    &&& s.stage is Ended <==> actions.last() is Finish
    &&& s.stage is MakingBookDir || s.stage is SavingBook ==> !options.no_merge
        && s.rendered.len() > 0
    &&& s.stage is ClosingTab <==> actions.last() is CloseTab
    &&& s.stage is SavingBook <==> actions.last() is WriteBook
    &&& actions.last() == (BookActionView::Finish { result: Ok(()) }) ==> {
        &&& planned(options.from, options.pages, s.total) == Some(s.range)
        &&& shown == pages_from(s.range.first, pages_in(s.range))
        &&& events.len() > 0 && events.last() is Done
        &&& if options.no_merge {
            actions[actions.len() - 2] is CloseTab
        } else {
            actions[actions.len() - 2] is WriteBook
        }
    }
}

proof fn lemma_book_step(
    link: Seq<char>,
    options: BookOptions,
    before: Seq<BookEventView>,
    t: BookState,
    done: Seq<BookActionView>,
    event: BookEventView,
)
    requires
        book_inv(link, options, before, t, done),
        book_expects(t.stage, event),
    ensures
        ({
            let (s, action) = book_step(t, event);
            book_inv(link, options, before.push(event), s, done.push(action))
        }),
{
    let (s, action) = book_step(t, event);
    let events = before.push(event);
    let actions = done.push(action);
    assert(events.drop_last() =~= before);
    assert(actions.drop_last() =~= done);
    assert(actions[actions.len() - 2] == done.last());
    let shown = pages_shown(actions);
    let was = pages_shown(done);
    assert(shown == match action {
        BookActionView::ShowPage { n, .. } => was.push(n),
        _ => was,
    });
    assert(pages_converted(events) == match event {
        BookEventView::Converted(Some(page)) => pages_converted(before).push(page),
        _ => pages_converted(before),
    });
    assert(pages_written(actions) == match action {
        BookActionView::WritePage { n, .. } => pages_written(done).push(n),
        _ => pages_written(done),
    });
    match t.stage {
        BookStage::OpeningTab => {
            assert(shown =~= pages_from(s.range.first, shown.len()));
        },
        BookStage::Loading => {
            assert(shown =~= pages_from(s.range.first, shown.len()));
        },
        BookStage::Counting => {
            assert(shown =~= pages_from(s.range.first, shown.len()));
        },
        BookStage::Naming => {},
        BookStage::MakingPageDir => {
            assert(shown =~= pages_from(s.range.first, shown.len()));
        },
        BookStage::Turning { n } => {
            assert(shown =~= pages_from(s.range.first, shown.len()));
        },
        BookStage::Extracting { n } => {
            assert(shown =~= pages_from(s.range.first, shown.len()));
        },
        BookStage::DumpingSvg { n } => {},
        BookStage::Converting { n } => {
            assert(shown =~= pages_from(s.range.first, shown.len()));
        },
        BookStage::SavingPage { n } => {
            assert(shown =~= pages_from(s.range.first, shown.len()));
        },
        BookStage::ClosingTab => {},
        BookStage::MakingBookDir => {},
        BookStage::SavingBook => {},
        BookStage::Ended => {},
    }
}

proof fn lemma_book(link: Seq<char>, options: BookOptions, events: Seq<BookEventView>)
    requires
        book_accepts(link, options, events),
    ensures
        ({
            let (s, actions) = book_run(link, options, events);
            book_inv(link, options, events, s, actions)
        }),
    decreases events.len(),
{
    if events.len() == 0 {
        let (s, actions) = book_run(link, options, events);
        assert(actions.drop_last() =~= seq![]);
        assert(pages_shown(actions.drop_last()) =~= seq![]);
        assert(pages_shown(actions) =~= seq![]);
        assert(pages_written(actions.drop_last()) =~= seq![]);
        assert(pages_written(actions) =~= seq![]);
        assert(s.rendered =~= seq![]);
        assert(pages_converted(events) =~= seq![]);
    } else {
        let before = events.drop_last();
        lemma_book(link, options, before);
        let (t, done) = book_run(link, options, before);
        lemma_book_step(link, options, before, t, done, events.last());
        assert(before.push(events.last()) =~= events);
    }
}

/// The pages that are asked for are turned to in ascending order, each of them
/// once, without a gap, and no other page. When the tab is closed after them, all
/// of them were turned to.
pub proof fn pages_are_turned_in_order(
    link: Seq<char>,
    options: BookOptions,
    events: Seq<BookEventView>,
)
    requires
        book_accepts(link, options, events),
    ensures
        ({
            let (s, actions) = book_run(link, options, events);
            let shown = pages_shown(actions);
            &&& shown == pages_from(s.range.first, shown.len())
            &&& shown.len() <= pages_in(s.range)
            &&& shown.len() > 0 || is_past_pages(s.stage) ==> planned(
                options.from,
                options.pages,
                s.total,
            ) == Some(s.range)
            &&& is_past_pages(s.stage) ==> shown.len() == pages_in(s.range)
        }),
{
    lemma_book(link, options, events);
    let (s, actions) = book_run(link, options, events);
    let shown = pages_shown(actions);
    assert(shown =~= pages_from(s.range.first, shown.len()));
}

/// The files of the pages are written in ascending order, none of them twice, and
/// only those of pages that were turned to.
pub proof fn page_files_are_written_once(
    link: Seq<char>,
    options: BookOptions,
    events: Seq<BookEventView>,
)
    requires
        book_accepts(link, options, events),
    ensures
        ({
            let (s, actions) = book_run(link, options, events);
            let written = pages_written(actions);
            &&& is_ascending(written)
            &&& forall|i: int|
                0 <= i < written.len() ==> pages_shown(actions).contains(#[trigger] written[i])
        }),
    decreases events.len(),
{
    lemma_book(link, options, events);
    let (s, actions) = book_run(link, options, events);
    let written = pages_written(actions);
    let shown = pages_shown(actions);
    if events.len() == 0 {
        assert(actions.drop_last() =~= seq![]);
        assert(pages_written(actions.drop_last()) =~= seq![]);
    } else {
        let before = events.drop_last();
        page_files_are_written_once(link, options, before);
        lemma_book(link, options, before);
        let (t, done) = book_run(link, options, before);
        let (next, action) = book_step(t, events.last());
        assert(actions.drop_last() =~= done);
        assert(actions.last() == action);
        let was = pages_shown(done);
        assert forall|v: u32| was.contains(v) implies shown.contains(v) by {
            let x = choose|x: int| 0 <= x < was.len() && was[x] == v;
            assert(shown[x] == v);
        }
        assert forall|i: int| 0 <= i < written.len() implies shown.contains(
            #[trigger] written[i],
        ) by {
            if i < pages_written(done).len() {
                assert(written[i] == pages_written(done)[i]);
                assert(was.contains(pages_written(done)[i]));
            } else {
                assert(action is WritePage);
                let n = page_at(t.stage)->0;
                assert(was[was.len() - 1] == n);
            }
        }
    }
}

/// The files of the pages that are written in `actions`, in order.
pub open spec fn page_files(actions: Seq<BookActionView>) -> Seq<BookActionView>
    decreases actions.len(),
{
    if actions.len() == 0 {
        seq![]
    } else {
        let before = page_files(actions.drop_last());
        if actions.last() is WritePage {
            before.push(actions.last())
        } else {
            before
        }
    }
}

/// Whether `file` is the writing of `page` under the number `n`.
pub open spec fn is_file_of(file: BookActionView, n: u32, page: PageView) -> bool {
    document_file(seq![page]) matches Some(bytes) && file == (BookActionView::WritePage {
        n,
        file: page_file(n as nat, "pdf"@),
        bytes,
        size: page.size,
    })
}

/// The files of the pages and the pages of the book are the same pages in the same
/// order: as many files are written as pages are converted, and the one that is
/// written as the `i`-th, under the `i`-th of the ascending numbers, holds the page
/// that is the `i`-th of the book. Only where the work ends at a page whose document
/// would need more numbers than there are was that page converted but not written.
pub proof fn page_files_are_the_pages_of_the_book(
    link: Seq<char>,
    options: BookOptions,
    events: Seq<BookEventView>,
)
    requires
        book_accepts(link, options, events),
        !(events.len() > 0 && events.last() is Converted && book_run(
            link,
            options,
            events,
        ).0.stage is Ended),
    ensures
        ({
            let actions = book_run(link, options, events).1;
            let pages = pages_converted(events);
            let files = page_files(actions);
            let numbers = pages_written(actions);
            &&& numbers.len() == pages.len()
            &&& files.len() == pages.len()
            &&& forall|i: int|
                0 <= i < pages.len() ==> is_file_of(#[trigger] files[i], numbers[i], pages[i])
        }),
    decreases events.len(),
{
    let actions = book_run(link, options, events).1;
    if events.len() == 0 {
        assert(actions.drop_last() =~= seq![]);
        assert(page_files(actions.drop_last()) =~= seq![]);
        assert(pages_written(actions.drop_last()) =~= seq![]);
    } else {
        let before = events.drop_last();
        let (s, done) = book_run(link, options, before);
        let (next, action) = book_step(s, events.last());
        page_files_are_the_pages_of_the_book(link, options, before);
        assert(actions == done.push(action));
        assert(actions.drop_last() =~= done);
        let pages = pages_converted(events);
        let files = page_files(actions);
        let numbers = pages_written(actions);
        lemma_page_file(s, events.last());
        assert forall|i: int| 0 <= i < pages.len() implies is_file_of(
            #[trigger] files[i],
            numbers[i],
            pages[i],
        ) by {
            if i < pages_converted(before).len() {
                assert(files[i] == page_files(done)[i]);
            }
        }
    }
}

/// A page is written exactly where it was converted, unless that ends the work.
proof fn lemma_page_file(s: BookState, event: BookEventView)
    requires
        book_expects(s.stage, event),
    ensures
        ({
            let (next, action) = book_step(s, event);
            match (event, action) {
                (BookEventView::Converted(Some(page)), BookActionView::WritePage { n, .. }) =>
                    is_file_of(action, n, page),
                (BookEventView::Converted(Some(page)), _) => next.stage is Ended,
                _ => !(action is WritePage),
            }
        }),
{
}

/// A page that was converted is written to its own file, as a document of that
/// page alone, under the number of the page; it is kept for the book unless there
/// is to be none.
pub proof fn converted_page_is_written(s: BookState, n: u32, page: PageView)
    requires
        s.stage == (BookStage::Converting { n }),
        document_file(seq![page]) is Some,
    ensures
        ({
            let (next, action) = book_step(s, BookEventView::Converted(Some(page)));
            &&& action == (BookActionView::WritePage {
                n,
                file: page_file(n as nat, "pdf"@),
                bytes: document_file(seq![page])->0,
                size: page.size,
            })
            &&& next.rendered == (if s.options.no_merge {
                s.rendered
            } else {
                s.rendered.push(page)
            })
        }),
{
}

/// Whatever goes wrong with a page, the work goes on: where its picture does not
/// appear, is not taken out or is not converted, or its file is not written, the
/// next page is turned to, or the tab is closed after the last; where the picture
/// is not written as it is, it is converted all the same. The pages that were
/// kept for the book stay.
pub proof fn page_troubles_are_passed_over(s: BookState, event: BookEventView, n: u32)
    requires
        page_at(s.stage) == Some(n),
        book_expects(s.stage, event),
        event is Failed || event == BookEventView::Converted(None),
    ensures
        ({
            let (next, action) = book_step(s, event);
            &&& next.rendered == s.rendered
            &&& if s.stage is DumpingSvg {
                action == (BookActionView::Convert { n, svg: s.svg })
            } else if n < s.range.last {
                &&& next.stage == (BookStage::Turning { n: (n + 1) as u32 })
                &&& action == (BookActionView::ShowPage {
                    n: (n + 1) as u32,
                    number: decimal((n + 1) as nat),
                    selector: selector((n + 1) as nat),
                })
            } else {
                next.stage is ClosingTab && action is CloseTab
            }
        }),
{
}

/// The document of the book holds exactly the pages that were converted, in the
/// order in which they were. It is written only where a document of the book is
/// asked for and at least one page was converted. Its file is named after the
/// book, and after the pages that were asked for where these are not all.
pub proof fn book_holds_converted_pages(
    link: Seq<char>,
    options: BookOptions,
    events: Seq<BookEventView>,
)
    requires
        book_accepts(link, options, events),
        book_run(link, options, events).1.last() is WriteBook,
    ensures
        ({
            let (s, actions) = book_run(link, options, events);
            let pages = pages_converted(events);
            &&& !options.no_merge
            &&& pages.len() > 0
            &&& document_file(pages) is Some
            &&& actions.last() == (BookActionView::WriteBook {
                file: book_file(
                    s.name,
                    s.range.first as nat,
                    s.range.last as nat,
                    s.total as nat,
                ),
                bytes: document_file(pages)->0,
            })
        }),
{
    lemma_book(link, options, events);
    if events.len() > 0 {
        let before = events.drop_last();
        lemma_book(link, options, before);
        let (t, done) = book_run(link, options, before);
        let (next, action) = book_step(t, events.last());
        assert(book_run(link, options, events) == (next, done.push(action)));
        assert(done.push(action).last() == action);
        assert(t.stage is MakingBookDir);
    }
}

/// The work ends well only after all pages were turned to and the tab was closed,
/// and, where a document of the book is asked for, that document was written.
pub proof fn book_ends_well(link: Seq<char>, options: BookOptions, events: Seq<BookEventView>)
    requires
        book_accepts(link, options, events),
        book_run(link, options, events).1.last() == (BookActionView::Finish { result: Ok(()) }),
    ensures
        ({
            let (s, actions) = book_run(link, options, events);
            &&& planned(options.from, options.pages, s.total) == Some(s.range)
            &&& pages_shown(actions) == pages_from(s.range.first, pages_in(s.range))
            &&& events.last() is Done
            &&& if options.no_merge {
                actions[actions.len() - 2] is CloseTab
            } else {
                actions[actions.len() - 2] is WriteBook
            }
        }),
{
    lemma_book(link, options, events);
}

/// Pictures are written as they are only where that is asked for, and the book is
/// written, or a directory made for it, only where it is not asked to be left
/// out.
pub proof fn only_what_is_asked_for(
    link: Seq<char>,
    options: BookOptions,
    events: Seq<BookEventView>,
)
    requires
        book_accepts(link, options, events),
    ensures
        ({
            let actions = book_run(link, options, events).1;
            forall|i: int|
                0 <= i < actions.len() ==> {
                    &&& (#[trigger] actions[i] is WriteSvg ==> options.dump_svg)
                    &&& (actions[i] is CreateBookDir || actions[i] is WriteBook
                        ==> !options.no_merge)
                }
        }),
    decreases events.len(),
{
    if events.len() > 0 {
        let before = events.drop_last();
        only_what_is_asked_for(link, options, before);
        lemma_book(link, options, before);
        lemma_book(link, options, events);
        let (t, done) = book_run(link, options, before);
        let (next, action) = book_step(t, events.last());
        let actions = book_run(link, options, events).1;
        assert(actions == done.push(action));
        assert forall|i: int| 0 <= i < actions.len() implies {
            &&& (#[trigger] actions[i] is WriteSvg ==> options.dump_svg)
            &&& (actions[i] is CreateBookDir || actions[i] is WriteBook ==> !options.no_merge)
        } by {
            if i < done.len() {
                assert(actions[i] == done[i]);
            } else {
                assert(actions[i] == actions.last());
            }
        }
    }
}

/// A picture that was taken out is written as it is under the number of its page
/// where that is asked for, before it is converted and whatever comes of that;
/// then, whether or not it was written, it is converted.
pub proof fn pictures_are_kept(s: BookState, n: u32, svg: Seq<char>, answer: BookEventView)
    requires
        s.stage == (BookStage::Extracting { n }),
        s.options.dump_svg,
        answer is Done || answer is Failed,
    ensures
        ({
            let (dumping, first) = book_step(s, BookEventView::Svg(svg));
            let (converting, second) = book_step(dumping, answer);
            &&& first == (BookActionView::WriteSvg { n, file: page_file(n as nat, "svg"@), svg })
            &&& book_expects(dumping.stage, answer)
            &&& second == (BookActionView::Convert { n, svg })
            &&& converting == to_conversion(BookState { svg, ..s }, n).0
        }),
{
}

/// The same wishes, but for whether pictures are kept as they are.
pub open spec fn with_dumps(options: BookOptions, dump_svg: bool) -> BookOptions {
    BookOptions { dump_svg, ..options }
}

/// `events` without the answers to the writing of pictures.
pub open spec fn without_dump_answers(
    link: Seq<char>,
    options: BookOptions,
    events: Seq<BookEventView>,
) -> Seq<BookEventView>
    decreases events.len(),
{
    if events.len() == 0 {
        seq![]
    } else {
        let before = without_dump_answers(link, options, events.drop_last());
        if book_run(link, options, events.drop_last()).1.last() is WriteSvg {
            before
        } else {
            before.push(events.last())
        }
    }
}

/// `actions` without the writing of pictures.
pub open spec fn without_dumps(actions: Seq<BookActionView>) -> Seq<BookActionView>
    decreases actions.len(),
{
    if actions.len() == 0 {
        seq![]
    } else {
        let before = without_dumps(actions.drop_last());
        if actions.last() is WriteSvg {
            before
        } else {
            before.push(actions.last())
        }
    }
}

/// Keeping the pictures as they are changes nothing else. Let `events` be what
/// came of a run with the pictures kept. With the same events, but for the answers
/// to the writing of pictures, a run without them does the same, but for the
/// writing of pictures: the same pages are turned to, the same documents are
/// written, byte by byte, under the same names, and the work stands at the same
/// point and ends with the same result. Only while a picture is being written is
/// the other run one action ahead, at its conversion. It does not matter whether
/// the writing failed.
pub proof fn dumps_change_nothing_else(
    link: Seq<char>,
    options: BookOptions,
    events: Seq<BookEventView>,
)
    requires
        book_accepts(link, with_dumps(options, true), events),
    ensures
        ({
            let kept = with_dumps(options, true);
            let plain = with_dumps(options, false);
            let (s, actions) = book_run(link, kept, events);
            let others = without_dump_answers(link, kept, events);
            let (t, done) = book_run(link, plain, others);
            &&& book_accepts(link, plain, others)
            &&& t == without_dump(s)
            &&& done == (match s.stage {
                BookStage::DumpingSvg { n } => without_dumps(actions).push(
                    BookActionView::Convert { n, svg: s.svg },
                ),
                _ => without_dumps(actions),
            })
        }),
    decreases events.len(),
{
    let kept = with_dumps(options, true);
    let plain = with_dumps(options, false);
    let (s, actions) = book_run(link, kept, events);
    let others = without_dump_answers(link, kept, events);
    lemma_dumping(link, kept, events);
    if events.len() == 0 {
        assert(actions.drop_last() =~= seq![]);
        assert(without_dumps(actions.drop_last()) =~= seq![]);
        assert(without_dumps(actions) =~= actions);
    } else {
        let before = events.drop_last();
        let event = events.last();
        dumps_change_nothing_else(link, options, before);
        lemma_dumping(link, kept, before);
        let (u, was) = book_run(link, kept, before);
        lemma_dump_step(u, event);
        let (next, action) = book_step(u, event);
        assert(actions == was.push(action));
        assert(actions.drop_last() =~= was);
        let earlier = without_dump_answers(link, kept, before);
        let (v, made) = book_run(link, plain, earlier);
        if !(u.stage is DumpingSvg) {
            assert(others == earlier.push(event));
            assert(others.drop_last() =~= earlier);
            assert(others.last() == event);
            let (w, other) = book_step(v, event);
            assert(book_run(link, plain, others) == (w, made.push(other)));
        }
    }
}

/// Where a run without the pictures stands when one with them stands at `s`.
pub open spec fn without_dump(s: BookState) -> BookState {
    let plain = BookState { options: with_dumps(s.options, false), ..s };
    match s.stage {
        BookStage::DumpingSvg { n } => to_conversion(plain, n).0,
        _ => plain,
    }
}

/// A step with the pictures kept, and the same step without.
proof fn lemma_dump_step(s: BookState, event: BookEventView)
    requires
        s.options.dump_svg,
        book_expects(s.stage, event),
    ensures
        ({
            let (next, action) = book_step(s, event);
            let (other, other_action) = book_step(without_dump(s), event);
            match s.stage {
                BookStage::DumpingSvg { n } => {
                    &&& without_dump(next) == without_dump(s)
                    &&& !(next.stage is DumpingSvg)
                    &&& action == (BookActionView::Convert { n, svg: s.svg })
                },
                _ => {
                    &&& book_expects(without_dump(s).stage, event)
                    &&& without_dump(next) == other
                    &&& other_action == (match next.stage {
                        BookStage::DumpingSvg { n } => BookActionView::Convert { n, svg: next.svg },
                        _ => action,
                    })
                },
            }
        }),
{
}

/// The wishes stay, and a picture is being written exactly where that was the last
/// thing to be done.
proof fn lemma_dumping(link: Seq<char>, options: BookOptions, events: Seq<BookEventView>)
    ensures
        book_run(link, options, events).0.options == options,
        book_run(link, options, events).0.stage is DumpingSvg <==> book_run(
            link,
            options,
            events,
        ).1.last() is WriteSvg,
    decreases events.len(),
{
    if events.len() > 0 {
        lemma_dumping(link, options, events.drop_last());
        let (s, actions) = book_run(link, options, events.drop_last());
        let (next, action) = book_step(s, events.last());
        assert(actions.push(action).last() == action);
    }
}

/// How far the work is from its end, apart from the pages.
pub open spec fn phases_left(stage: BookStage) -> nat {
    match stage {
        BookStage::OpeningTab => 9,
        BookStage::Loading => 8,
        BookStage::Counting => 7,
        BookStage::Naming => 6,
        BookStage::MakingPageDir => 5,
        BookStage::Turning { .. } => 4,
        BookStage::Extracting { .. } => 4,
        BookStage::DumpingSvg { .. } => 4,
        BookStage::Converting { .. } => 4,
        BookStage::SavingPage { .. } => 4,
        BookStage::ClosingTab => 3,
        BookStage::MakingBookDir => 2,
        BookStage::SavingBook => 1,
        BookStage::Ended => 0,
    }
}

/// How many steps on pages may still come.
pub open spec fn page_steps_left(s: BookState) -> int {
    match s.stage {
        BookStage::Turning { n } => 5 * (s.range.last - n) + 4,
        BookStage::Extracting { n } => 5 * (s.range.last - n) + 3,
        BookStage::DumpingSvg { n } => 5 * (s.range.last - n) + 2,
        BookStage::Converting { n } => 5 * (s.range.last - n) + 1,
        BookStage::SavingPage { n } => 5 * (s.range.last - n),
        _ => 0,
    }
}

/// Every step brings the work nearer to its end, where nothing is waited for any
/// more: either a phase of it is over, or a step on the pages is.
pub proof fn book_comes_to_an_end(s: BookState, event: BookEventView)
    requires
        book_expects(s.stage, event),
        page_at(s.stage) matches Some(n) ==> n <= s.range.last,
    ensures
        ({
            let (next, action) = book_step(s, event);
            &&& phases_left(next.stage) <= phases_left(s.stage)
            &&& phases_left(next.stage) == phases_left(s.stage) ==> 0 <= page_steps_left(next)
                < page_steps_left(s)
            &&& page_at(next.stage) matches Some(n) ==> n <= next.range.last
            &&& next.stage is Ended <==> action is Finish
        }),
{
}

/// What is done is what its view says, text by text and byte by byte.
pub proof fn book_actions_stand_for_themselves(action: BookAction)
    ensures
        match action {
            BookAction::OpenTab => action@ == BookActionView::OpenTab,
            BookAction::Goto { url } => action@ == (BookActionView::Goto { url: url@ }),
            BookAction::ReadPageCount => action@ == BookActionView::ReadPageCount,
            BookAction::ReadTitle => action@ == BookActionView::ReadTitle,
            BookAction::CreatePageDir { name } => action@ == (BookActionView::CreatePageDir {
                name: name@,
            }),
            BookAction::ShowPage { n, number, selector } => action@ == (BookActionView::ShowPage {
                n,
                number: number@,
                selector: selector@,
            }),
            BookAction::ExtractSvg { n, selector } => action@ == (BookActionView::ExtractSvg {
                n,
                selector: selector@,
            }),
            BookAction::WriteSvg { n, file, svg } => action@ == (BookActionView::WriteSvg {
                n,
                file: file@,
                svg: svg@,
            }),
            BookAction::Convert { n, svg } => action@ == (BookActionView::Convert { n, svg: svg@ }),
            BookAction::WritePage { n, file, bytes, size } => action@ == (
            BookActionView::WritePage { n, file: file@, bytes: bytes@, size }),
            BookAction::CloseTab => action@ == BookActionView::CloseTab,
            BookAction::CreateBookDir => action@ == BookActionView::CreateBookDir,
            BookAction::WriteBook { file, bytes } => action@ == (BookActionView::WriteBook {
                file: file@,
                bytes: bytes@,
            }),
            BookAction::Finish { result } => action@ == (BookActionView::Finish { result }),
        },
{
}

/// What came is what its view says: the text that was told, the picture, and the
/// page.
pub proof fn book_events_stand_for_themselves(event: BookEvent)
    ensures
        match event {
            BookEvent::Done => event@ == BookEventView::Done,
            BookEvent::Failed => event@ == BookEventView::Failed,
            BookEvent::Text(Some(text)) => event@ == BookEventView::Text(Some(text@)),
            BookEvent::Text(None) => event@ == BookEventView::Text(None),
            BookEvent::Svg(extracted) => event@ == BookEventView::Svg(extracted.svg@),
            BookEvent::Converted(Ok(page)) => event@ == BookEventView::Converted(Some(page@)),
            BookEvent::Converted(Err(_)) => event@ == BookEventView::Converted(None),
        },
{
}

/// A run starts at the link with nothing known of the book, and goes on with any
/// event that is waited for: a text where one was to be told, a picture where one
/// was to be taken out, a page where one was to be converted, or that the last thing
/// was done or failed.
pub proof fn books_go_on(
    link: Seq<char>,
    options: BookOptions,
    events: Seq<BookEventView>,
    event: BookEventView,
)
    ensures
        ({
            let (s, actions) = book_run(link, options, Seq::empty());
            &&& s.link == link
            &&& s.options == options
            &&& s.stage == BookStage::OpeningTab
            &&& s.rendered.len() == 0
            &&& actions == seq![BookActionView::OpenTab]
        }),
        book_accepts(link, options, Seq::empty()),
        ({
            let (s, actions) = book_run(link, options, events);
            let (next, action) = book_step(s, event);
            let awaited = match s.stage {
                BookStage::Counting => event is Text || event is Failed,
                BookStage::Naming => event is Text || event is Failed,
                BookStage::Extracting { n } => event is Svg || event is Failed,
                BookStage::Converting { n } => event is Converted,
                BookStage::Ended => false,
                _ => event is Done || event is Failed,
            };
            &&& book_run(link, options, events.push(event)) == (next, actions.push(action))
            &&& book_accepts(link, options, events.push(event)) <==> book_accepts(
                link,
                options,
                events,
            ) && awaited
        }),
{
    assert(events.push(event).drop_last() =~= events);
}

/// The reader is opened at the link itself, whatever it is, as long as it tells the
/// number of the book.
pub proof fn the_link_is_opened(s: BookState)
    ensures
        s.stage is OpeningTab ==> book_step(s, BookEventView::Done) == (match id_in_link(s.link) {
            Some(id) => (
                BookState { stage: BookStage::Loading, id, ..s },
                BookActionView::Goto { url: s.link },
            ),
            None => (
                BookState { stage: BookStage::Ended, ..s },
                BookActionView::Finish { result: Err(BookError::NoBookId) },
            ),
        }),
        s.stage is Loading ==> book_step(s, BookEventView::Done) == (
            BookState { stage: BookStage::Counting, ..s },
            BookActionView::ReadPageCount,
        ),
{
}

/// The book has as many pages as the digits that the reader tells make up; where they
/// make up none, or more than a number of 32 bits, the work ends.
pub proof fn the_book_is_measured(s: BookState, text: Seq<char>)
    requires
        s.stage is Counting,
    ensures
        ({
            let (next, action) = book_step(s, BookEventView::Text(Some(text)));
            if 0 < digits_value(text) <= u32::MAX {
                &&& next == (BookState { stage: BookStage::Naming, total: next.total, ..s })
                &&& next.total as nat == digits_value(text)
                &&& action == BookActionView::ReadTitle
            } else {
                &&& next == (BookState { stage: BookStage::Ended, ..s })
                &&& action == (BookActionView::Finish { result: Err(BookError::NoPageCount) })
            }
        }),
        book_step(s, BookEventView::Text(None)) == (
            BookState { stage: BookStage::Ended, ..s },
            BookActionView::Finish { result: Err(BookError::NoPageCount) },
        ),
{
    page_counts_are_those_of_the_digits(text, ' ');
}

/// The directory of the pages bears the title that the reader tells, made fit for a
/// file, or `book_` and the number of the book where it tells none; the same name is
/// kept for the file of the book.
pub proof fn the_book_is_named(s: BookState, found: Option<Seq<char>>)
    requires
        s.stage is Naming,
    ensures
        ({
            let name = match found {
                Some(text) => if trim(text).len() > 0 {
                    safe_name(trim(text))
                } else {
                    safe_name("book_"@ + s.id)
                },
                None => safe_name("book_"@ + s.id),
            };
            let named = (
                BookState { stage: BookStage::MakingPageDir, name, ..s },
                BookActionView::CreatePageDir { name },
            );
            &&& book_step(s, BookEventView::Text(found)) == named
            &&& found is None ==> book_step(s, BookEventView::Failed) == named
        }),
{
}

/// The first page that is turned to is the first that is asked for; where there is
/// none the tab is closed, and where the book ends before it the work does.
pub proof fn the_first_page_is_turned_to(s: BookState)
    requires
        s.stage is MakingPageDir,
    ensures
        ({
            let first: u32 = if s.options.from == 0 {
                1
            } else {
                s.options.from
            };
            let (next, action) = book_step(s, BookEventView::Done);
            if first > s.total {
                &&& next == (BookState { stage: BookStage::Ended, ..s })
                &&& action == (BookActionView::Finish {
                    result: Err(BookError::StartBeyondEnd { first, total: s.total }),
                })
            } else {
                &&& planned(s.options.from, s.options.pages, s.total) == Some(next.range)
                &&& if s.options.pages == Some(0u32) {
                    &&& next == (BookState {
                        stage: BookStage::ClosingTab,
                        range: next.range,
                        ..s
                    })
                    &&& action == BookActionView::CloseTab
                } else {
                    &&& next == (BookState {
                        stage: BookStage::Turning { n: first },
                        range: next.range,
                        ..s
                    })
                    &&& action == (BookActionView::ShowPage {
                        n: first,
                        number: decimal(first as nat),
                        selector: "#bookreadcont"@ + decimal(first as nat) + " svg"@,
                    })
                }
            }
        }),
{
}

/// No page is passed over and none is taken twice: after page `n` comes page `n` and
/// one, or the end where that was the last; by whatever way page `n` was left.
pub proof fn the_next_page_follows(s: BookState, n: u32, event: BookEventView)
    requires
        book_expects(s.stage, event),
        ({
            ||| s.stage == (BookStage::Turning { n }) && event is Failed
            ||| s.stage == (BookStage::Extracting { n }) && event is Failed
            ||| s.stage == (BookStage::Converting { n }) && event
                == BookEventView::Converted(None)
            ||| s.stage == (BookStage::SavingPage { n })
        }),
    ensures
        ({
            let (next, action) = book_step(s, event);
            &&& n < s.range.last ==> action is ShowPage && action->ShowPage_n == n + 1
                && action->ShowPage_number == decimal((n + 1) as nat) && action->ShowPage_selector
                == "#bookreadcont"@ + decimal((n + 1) as nat) + " svg"@ && next == (BookState {
                stage: BookStage::Turning { n: (n + 1) as u32 },
                ..s
            })
            &&& n >= s.range.last ==> action is CloseTab && next == (BookState {
                stage: BookStage::ClosingTab,
                ..s
            })
        }),
{
}

/// The picture of a page is taken out of the container with the number of that page,
/// which is the one that was waited for; it goes to the conversion as it is, under
/// the same number, and to a file of its own first where that is asked for.
pub proof fn the_picture_of_the_page_is_taken(s: BookState, n: u32, svg: Seq<char>)
    ensures
        s.stage == (BookStage::Turning { n }) ==> book_step(s, BookEventView::Done) == (
            BookState { stage: BookStage::Extracting { n }, ..s },
            BookActionView::ExtractSvg {
                n,
                selector: "#bookreadcont"@ + decimal(n as nat) + " svg"@,
            },
        ),
        s.stage == (BookStage::Extracting { n }) ==> book_step(s, BookEventView::Svg(svg)) == (
        if s.options.dump_svg {
            (
                BookState { stage: BookStage::DumpingSvg { n }, svg, ..s },
                BookActionView::WriteSvg { n, file: page_file(n as nat, "svg"@), svg },
            )
        } else {
            (
                BookState { stage: BookStage::Converting { n }, svg: seq![], ..s },
                BookActionView::Convert { n, svg },
            )
        }),
        s.stage == (BookStage::DumpingSvg { n }) ==> book_step(s, BookEventView::Done) == (
            BookState { stage: BookStage::Converting { n }, svg: seq![], ..s },
            BookActionView::Convert { n, svg: s.svg },
        ),
        s.stage == (BookStage::DumpingSvg { n }) ==> book_step(s, BookEventView::Failed)
            == book_step(s, BookEventView::Done),
{
}

/// A page that was converted is kept for the book, behind those before it, and is
/// written under its number as a document of its own; only where no document of it
/// can be written does the work end.
pub proof fn the_converted_page_is_kept(s: BookState, n: u32, page: PageView)
    requires
        s.stage == (BookStage::Converting { n }),
    ensures
        ({
            let (next, action) = book_step(s, BookEventView::Converted(Some(page)));
            match document(seq![page]) {
                Some(steps) => {
                    &&& next == (BookState {
                        stage: BookStage::SavingPage { n },
                        rendered: if s.options.no_merge {
                            s.rendered
                        } else {
                            s.rendered.push(page)
                        },
                        ..s
                    })
                    &&& action == (BookActionView::WritePage {
                        n,
                        file: page_file(n as nat, "pdf"@),
                        bytes: pdf_bytes(steps),
                        size: page.size,
                    })
                },
                None => {
                    &&& next == (BookState { stage: BookStage::Ended, ..s })
                    &&& action == (BookActionView::Finish {
                        result: Err(BookError::TooManyObjects),
                    })
                },
            }
        }),
{
    files_are_those_of_documents(seq![page]);
}

/// When the tab is closed the book is put together of all pages that were kept, and
/// its file says which pages were asked for. Nothing is put together exactly where
/// that is wished, or where not a single page was kept.
pub proof fn the_book_is_put_together(s: BookState)
    ensures
        s.stage is ClosingTab ==> book_step(s, BookEventView::Done) == (if s.options.no_merge {
            (
                BookState { stage: BookStage::Ended, ..s },
                BookActionView::Finish { result: Ok(()) },
            )
        } else if s.rendered == Seq::<PageView>::empty() {
            (
                BookState { stage: BookStage::Ended, ..s },
                BookActionView::Finish { result: Err(BookError::NoPages) },
            )
        } else {
            (
                BookState { stage: BookStage::MakingBookDir, ..s },
                BookActionView::CreateBookDir,
            )
        }),
        s.stage is MakingBookDir ==> book_step(s, BookEventView::Done) == (match document(
            s.rendered,
        ) {
            Some(steps) => (
                BookState { stage: BookStage::SavingBook, ..s },
                BookActionView::WriteBook {
                    file: if s.range.first == 1 && s.range.last == s.total {
                        s.name + ".pdf"@
                    } else {
                        s.name + " (стр. "@ + decimal(s.range.first as nat) + "-"@ + decimal(
                            s.range.last as nat,
                        ) + ").pdf"@
                    },
                    bytes: pdf_bytes(steps),
                },
            ),
            None => (
                BookState { stage: BookStage::Ended, ..s },
                BookActionView::Finish { result: Err(BookError::TooManyObjects) },
            ),
        }),
        s.stage is SavingBook ==> book_step(s, BookEventView::Done) == (
            BookState { stage: BookStage::Ended, ..s },
            BookActionView::Finish { result: Ok(()) },
        ),
{
    files_are_those_of_documents(s.rendered);
    if s.rendered.len() == 0 {
        assert(s.rendered =~= Seq::<PageView>::empty());
    }
}

/// Where something fails that is not about a single page or the title, the work ends
/// with that failure and nothing more is done.
pub proof fn other_failures_end_the_work(s: BookState)
    requires
        s.stage is OpeningTab || s.stage is Loading || s.stage is Counting
            || s.stage is MakingPageDir || s.stage is ClosingTab || s.stage is MakingBookDir
            || s.stage is SavingBook,
    ensures
        book_step(s, BookEventView::Failed) == (
            BookState { stage: BookStage::Ended, ..s },
            BookActionView::Finish { result: Err(BookError::Outside) },
        ),
{
}

/// The pages that count as turned to, converted and written are all those of a run,
/// in their order.
pub proof fn pages_are_counted_one_by_one(
    events: Seq<BookEventView>,
    event: BookEventView,
    actions: Seq<BookActionView>,
    action: BookActionView,
)
    ensures
        pages_converted(Seq::empty()) == Seq::<PageView>::empty(),
        pages_converted(events.push(event)) == (match event {
            BookEventView::Converted(Some(page)) => pages_converted(events).push(page),
            _ => pages_converted(events),
        }),
        pages_shown(Seq::empty()) == Seq::<u32>::empty(),
        pages_shown(actions.push(action)) == (match action {
            BookActionView::ShowPage { n, .. } => pages_shown(actions).push(n),
            _ => pages_shown(actions),
        }),
        pages_written(Seq::empty()) == Seq::<u32>::empty(),
        pages_written(actions.push(action)) == (match action {
            BookActionView::WritePage { n, .. } => pages_written(actions).push(n),
            _ => pages_written(actions),
        }),
        page_files(Seq::empty()) == Seq::<BookActionView>::empty(),
        page_files(actions.push(action)) == (if action is WritePage {
            page_files(actions).push(action)
        } else {
            page_files(actions)
        }),
        without_dumps(Seq::empty()) == Seq::<BookActionView>::empty(),
        without_dumps(actions.push(action)) == (if action is WriteSvg {
            without_dumps(actions)
        } else {
            without_dumps(actions).push(action)
        }),
{
    assert(events.push(event).drop_last() =~= events);
    assert(actions.push(action).drop_last() =~= actions);
}

/// What is told of an error names the link, the number of the book, or the pages, as
/// they are.
pub proof fn errors_are_told(s: BookState, first: u32, total: u32)
    ensures
        error_message(s, BookError::NoBookId) == Some(
            "не удалось извлечь id книги из ссылки: "@ + s.link,
        ),
        error_message(s, BookError::NoPageCount) == Some(
            "не удалось определить число страниц для "@ + s.link,
        ),
        error_message(s, BookError::StartBeyondEnd { first, total }) == Some(
            "--from "@ + decimal(first as nat) + " больше, чем страниц в книге ("@ + decimal(
                total as nat,
            ) + ")"@,
        ),
        error_message(s, BookError::NoPages) == Some(
            "ни одна страница книги "@ + s.id + " не была получена"@,
        ),
        error_message(s, BookError::TooManyObjects) is None,
        error_message(s, BookError::Outside) is None,
{
}

/// After a conversion the work goes on with the page that came of this very picture,
/// or tells why none did.
pub proof fn conversions_are_followed(
    s: BookState,
    svg: Seq<char>,
    options: Options<'static>,
    next: (BookState, BookActionView),
    note: Option<Seq<char>>,
)
    requires
        may_follow_conversion(s, svg, options, next, note),
    ensures
        match note {
            None => exists|page: PageView| #[trigger]
                may_be_rendered(svg, options, Ok(page)) && next == book_step(
                    s,
                    BookEventView::Converted(Some(page)),
                ),
            Some(text) => exists|error: RenderError| #[trigger]
                may_be_rendered(svg, options, Err(error)) && text == (match error {
                    RenderError::Parse(reason) => "usvg parse: "@ + reason@,
                    RenderError::Convert(reason) => "svg2pdf: "@ + reason@,
                }) && next == book_step(s, BookEventView::Converted(None)),
        },
{
    let outcome = choose|outcome: Result<PageView, RenderError>| #[trigger]
        may_be_rendered(svg, options, outcome) && next == book_step(
            s,
            BookEventView::Converted(page_of(outcome)),
        ) && note == note_of(outcome);
    match outcome {
        Ok(page) => {
            assert(may_be_rendered(svg, options, Ok(page)));
        },
        Err(error) => {
            assert(may_be_rendered(svg, options, Err(error)));
        },
    }
}

/// The stage and the last action of a run belong together.
proof fn lemma_last_action(link: Seq<char>, options: BookOptions, events: Seq<BookEventView>)
    ensures
        ({
            let (s, actions) = book_run(link, options, events);
            let last = actions.last();
            &&& actions.len() == events.len() + 1
            &&& s.options == options
            &&& s.link == link
            &&& s.stage is OpeningTab <==> last is OpenTab
            &&& s.stage is Loading <==> last is Goto
            &&& s.stage is Counting <==> last is ReadPageCount
            &&& s.stage is Naming <==> last is ReadTitle
            &&& s.stage is MakingPageDir <==> last is CreatePageDir
            &&& s.stage is Turning <==> last is ShowPage
            &&& s.stage is Extracting <==> last is ExtractSvg
            &&& s.stage is DumpingSvg <==> last is WriteSvg
            &&& s.stage is Converting <==> last is Convert
            &&& s.stage is SavingPage <==> last is WritePage
            &&& s.stage is ClosingTab <==> last is CloseTab
            &&& s.stage is MakingBookDir <==> last is CreateBookDir
            &&& s.stage is SavingBook <==> last is WriteBook
            &&& s.stage is Ended <==> last is Finish
            &&& s.stage matches BookStage::Turning { n } ==> last == (BookActionView::ShowPage {
                n,
                number: decimal(n as nat),
                selector: "#bookreadcont"@ + decimal(n as nat) + " svg"@,
            })
            &&& s.stage matches BookStage::Extracting { n } ==> last == (
            BookActionView::ExtractSvg {
                n,
                selector: "#bookreadcont"@ + decimal(n as nat) + " svg"@,
            })
            &&& s.stage matches BookStage::DumpingSvg { n } ==> last == (BookActionView::WriteSvg {
                n,
                file: page_file(n as nat, "svg"@),
                svg: s.svg,
            })
            &&& s.stage matches BookStage::Converting { n } ==> last->Convert_n == n
            &&& s.stage matches BookStage::SavingPage { n } ==> last->WritePage_n == n
        }),
    decreases events.len(),
{
    if events.len() > 0 {
        lemma_last_action(link, options, events.drop_last());
        let (s, actions) = book_run(link, options, events.drop_last());
        let (next, action) = book_step(s, events.last());
        assert(actions.push(action).last() == action);
    }
}

/// The picture that is taken out is that of the page which was turned to just before:
/// it has the same number, stands in the container that was waited for, and that
/// container bears the number of the page.
pub proof fn pictures_are_those_of_the_pages_turned_to(
    link: Seq<char>,
    options: BookOptions,
    events: Seq<BookEventView>,
    n: u32,
    selector: Seq<char>,
)
    requires
        book_accepts(link, options, events),
        book_run(link, options, events).1.last() == (BookActionView::ExtractSvg { n, selector }),
    ensures
        events.len() > 0,
        events.last() is Done,
        ({
            let actions = book_run(link, options, events).1;
            actions[actions.len() - 2] == (BookActionView::ShowPage {
                n,
                number: decimal(n as nat),
                selector,
            })
        }),
        selector == "#bookreadcont"@ + decimal(n as nat) + " svg"@,
{
    lemma_last_action(link, options, events);
    if events.len() > 0 {
        let before = events.drop_last();
        lemma_last_action(link, options, before);
        let (s, done) = book_run(link, options, before);
        let (next, action) = book_step(s, events.last());
        assert(book_run(link, options, events).1 == done.push(action));
        assert(done.push(action)[done.len() - 1] == done.last());
    }
}

/// What is converted under the number of a page is the picture that was taken out
/// under that number, unchanged.
pub proof fn pictures_are_converted_as_taken(
    link: Seq<char>,
    options: BookOptions,
    events: Seq<BookEventView>,
    n: u32,
    svg: Seq<char>,
)
    requires
        book_accepts(link, options, events),
        book_run(link, options, events).1.last() == (BookActionView::Convert { n, svg }),
    ensures
        ({
            let actions = book_run(link, options, events).1;
            let k = events.len() as int;
            if options.dump_svg {
                &&& k >= 2
                &&& events[k - 2] == BookEventView::Svg(svg)
                &&& actions[k - 2] is ExtractSvg && actions[k - 2]->ExtractSvg_n == n
                &&& actions[k - 1] == (BookActionView::WriteSvg {
                    n,
                    file: page_file(n as nat, "svg"@),
                    svg,
                })
            } else {
                &&& k >= 1
                &&& events[k - 1] == BookEventView::Svg(svg)
                &&& actions[k - 1] is ExtractSvg && actions[k - 1]->ExtractSvg_n == n
            }
        }),
{
    lemma_last_action(link, options, events);
    if events.len() > 0 {
        let before = events.drop_last();
        lemma_last_action(link, options, before);
        let (s, done) = book_run(link, options, before);
        let (next, action) = book_step(s, events.last());
        assert(book_run(link, options, events).1 == done.push(action));
        assert(done.push(action)[done.len() - 1] == done.last());
        if before.len() > 0 {
            let earlier = before.drop_last();
            lemma_last_action(link, options, earlier);
            let (t, was) = book_run(link, options, earlier);
            let (then, other) = book_step(t, before.last());
            assert(done == was.push(other));
            assert(done.push(action)[was.len() - 1] == was.last());
            assert(events[events.len() - 2] == before.last());
        }
    }
}

/// The file that is written for a page holds the page that its own conversion came
/// to.
pub proof fn page_files_hold_their_conversions(
    link: Seq<char>,
    options: BookOptions,
    events: Seq<BookEventView>,
)
    requires
        book_accepts(link, options, events),
        book_run(link, options, events).1.last() is WritePage,
    ensures
        ({
            let actions = book_run(link, options, events).1;
            let k = events.len() as int;
            let written = actions.last();
            &&& k >= 1
            &&& actions[k - 1] is Convert && actions[k - 1]->Convert_n == written->WritePage_n
            &&& events[k - 1] matches BookEventView::Converted(Some(page)) && document(seq![page])
                is Some && written->WritePage_bytes == pdf_bytes(document(seq![page])->0)
                && written->WritePage_size == page.size && written->WritePage_file == page_file(
                written->WritePage_n as nat,
                "pdf"@,
            )
        }),
{
    lemma_last_action(link, options, events);
    if events.len() > 0 {
        let before = events.drop_last();
        lemma_last_action(link, options, before);
        let (s, done) = book_run(link, options, before);
        let (next, action) = book_step(s, events.last());
        assert(book_run(link, options, events).1 == done.push(action));
        assert(done.push(action)[done.len() - 1] == done.last());
        if let BookEventView::Converted(Some(page)) = events.last() {
            files_are_those_of_documents(seq![page]);
        }
    }
}

/// What a run has learned of the book by the time it has come that far.
proof fn lemma_learned(link: Seq<char>, options: BookOptions, events: Seq<BookEventView>)
    requires
        book_accepts(link, options, events),
    ensures
        ({
            let s = book_run(link, options, events).0;
            let k = events.len();
            &&& s.stage is Ended || {
                &&& k == 0 <==> s.stage is OpeningTab
                &&& k == 1 <==> s.stage is Loading
                &&& k == 2 <==> s.stage is Counting
                &&& k == 3 <==> s.stage is Naming
                &&& k == 4 <==> s.stage is MakingPageDir
            }
            &&& k >= 1 && events[0] is Done ==> (id_in_link(link) matches Some(id) ==> s.id == id)
            &&& k >= 2 || (k >= 1 && !(s.stage is Ended)) ==> events[0] is Done && id_in_link(
                link,
            ) is Some
            &&& k >= 3 ==> (events[2] matches BookEventView::Text(Some(text)) ==> (0
                < digits_value(text) <= u32::MAX ==> s.total as nat == digits_value(text)))
            &&& k >= 4 || (k >= 3 && !(s.stage is Ended)) ==> events[2] is Text && 0 < s.total
            &&& k >= 4 ==> s.name == name_told(events[3], s.id)
        }),
    decreases events.len(),
{
    if events.len() > 0 {
        let before = events.drop_last();
        lemma_learned(link, options, before);
        let (s, done) = book_run(link, options, before);
        let event = events.last();
        let (next, action) = book_step(s, event);
        lemma_last_action(link, options, before);
        assert(book_run(link, options, events).0 == next);
        assert(forall|i: int| 0 <= i < before.len() ==> before[i] == events[i]);
        if let BookEventView::Text(Some(text)) = event {
            page_counts_are_those_of_the_digits(text, ' ');
        }
    }
}

/// The name of a book by what the reader says of its title.
spec fn name_told(event: BookEventView, id: Seq<char>) -> Seq<char> {
    match event {
        BookEventView::Text(found) => safe_name(title(found, id)),
        _ => safe_name(title(None, id)),
    }
}

/// From the answer of the reader on, a book has exactly as many pages as the digits in
/// it make up, to the end of the run.
pub proof fn the_book_is_as_long_as_told(
    link: Seq<char>,
    options: BookOptions,
    events: Seq<BookEventView>,
    text: Seq<char>,
)
    requires
        book_accepts(link, options, events),
        events.len() >= 3,
        events[2] == BookEventView::Text(Some(text)),
    ensures
        ({
            let (s, actions) = book_run(link, options, events);
            &&& actions[2] == BookActionView::ReadPageCount
            &&& 0 < digits_value(text) <= u32::MAX ==> s.total as nat == digits_value(text)
            &&& !(0 < digits_value(text) <= u32::MAX) ==> actions.len() == 4 && actions[3] == (
            BookActionView::Finish { result: Err(BookError::NoPageCount) })
        }),
    decreases events.len(),
{
    lemma_learned(link, options, events);
    let before = events.drop_last();
    let (s, done) = book_run(link, options, before);
    let (next, action) = book_step(s, events.last());
    assert(book_run(link, options, events) == (next, done.push(action)));
    lemma_last_action(link, options, before);
    lemma_learned(link, options, before);
    if events.len() == 3 {
        assert(done.push(action)[2] == done.last());
        the_book_is_measured(s, text);
    } else {
        assert(before[2] == events[2]);
        the_book_is_as_long_as_told(link, options, before, text);
        assert(done.push(action)[2] == done[2]);
        if !(0 < digits_value(text) <= u32::MAX) {
            assert(done.last() == done[3]);
        }
    }
}

/// When the tab is closed, exactly those pages were turned to that are pages of the
/// book, as long as the reader told it is, and that were asked for: from page `from`
/// on, and no more than `pages` of them. Each of them was turned to once, in
/// ascending order.
pub proof fn all_pages_are_turned_to(
    link: Seq<char>,
    options: BookOptions,
    events: Seq<BookEventView>,
    text: Seq<char>,
    p: u32,
)
    requires
        book_accepts(link, options, events),
        book_run(link, options, events).1.last() is CloseTab,
        events.len() >= 3,
        events[2] == BookEventView::Text(Some(text)),
    ensures
        ({
            let shown = pages_shown(book_run(link, options, events).1);
            &&& shown.contains(p) <==> 1 <= p <= digits_value(text) && options.from <= p && (
            options.pages matches Some(limit) ==> p - (if options.from == 0 {
                1int
            } else {
                options.from as int
            }) < limit)
            &&& forall|i: int, j: int|
                0 <= i < j < shown.len() ==> #[trigger] shown[i] < #[trigger] shown[j]
        }),
{
    let (s, actions) = book_run(link, options, events);
    let shown = pages_shown(actions);
    lemma_last_action(link, options, events);
    the_book_is_as_long_as_told(link, options, events, text);
    pages_are_turned_in_order(link, options, events);
    pages_asked_for_are_fetched(options.from, options.pages, s.total, p);
    lemma_book(link, options, events);
    assert(actions.len() > 4);
    if shown.contains(p) {
        let x = choose|x: int| 0 <= x < shown.len() && shown[x] == p;
        assert(shown[x] == (s.range.first + x) as u32);
    }
    if s.range.first <= p <= s.range.last {
        assert(shown[p - s.range.first] == p);
    }
}

/// Without a wish for certain pages all of the book is fetched: where the reader tells
/// `n` pages, the pages that were turned to when the tab is closed are 1 to `n`.
pub proof fn the_whole_book_is_turned_through(
    link: Seq<char>,
    options: BookOptions,
    events: Seq<BookEventView>,
    before: Seq<char>,
    n: u32,
    after: Seq<char>,
)
    requires
        book_accepts(link, options, events),
        book_run(link, options, events).1.last() is CloseTab,
        events.len() >= 3,
        events[2] == BookEventView::Text(Some(before + decimal(n as nat) + after)),
        forall|i: int| 0 <= i < before.len() ==> !('0' <= #[trigger] before[i] <= '9'),
        forall|i: int| 0 <= i < after.len() ==> !('0' <= #[trigger] after[i] <= '9'),
        options.from <= 1,
        options.pages is None,
    ensures
        ({
            let shown = pages_shown(book_run(link, options, events).1);
            &&& shown.len() == n
            &&& forall|i: int| 0 <= i < n ==> #[trigger] shown[i] == i + 1
        }),
{
    let text = before + decimal(n as nat) + after;
    let (s, actions) = book_run(link, options, events);
    lemma_last_action(link, options, events);
    page_counts_are_understood(before, n, after);
    page_counts_are_those_of_the_digits(text, ' ');
    the_book_is_as_long_as_told(link, options, events, text);
    pages_are_turned_in_order(link, options, events);
    lemma_book(link, options, events);
    pages_asked_for_are_fetched(options.from, options.pages, s.total, s.total);
    range_stays_in_book(options.from, options.pages, s.total);
    lemma_learned(link, options, events);
    lemma_digits_of_count(before, n, after);
}

/// The digits of a number with other things around it make up that number.
proof fn lemma_digits_of_count(before: Seq<char>, n: u32, after: Seq<char>)
    requires
        forall|i: int| 0 <= i < before.len() ==> !('0' <= #[trigger] before[i] <= '9'),
        forall|i: int| 0 <= i < after.len() ==> !('0' <= #[trigger] after[i] <= '9'),
    ensures
        digits_value(before + decimal(n as nat) + after) == n,
{
    digits_among_others(before, decimal(n as nat), after);
    decimal_is_read_back(n as nat, 0);
}

/// Once the tab is closed without a failure, the book is put together of exactly the
/// pages that were converted in the run, however many they are: a directory is made
/// for it, and then the document of all these pages is written. No page was fetched
/// exactly where none was converted. Only where that is wished is the book left out.
pub proof fn converted_pages_become_a_book(
    link: Seq<char>,
    options: BookOptions,
    events: Seq<BookEventView>,
)
    requires
        book_accepts(link, options, events),
        book_run(link, options, events).1.last() is CloseTab,
    ensures
        ({
            let pages = pages_converted(events);
            let closed = events.push(BookEventView::Done);
            let made = closed.push(BookEventView::Done);
            let after_closing = book_run(link, options, closed).1.last();
            let (s, actions) = book_run(link, options, made);
            let after_making = actions.last();
            &&& book_accepts(link, options, closed)
            &&& options.no_merge ==> after_closing == (BookActionView::Finish { result: Ok(()) })
            &&& !options.no_merge && pages == Seq::<PageView>::empty() ==> after_closing == (
            BookActionView::Finish { result: Err(BookError::NoPages) })
            &&& !options.no_merge && pages != Seq::<PageView>::empty() ==> {
                &&& after_closing == BookActionView::CreateBookDir
                &&& book_accepts(link, options, made)
                &&& document(pages) matches Some(steps) ==> after_making == (
                BookActionView::WriteBook {
                    file: if s.range.first == 1 && s.range.last == s.total {
                        s.name + ".pdf"@
                    } else {
                        s.name + " (стр. "@ + decimal(s.range.first as nat) + "-"@ + decimal(
                            s.range.last as nat,
                        ) + ").pdf"@
                    },
                    bytes: pdf_bytes(steps),
                })
                &&& document(pages) is None ==> after_making == (BookActionView::Finish {
                    result: Err(BookError::TooManyObjects),
                })
            }
        }),
{
    let done = BookEventView::Done;
    let closed = events.push(done);
    let (s, actions) = book_run(link, options, events);
    lemma_book(link, options, events);
    books_go_on(link, options, events, done);
    books_go_on(link, options, closed, done);
    the_book_is_put_together(s);
    the_book_is_put_together(book_step(s, done).0);
}

/// That no page was fetched is said only where not one was converted.
pub proof fn no_pages_means_none(
    link: Seq<char>,
    options: BookOptions,
    events: Seq<BookEventView>,
)
    requires
        book_accepts(link, options, events),
        book_run(link, options, events).1.last() == (BookActionView::Finish {
            result: Err(BookError::NoPages),
        }),
    ensures
        pages_converted(events) == Seq::<PageView>::empty(),
        !options.no_merge,
{
    lemma_book(link, options, events);
    if events.len() > 0 {
        let before = events.drop_last();
        lemma_book(link, options, before);
        let (s, done) = book_run(link, options, before);
        let (next, action) = book_step(s, events.last());
        assert(book_run(link, options, events).1 == done.push(action));
        assert(done.push(action).last() == action);
        assert(pages_converted(events) =~= Seq::<PageView>::empty());
    }
}

/// The directory of the pages and the file of the book bear the name that the reader
/// gave the book: its title, without white space around it, made fit for a file, or
/// `book_` and the number in the link where there is none.
pub proof fn the_book_bears_its_title(
    link: Seq<char>,
    options: BookOptions,
    events: Seq<BookEventView>,
    before: Seq<char>,
    id: Seq<char>,
)
    requires
        book_accepts(link, options, events),
        events.len() >= 4,
        !before.contains('='),
        !id.contains('='),
        link == before.push('=') + id,
    ensures
        ({
            let (s, actions) = book_run(link, options, events);
            let told = match events[3] {
                BookEventView::Text(Some(text)) => trim(text),
                _ => Seq::empty(),
            };
            &&& s.name == safe_name(
                if told == Seq::<char>::empty() {
                    "book_"@ + id
                } else {
                    told
                },
            )
            &&& actions[1] == (BookActionView::Goto { url: link })
            &&& actions[4] == (BookActionView::CreatePageDir { name: s.name })
        }),
    decreases events.len(),
{
    let (s, actions) = book_run(link, options, events);
    ids_are_found_in_links(before, id, seq![]);
    lemma_learned(link, options, events);
    if let BookEventView::Text(Some(text)) = events[3] {
        if trim(text).len() == 0 {
            assert(trim(text) =~= Seq::<char>::empty());
        }
    }
    lemma_early_actions(link, options, events);
}

/// The first actions of a run stay what they were.
proof fn lemma_early_actions(link: Seq<char>, options: BookOptions, events: Seq<BookEventView>)
    requires
        book_accepts(link, options, events),
    ensures
        ({
            let (s, actions) = book_run(link, options, events);
            &&& actions.len() == events.len() + 1
            &&& events.len() >= 2 ==> actions[1] == (BookActionView::Goto { url: link })
            &&& events.len() >= 4 ==> actions[4] == (BookActionView::CreatePageDir {
                name: s.name,
            })
        }),
    decreases events.len(),
{
    if events.len() > 0 {
        let before = events.drop_last();
        lemma_early_actions(link, options, before);
        lemma_learned(link, options, before);
        lemma_learned(link, options, events);
        lemma_last_action(link, options, before);
        let (s, done) = book_run(link, options, before);
        let (next, action) = book_step(s, events.last());
        assert(book_run(link, options, events) == (next, done.push(action)));
        assert(forall|i: int| 0 <= i < before.len() ==> before[i] == events[i]);
        if events.len() == 2 {
            assert(done.push(action)[1] == done.last());
            let start = before.drop_last();
            lemma_learned(link, options, start);
            lemma_last_action(link, options, start);
            let (t, was) = book_run(link, options, start);
            assert(done == was.push(book_step(t, before.last()).1));
        }
    }
}

} // verus!
