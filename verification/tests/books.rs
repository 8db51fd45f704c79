use salvis::book::{BookAction, BookError, BookEvent, BookJob, BookOptions, ExtractedSvg};
use salvis::document::assemble_pdf;
use salvis::render::{build_usvg_options, render_svg};

const PICTURE: &str = "<svg xmlns=\"http://www.w3.org/2000/svg\" width=\"30\" height=\"40\"><rect width=\"9\" height=\"9\"/></svg>";

fn options() -> BookOptions {
    BookOptions { from: 1, pages: None, dump_svg: false, no_merge: false }
}

fn extracted(svg: &str) -> BookEvent {
    BookEvent::Svg(ExtractedSvg {
        svg: svg.to_string(),
        added: 0,
        missing: Vec::new(),
        missing_count: 0,
    })
}

fn text(text: &str) -> BookEvent {
    BookEvent::Text(Some(text.to_string()))
}

fn told(action: &BookAction) -> String {
    match action {
        BookAction::OpenTab => "open".to_string(),
        BookAction::Goto { url } => format!("goto {}", url),
        BookAction::ReadPageCount => "count?".to_string(),
        BookAction::ReadTitle => "title?".to_string(),
        BookAction::CreatePageDir { name } => format!("page dir {}", name),
        BookAction::ShowPage { n, number, selector } => format!("show {} {} {}", n, number, selector),
        BookAction::ExtractSvg { n, selector } => format!("extract {} {}", n, selector),
        BookAction::WriteSvg { n, file, svg } => format!("svg {} {} {}", n, file, svg.len()),
        BookAction::Convert { n, svg } => format!("convert {} {}", n, svg.len()),
        BookAction::WritePage { n, file, bytes, size } => {
            assert!(bytes.starts_with(b"%PDF"));
            format!("page {} {} {}x{}", n, file, size.width(), size.height())
        }
        BookAction::CloseTab => "close".to_string(),
        BookAction::CreateBookDir => "book dir".to_string(),
        BookAction::WriteBook { file, bytes } => {
            let text: String = bytes.iter().map(|b| *b as char).collect();
            let at = text.find("/Count ").unwrap() + 7;
            format!("book {} {}", file, &text[at..at + 1])
        }
        BookAction::Finish { result: Ok(()) } => "ok".to_string(),
        BookAction::Finish { result: Err(error) } => match error {
            BookError::NoBookId => "no id".to_string(),
            BookError::NoPageCount => "no count".to_string(),
            BookError::StartBeyondEnd { first, total } => format!("beyond {} {}", first, total),
            BookError::NoPages => "no pages".to_string(),
            BookError::TooManyObjects => "too many".to_string(),
            BookError::Outside => "failed".to_string(),
        },
    }
}

fn error(action: &BookAction) -> Option<BookError> {
    match action {
        BookAction::Finish { result: Err(error) } => Some(*error),
        _ => None,
    }
}

struct Run {
    actions: Vec<String>,
    notes: Vec<Option<String>>,
    message: Option<String>,
}

fn run(link: &str, options: BookOptions, events: Vec<BookEvent>) -> Run {
    let svg_options = build_usvg_options();
    let (mut job, first) = BookJob::start(link, options);
    let mut run = Run { actions: vec![told(&first)], notes: vec![None], message: None };
    for event in events {
        assert!(job.expects(&event));
        let (action, note) = job.advance(event, &svg_options);
        run.actions.push(told(&action));
        run.notes.push(note);
        run.message = error(&action).and_then(|e| job.message(e));
    }
    run
}

fn opened(count: &str, title: BookEvent) -> Vec<BookEvent> {
    vec![BookEvent::Done, BookEvent::Done, text(count), title, BookEvent::Done]
}

fn good_page(events: &mut Vec<BookEvent>) {
    events.push(BookEvent::Done);
    events.push(extracted(PICTURE));
    events.push(BookEvent::Done);
}

#[test]
fn whole_book_is_fetched() {
    let mut events = opened("/ 2", text("  Алгебра: часть 1. "));
    good_page(&mut events);
    good_page(&mut events);
    events.push(BookEvent::Done);
    events.push(BookEvent::Done);
    events.push(BookEvent::Done);
    let run = run("https://znanium.ru/read?id=7", options(), events);
    assert_eq!(
        run.actions,
        vec![
            "open",
            "goto https://znanium.ru/read?id=7",
            "count?",
            "title?",
            "page dir Алгебра_ часть 1",
            "show 1 1 #bookreadcont1 svg",
            "extract 1 #bookreadcont1 svg",
            "page 1 page_0001.pdf 30x40",
            "show 2 2 #bookreadcont2 svg",
            "extract 2 #bookreadcont2 svg",
            "page 2 page_0002.pdf 30x40",
            "close",
            "book dir",
            "book Алгебра_ часть 1.pdf 2",
            "ok"
        ]
    );
    assert!(run.notes.iter().all(|note| note.is_none()));
}

#[test]
fn troubled_pages_are_passed_over() {
    let mut events = opened("5", BookEvent::Failed);
    events.push(BookEvent::Failed);
    events.push(BookEvent::Done);
    events.push(BookEvent::Failed);
    events.push(BookEvent::Done);
    events.push(extracted("no svg"));
    events.push(BookEvent::Done);
    events.push(extracted(PICTURE));
    events.push(BookEvent::Failed);
    good_page(&mut events);
    events.push(BookEvent::Done);
    events.push(BookEvent::Done);
    let run = run("x=77", options(), events);
    assert_eq!(
        run.actions[4..],
        [
            "page dir book_77",
            "show 1 1 #bookreadcont1 svg",
            "show 2 2 #bookreadcont2 svg",
            "extract 2 #bookreadcont2 svg",
            "show 3 3 #bookreadcont3 svg",
            "extract 3 #bookreadcont3 svg",
            "show 4 4 #bookreadcont4 svg",
            "extract 4 #bookreadcont4 svg",
            "page 4 page_0004.pdf 30x40",
            "show 5 5 #bookreadcont5 svg",
            "extract 5 #bookreadcont5 svg",
            "page 5 page_0005.pdf 30x40",
            "close",
            "book dir",
            "book book_77.pdf 2"
        ]
    );
    let note = run.notes[10].clone().unwrap();
    assert!(note.starts_with("usvg parse: "));
}

#[test]
fn pictures_are_kept_when_asked_for() {
    for outcome in [true, false] {
        let mut events = opened("1", text("T"));
        events.push(BookEvent::Done);
        events.push(extracted(PICTURE));
        events.push(if outcome { BookEvent::Done } else { BookEvent::Failed });
        let run = run("x=1", BookOptions { dump_svg: true, ..options() }, events);
        assert_eq!(run.actions[7], format!("svg 1 page_0001.svg {}", PICTURE.len()));
        assert_eq!(run.actions[8], "page 1 page_0001.pdf 30x40");
    }
}

#[test]
fn book_is_left_out_when_asked_for() {
    let mut events = opened("1", text("T"));
    good_page(&mut events);
    events.push(BookEvent::Done);
    let run = run("x=1", BookOptions { no_merge: true, ..options() }, events);
    assert_eq!(run.actions[7..], ["page 1 page_0001.pdf 30x40", "close", "ok"]);
}

#[test]
fn part_of_a_book_is_fetched() {
    let mut events = opened("9", text("T"));
    good_page(&mut events);
    good_page(&mut events);
    events.push(BookEvent::Done);
    events.push(BookEvent::Done);
    let run = run("x=1", BookOptions { from: 3, pages: Some(2), ..options() }, events);
    assert_eq!(run.actions[5], "show 3 3 #bookreadcont3 svg");
    assert_eq!(run.actions[8], "show 4 4 #bookreadcont4 svg");
    assert_eq!(run.actions[11..], ["close", "book dir", "book T (стр. 3-4).pdf 2"]);
}

#[test]
fn no_page_is_no_book() {
    let mut events = opened("1", text("T"));
    events.push(BookEvent::Failed);
    events.push(BookEvent::Done);
    let run1 = run("x=42", options(), events);
    assert_eq!(run1.actions[6..], ["close", "no pages"]);
    assert_eq!(run1.message.as_deref(), Some("ни одна страница книги 42 не была получена"));

    let mut events = opened("5", text("T"));
    events.push(BookEvent::Done);
    let run2 = run("x=42", BookOptions { pages: Some(0), ..options() }, events);
    assert_eq!(run2.actions[5..], ["close", "no pages"]);
}

#[test]
fn links_without_id_are_refused() {
    let run = run("https://znanium.ru/", options(), vec![BookEvent::Done]);
    assert_eq!(run.actions, vec!["open", "no id"]);
    assert_eq!(
        run.message.as_deref(),
        Some("не удалось извлечь id книги из ссылки: https://znanium.ru/")
    );
}

#[test]
fn books_without_page_count_are_refused() {
    for event in [text("нет"), text("0"), text("99999999999"), BookEvent::Text(None)] {
        let run = run("x=1", options(), vec![BookEvent::Done, BookEvent::Done, event]);
        assert_eq!(run.actions[3], "no count");
        assert_eq!(run.message.as_deref(), Some("не удалось определить число страниц для x=1"));
    }
}

#[test]
fn starts_beyond_the_end_are_refused() {
    let run = run("x=1", BookOptions { from: 11, ..options() }, opened("10", text("T")));
    assert_eq!(run.actions[4..], ["page dir T", "beyond 11 10"]);
    assert_eq!(run.message.as_deref(), Some("--from 11 больше, чем страниц в книге (10)"));
}

#[test]
fn failures_outside_the_pages_end_the_book() {
    let full = || {
        let mut events = opened("1", text("T"));
        good_page(&mut events);
        events.push(BookEvent::Done);
        events.push(BookEvent::Done);
        events
    };
    for at in [0, 1, 2, 4, 8, 9] {
        let mut events: Vec<BookEvent> = full().into_iter().take(at).collect();
        events.push(BookEvent::Failed);
        let run = run("x=1", options(), events);
        assert_eq!(run.actions.last().map(String::as_str), Some("failed"));
        assert_eq!(run.message, None);
    }
    let mut events = full();
    events.push(BookEvent::Failed);
    assert_eq!(run("x=1", options(), events).actions.last().map(String::as_str), Some("failed"));
}

#[test]
fn steps_take_conversions_from_outside() {
    let (mut job, _) = BookJob::start("x=1", options());
    for event in opened("1", text("T")) {
        job.step(event);
    }
    job.step(BookEvent::Done);
    let action = job.step(extracted(PICTURE));
    assert_eq!(told(&action), format!("convert 1 {}", PICTURE.len()));
    let page = render_svg(PICTURE, &build_usvg_options());
    assert!(job.expects(&BookEvent::Converted(render_svg(PICTURE, &build_usvg_options()))));
    assert!(!job.expects(&BookEvent::Done));
    let expected = assemble_pdf(&[page.ok().unwrap()]).len();
    match job.step(BookEvent::Converted(render_svg(PICTURE, &build_usvg_options()))) {
        BookAction::WritePage { n, file, bytes, .. } => {
            assert_eq!((n, file.as_str()), (1, "page_0001.pdf"));
            assert_eq!(bytes.len(), expected);
        }
        _ => panic!(),
    }
    assert_eq!(job.total(), 1);
    assert!(job.range().is_whole(job.total()));
}

#[test]
fn pictures_tell_what_is_missing() {
    let mut picture = ExtractedSvg {
        svg: String::new(),
        added: 3,
        missing: vec!["a".to_string()],
        missing_count: 1,
    };
    assert!(picture.is_incomplete());
    picture.missing_count = 0;
    assert!(!picture.is_incomplete());
}

#[test]
fn kept_pictures_change_nothing_else() {
    let events = |kept: bool| {
        let mut events = opened("3", text("T"));
        for (svg, written) in [(PICTURE, true), ("no svg", false), (PICTURE, false)] {
            events.push(BookEvent::Done);
            events.push(extracted(svg));
            if kept {
                events.push(if written { BookEvent::Done } else { BookEvent::Failed });
            }
            if svg == PICTURE {
                events.push(BookEvent::Done);
            }
        }
        events.push(BookEvent::Done);
        events.push(BookEvent::Done);
        events.push(BookEvent::Done);
        events
    };
    let plain = run("x=1", options(), events(false)).actions;
    let kept = run("x=1", BookOptions { dump_svg: true, ..options() }, events(true)).actions;
    let written: Vec<String> = kept.iter().filter(|a| a.starts_with("svg ")).cloned().collect();
    assert_eq!(
        written,
        vec![
            format!("svg 1 page_0001.svg {}", PICTURE.len()),
            "svg 2 page_0002.svg 6".to_string(),
            format!("svg 3 page_0003.svg {}", PICTURE.len()),
        ]
    );
    let others: Vec<String> = kept.into_iter().filter(|a| !a.starts_with("svg ")).collect();
    assert_eq!(others, plain);
    assert_eq!(plain.last().map(String::as_str), Some("ok"));
}

#[test]
fn page_files_hold_the_pages_of_the_book() {
    let wide = PICTURE.replace("width=\"30\"", "width=\"60\"");
    let mut events = opened("3", text("T"));
    for svg in [wide.as_str(), "no svg", PICTURE] {
        events.push(BookEvent::Done);
        events.push(extracted(svg));
        if svg != "no svg" {
            events.push(BookEvent::Done);
        }
    }
    events.push(BookEvent::Done);
    events.push(BookEvent::Done);
    let svg_options = build_usvg_options();
    let (mut job, _) = BookJob::start("x=1", options());
    let mut files = Vec::new();
    let mut book = Vec::new();
    for event in events {
        match job.advance(event, &svg_options).0 {
            BookAction::WritePage { n, size, .. } => files.push((n, size.width())),
            BookAction::WriteBook { bytes, .. } => book = bytes,
            _ => {}
        }
    }
    assert_eq!(files, vec![(1, 60.0), (3, 30.0)]);
    let book: String = book.iter().map(|b| *b as char).collect();
    let first = book.find("/MediaBox [0 0 60 40]").unwrap();
    let second = book.find("/MediaBox [0 0 30 40]").unwrap();
    assert!(first < second);
}
