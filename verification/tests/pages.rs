use salvis::document::{assemble_pdf, try_assemble_pdf};
use salvis::numbering::Numbering;
use salvis::render::{build_usvg_options, render_svg, rendered_page, RenderError, RenderedPage};
use svg2pdf::usvg::{Size, Tree};
use svg2pdf::ConversionOptions;

fn svg(width: &str, height: &str) -> String {
    format!(
        "<svg xmlns=\"http://www.w3.org/2000/svg\" width=\"{}\" height=\"{}\" viewBox=\"0 0 100 200\">\
         <g opacity=\"0.5\"><rect x=\"1\" y=\"2\" width=\"30\" height=\"40\" fill=\"red\"/></g>\
         <path d=\"M 0 0 L 10 10\" stroke=\"blue\"/></svg>",
        width, height
    )
}

fn page(width: &str, height: &str) -> RenderedPage {
    match render_svg(&svg(width, height), &build_usvg_options()) {
        Ok(page) => page,
        Err(error) => panic!("{}", error.message()),
    }
}

fn find(bytes: &[u8], text: &str, from: usize) -> Option<usize> {
    let text = text.as_bytes();
    (from..bytes.len().saturating_sub(text.len() - 1)).find(|&i| bytes[i..].starts_with(text))
}

fn number_at(bytes: &[u8], at: usize) -> usize {
    let mut value = 0;
    for b in &bytes[at..] {
        if !b.is_ascii_digit() {
            break;
        }
        value = value * 10 + (b - b'0') as usize;
    }
    value
}

/// The offsets of the objects 1, 2, ... by the table at the end of the file.
fn objects(file: &[u8]) -> Vec<usize> {
    let start = find(file, "\nstartxref\n", 0).unwrap() + 11;
    let table = number_at(file, start);
    assert!(file[table..].starts_with(b"xref\n0 "));
    let count = number_at(file, table + 7);
    let first = find(file, "\n", table + 7).unwrap() + 1;
    let mut offsets = Vec::new();
    for id in 1..count {
        let entry = first + 20 * id;
        assert_eq!(&file[entry + 10..entry + 20], b" 00000 n\r\n");
        let digits: String = file[entry..entry + 10].iter().map(|b| *b as char).collect();
        let offset: usize = digits.parse().unwrap();
        assert!(file[offset..].starts_with(format!("{} 0 obj\n", id).as_bytes()));
        offsets.push(offset);
    }
    offsets
}

fn text_at(file: &[u8], offset: usize, len: usize) -> String {
    file[offset..offset + len].iter().map(|b| *b as char).collect()
}

#[test]
fn a_unit_is_a_point() {
    let size = |width, height| {
        let page = page(width, height);
        (page.size().width(), page.size().height())
    };
    assert_eq!(size("595", "842"), (595.0, 842.0));
    assert_eq!(size("595pt", "842pt"), (595.0, 842.0));
    assert_eq!(size("1in", "2in"), (72.0, 144.0));
    let (width, height) = size("210mm", "297mm");
    assert!((width - 595.2756).abs() < 0.001);
    assert!((height - 841.8898).abs() < 0.001);
}

#[test]
fn one_page_is_a_document() {
    let file = assemble_pdf(&[page("595", "842")]);
    assert!(file.starts_with(
        b"%PDF-1.7\n%\x80\x80\x80\x80\n\n1 0 obj\n<<\n  /Type /Catalog\n  /Pages 2 0 R\n>>\nendobj\n\n\
          2 0 obj\n<<\n  /Type /Pages\n  /Kids [3 0 R]\n  /Count 1\n>>\nendobj\n\n\
          3 0 obj\n<<\n  /Type /Page\n  /MediaBox [0 0 595 842]\n  /Parent 2 0 R\n  /Contents 4 0 R\n  \
          /Resources <<\n    /XObject <<\n      /S1 "
    ));
    assert!(file.ends_with(b"%%EOF"));
    let offsets = objects(&file);
    let expected = "4 0 obj\n<<\n  /Length 25\n>>\nstream\n595 0 0 842 0 0 cm\n/S1 Do\nendstream\nendobj\n";
    assert_eq!(text_at(&file, offsets[3], expected.len()), expected);
}

#[test]
fn pages_share_one_numbering() {
    let file = assemble_pdf(&[page("100", "200"), page("300", "400"), page("50.5", "60")]);
    let offsets = objects(&file);
    assert!(find(&file, "/Kids [3 0 R 5 0 R 7 0 R]\n  /Count 3\n", 0).is_some());
    let boxes = ["[0 0 100 200]", "[0 0 300 400]", "[0 0 50.5 60]"];
    let scales = ["100 0 0 200 0 0 cm\n/S1 Do", "300 0 0 400 0 0 cm\n/S1 Do", "50.5 0 0 60 0 0 cm\n/S1 Do"];
    let mut pictures = Vec::new();
    for i in 0..3 {
        let page = 3 + 2 * i;
        let text = &file[offsets[page - 1]..offsets[page]];
        let media = find(text, boxes[i], 0);
        assert!(media.is_some());
        assert!(find(text, &format!("/Contents {} 0 R", page + 1), 0).is_some());
        assert!(find(text, "/Parent 2 0 R", 0).is_some());
        let picture = number_at(text, find(text, "/S1 ", 0).unwrap() + 4);
        assert!(picture >= 9 && picture <= offsets.len());
        assert!(find(&file[offsets[page]..], scales[i], 0).is_some());
        let drawn = text_at(&file, offsets[picture - 1], 200);
        assert!(drawn.contains("/Subtype /Form"));
        pictures.push(picture);
    }
    assert!(pictures[0] < pictures[1] && pictures[1] < pictures[2]);
}

#[test]
fn references_lead_to_objects_of_the_document() {
    let file = assemble_pdf(&[page("10", "20"), page("30", "40")]);
    let offsets = objects(&file);
    let mut ends: Vec<usize> = offsets.clone();
    ends.sort();
    for &offset in &offsets {
        let end = ends.iter().copied().find(|&e| e > offset).unwrap_or(file.len());
        let text = &file[offset..end];
        let dict = find(text, "\nstream\n", 0).unwrap_or(text.len());
        let mut from = 0;
        while let Some(r) = find(&text[..dict], " 0 R", from) {
            let mut start = r;
            while text[start - 1].is_ascii_digit() {
                start -= 1;
            }
            let id = number_at(text, start);
            assert!(id >= 1 && id <= offsets.len());
            from = r + 4;
        }
    }
}

#[test]
fn no_pages_are_a_document() {
    let file = try_assemble_pdf(&[]).unwrap();
    assert_eq!(objects(&file).len(), 2);
    assert!(find(&file, "/Kids []\n  /Count 0\n", 0).is_some());
}

#[test]
fn broken_svg_is_refused() {
    match render_svg("no svg", &build_usvg_options()) {
        Err(error) => {
            assert!(matches!(error, RenderError::Parse(_)));
            assert!(error.message().starts_with("usvg parse: SVG data parsing failed cause "));
        }
        Ok(_) => panic!(),
    }
    match render_svg("<svg xmlns=\"http://www.w3.org/2000/svg\" width=\"0\" height=\"1\"/>", &build_usvg_options()) {
        Err(error) => assert_eq!(error.message(), "usvg parse: SVG has an invalid size"),
        Ok(_) => panic!(),
    }
}

#[test]
fn deep_svg_is_not_converted() {
    let mut deep = String::from("<svg xmlns=\"http://www.w3.org/2000/svg\" width=\"9\" height=\"9\">");
    for _ in 0..40 {
        deep.push_str("<g transform=\"translate(1 1)\">");
    }
    deep.push_str("<rect width=\"3\" height=\"3\"/>");
    for _ in 0..40 {
        deep.push_str("</g>");
    }
    deep.push_str("</svg>");
    match render_svg(&deep, &build_usvg_options()) {
        Err(error) => {
            assert!(matches!(error, RenderError::Convert(_)));
            assert_eq!(error.message(), "svg2pdf: The SVG's nesting depth is too high.");
        }
        Ok(_) => panic!(),
    }
}

#[test]
fn conversions_become_pages() {
    let tree = Tree::from_str(&svg("7", "8"), &build_usvg_options()).unwrap();
    let (chunk, root) = svg2pdf::to_chunk(&tree, ConversionOptions::default()).unwrap();
    let size = Size::from_wh(70.0, 80.0).unwrap();
    let page = rendered_page(size, Ok((chunk, root.get()))).ok().unwrap();
    assert_eq!(page.size().width(), 70.0);
    let file = assemble_pdf(&[page]);
    assert!(find(&file, "/MediaBox [0 0 70 80]", 0).is_some());

    match rendered_page(size, Err(svg2pdf::ConversionError::InvalidImage)) {
        Err(RenderError::Convert(reason)) => {
            assert_eq!(reason, "An unknown type of image appears in the SVG.")
        }
        _ => panic!(),
    }
}

#[test]
fn numbers_are_given_out_once() {
    let mut numbering = Numbering::new(5);
    assert_eq!(numbering.assign(40), 5);
    assert_eq!(numbering.assign(7), 6);
    assert_eq!(numbering.assign(40), 5);
    assert_eq!(numbering.next(), 7);
    assert_eq!(numbering.get(7), Some(6));
    assert_eq!(numbering.get(8), None);
    assert!(!numbering.exhausted());
}

#[test]
fn numbers_run_out() {
    let mut numbering = Numbering::new(i32::MAX - 1);
    assert_eq!(numbering.assign(3), i32::MAX - 1);
    assert!(!numbering.exhausted());
    assert_eq!(numbering.assign(3), i32::MAX - 1);
    assert!(!numbering.exhausted());
    assert_eq!(numbering.assign(4), 4);
    assert!(numbering.exhausted());
    assert_eq!(numbering.get(4), None);
}

#[test]
fn clipped_groups_without_area_are_converted() {
    let clipped = "<svg xmlns=\"http://www.w3.org/2000/svg\" width=\"9\" height=\"9\">\
        <clipPath id=\"c\"><rect width=\"5\" height=\"5\"/></clipPath>\
        <g clip-path=\"url(#c)\" transform=\"translate(100000 0)\"><rect width=\"0.001\" height=\"1\"/></g></svg>";
    let page = render_svg(clipped, &build_usvg_options()).ok().unwrap();
    assert_eq!((page.size().width(), page.size().height()), (9.0, 9.0));
    assert!(try_assemble_pdf(&[page]).is_some());
}

#[test]
fn masks_of_masks_are_drawn() {
    let masks = "<svg xmlns=\"http://www.w3.org/2000/svg\" width=\"9\" height=\"9\">\
        <mask id=\"a\"><g opacity=\"0.5\"><rect width=\"9\" height=\"9\" fill=\"white\"/></g></mask>\
        <mask id=\"b\" mask=\"url(#a)\"><rect width=\"9\" height=\"9\" fill=\"white\"/></mask>\
        <mask id=\"c\" mask=\"url(#b)\"><rect width=\"9\" height=\"9\" fill=\"white\"/></mask>\
        <rect width=\"5\" height=\"5\" mask=\"url(#c)\"/></svg>";
    let page = render_svg(masks, &build_usvg_options()).ok().unwrap();
    let file = assemble_pdf(&[page]);
    let offsets = objects(&file);
    let mut found = 0;
    for &offset in &offsets {
        if text_at(&file, offset, 100.min(file.len() - offset)).contains("/SMask") {
            found += 1;
        }
    }
    assert_eq!(found, 3);
}

#[test]
fn masks_filters_and_patterns_are_drawn() {
    let rich = "<svg xmlns=\"http://www.w3.org/2000/svg\" width=\"90\" height=\"90\">\
        <filter id=\"f\" filterUnits=\"objectBoundingBox\" x=\"0%\" y=\"0%\" width=\"100%\" height=\"100%\">\
        <feGaussianBlur stdDeviation=\"2\"/></filter>\
        <mask id=\"m\"><g filter=\"url(#f)\"><rect width=\"50\" height=\"50\" fill=\"white\"/></g></mask>\
        <pattern id=\"p\" width=\"0.25\" height=\"0.25\"><circle r=\"3\"/></pattern>\
        <g mask=\"url(#m)\" opacity=\"0.5\"><rect width=\"60\" height=\"60\" fill=\"url(#p)\"/></g></svg>";
    let page = render_svg(rich, &build_usvg_options()).ok().unwrap();
    let file = assemble_pdf(&[page]);
    assert!(objects(&file).len() > 8);
}

#[test]
fn options_are_the_default_ones_but_for_the_resolution() {
    let options = build_usvg_options();
    let default = svg2pdf::usvg::Options::default();
    assert_eq!(options.dpi, 72.0);
    assert_eq!(default.dpi, 96.0);
    assert_eq!(options.font_family, default.font_family);
    assert_eq!(options.font_size, default.font_size);
    assert_eq!(options.languages, default.languages);
    assert_eq!(options.default_size, default.default_size);
    assert!(options.resources_dir.is_none());
    assert!(options.style_sheet.is_none());
    assert!(options.fontdb.is_empty());
}
