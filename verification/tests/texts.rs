use salvis::decimal::{push_decimal, push_padded};
use salvis::links::read_links;
use salvis::names::{
    book_file_name, book_id, book_title, page_file_name, page_number_text, page_selector,
    sanitize_file_name, BOOKS_DIR, PAGES_DIR,
};
use salvis::range::{page_count, plan_range, PageRange};
use salvis::text::{append_text, chars_of, split_bounds, text_of, white_space};

#[test]
fn white_space_is_that_of_unicode() {
    for code in 0..=0x10ffffu32 {
        if let Some(c) = char::from_u32(code) {
            assert_eq!(white_space(c), c.is_whitespace(), "{:x}", code);
        }
    }
}

#[test]
fn texts_are_taken_apart_and_put_together() {
    let v = chars_of("ключ=знач");
    assert_eq!(v.len(), 9);
    assert_eq!(text_of(&v, 0, 4), "ключ");
    assert_eq!(text_of(&v, 5, 9), "знач");
    assert_eq!(split_bounds(&v, '='), vec![(0, 4), (5, 9)]);
    assert_eq!(split_bounds(&chars_of(""), '='), vec![(0, 0)]);
    assert_eq!(split_bounds(&chars_of("=="), '='), vec![(0, 0), (1, 1), (2, 2)]);
    assert_eq!(append_text("ab", "вг"), "abвг");
}

#[test]
fn links_are_read_one_to_a_line() {
    let content = "https://znanium.ru/read?id=1\r\n\n  \t\n  https://znanium.ru/read?id=2  \nlast";
    assert_eq!(
        read_links(content),
        vec!["https://znanium.ru/read?id=1", "https://znanium.ru/read?id=2", "last"]
    );
    assert!(read_links("").is_empty());
    assert!(read_links("\n\r\n\u{a0}\n").is_empty());
    assert_eq!(read_links("\n\na b\n"), vec!["a b"]);
}

#[test]
fn links_of_two_texts_follow_each_other() {
    let above = " a \n\nb";
    let below = "c\n d";
    let mut both = read_links(above);
    both.extend(read_links(below));
    assert_eq!(read_links(&format!("{}\n{}", above, below)), both);
    assert_eq!(both, vec!["a", "b", "c", "d"]);
}

#[test]
fn links_agree_with_std() {
    for content in ["a\r\nb\rc\n\u{2028}d\n", "\u{feff}x\n y\t\n", "one", "\r\r\n \u{3000}z\u{85}\n"] {
        let expected: Vec<String> = content
            .lines()
            .map(str::trim)
            .filter(|line| !line.is_empty())
            .map(String::from)
            .collect();
        assert_eq!(read_links(content), expected);
    }
}

#[test]
fn file_names_are_sanitized() {
    assert_eq!(sanitize_file_name("a\\b/c:d*e?f\"g<h>i|j"), "a_b_c_d_e_f_g_h_i_j");
    assert_eq!(sanitize_file_name("  Война и мир.. "), "Война и мир");
    assert_eq!(sanitize_file_name("Том 1 ."), "Том 1");
    assert_eq!(sanitize_file_name(".hidden"), "hidden");
    assert_eq!(sanitize_file_name(""), "book");
    assert_eq!(sanitize_file_name(" \t "), "book");
    assert_eq!(sanitize_file_name("..."), "book");
    assert_eq!(sanitize_file_name("???"), "___");
    assert_eq!(sanitize_file_name("/"), "_");
}

#[test]
fn file_names_have_no_dot_and_no_space_at_the_edges() {
    assert_eq!(sanitize_file_name("a. ."), "a");
    assert_eq!(sanitize_file_name("a."), "a");
    assert_eq!(sanitize_file_name(" . .a.b. . "), "a.b");
    assert_eq!(sanitize_file_name("./a"), "_a");
    assert_eq!(sanitize_file_name("../.."), "_");
}

#[test]
fn file_names_are_entries_of_their_own() {
    for name in [".", "..", ". .", ".. .", " .. ", "\u{a0}.\u{3000}."] {
        assert_eq!(sanitize_file_name(name), "book");
    }
}

#[test]
fn fit_file_names_stay() {
    for name in ["Книга", "a b", "x.y", "_"] {
        assert_eq!(sanitize_file_name(name), name);
    }
    let once = sanitize_file_name(" a:b. ");
    assert_eq!(once, "a_b");
    assert_eq!(sanitize_file_name(&once), once);
}

#[test]
fn book_ids_stand_behind_the_first_equals_sign() {
    assert_eq!(book_id("https://znanium.ru/read?id=448995").as_deref(), Some("448995"));
    assert_eq!(book_id("x=1=2").as_deref(), Some("1"));
    assert_eq!(book_id("x=").as_deref(), Some(""));
    assert_eq!(book_id("=7").as_deref(), Some("7"));
    assert_eq!(book_id("https://znanium.ru/read"), None);
    assert_eq!(book_id(""), None);
}

#[test]
fn titles_fall_back_to_the_id() {
    assert_eq!(book_title(&Some(" Алгебра\n".to_string()), "5"), "Алгебра");
    assert_eq!(book_title(&Some(" \n ".to_string()), "5"), "book_5");
    assert_eq!(book_title(&Some(String::new()), "5"), "book_5");
    assert_eq!(book_title(&None, "5"), "book_5");
}

#[test]
fn page_files_have_four_digits_or_more() {
    assert_eq!(page_file_name(1, "svg"), "page_0001.svg");
    assert_eq!(page_file_name(0, "pdf"), "page_0000.pdf");
    assert_eq!(page_file_name(9999, "pdf"), "page_9999.pdf");
    assert_eq!(page_file_name(12345, "pdf"), "page_12345.pdf");
    assert_eq!(page_file_name(u32::MAX, "pdf"), "page_4294967295.pdf");
    assert_ne!(page_file_name(11, "pdf"), page_file_name(110, "pdf"));
}

#[test]
fn numbers_are_written_in_decimal() {
    for n in [0u32, 9, 10, 99, 100, 65536, 1000000000, u32::MAX] {
        let mut r = String::from("x");
        push_decimal(&mut r, n);
        assert_eq!(r, format!("x{}", n));
        let mut r = String::new();
        push_padded(&mut r, n, 6);
        assert_eq!(r, format!("{:06}", n));
        assert_eq!(page_number_text(n), n.to_string());
        assert_eq!(page_count(&n.to_string()), n);
    }
}

#[test]
fn pages_are_found_in_the_reader() {
    assert_eq!(page_selector(17), "#bookreadcont17 svg");
}

#[test]
fn book_files_name_the_part() {
    assert_eq!(book_file_name("Книга", 1, 10, 10), "Книга.pdf");
    assert_eq!(book_file_name("Книга", 2, 10, 10), "Книга (стр. 2-10).pdf");
    assert_eq!(book_file_name("Книга", 1, 9, 10), "Книга (стр. 1-9).pdf");
}

#[test]
fn page_counts_are_read_from_digits() {
    assert_eq!(page_count("/ 312"), 312);
    assert_eq!(page_count("из 1 024 стр."), 1024);
    assert_eq!(page_count("007"), 7);
    assert_eq!(page_count(""), 0);
    assert_eq!(page_count("нет"), 0);
    assert_eq!(page_count("٣٤"), 0);
    assert_eq!(page_count("4294967295"), 4294967295);
    assert_eq!(page_count("4294967296"), 0);
    assert_eq!(page_count("99999999999999999999999999"), 0);
}

fn pages(range: Option<PageRange>) -> Option<(u32, u32)> {
    range.map(|r| (r.first, r.last))
}

#[test]
fn ranges_are_planned() {
    assert_eq!(pages(plan_range(1, None, 10)), Some((1, 10)));
    assert_eq!(pages(plan_range(0, None, 10)), Some((1, 10)));
    assert_eq!(pages(plan_range(4, None, 10)), Some((4, 10)));
    assert_eq!(pages(plan_range(4, Some(3), 10)), Some((4, 6)));
    assert_eq!(pages(plan_range(4, Some(100), 10)), Some((4, 10)));
    assert_eq!(pages(plan_range(4, Some(0), 10)), Some((4, 3)));
    assert_eq!(pages(plan_range(1, Some(0), 10)), Some((1, 0)));
    assert_eq!(pages(plan_range(10, Some(1), 10)), Some((10, 10)));
    assert_eq!(pages(plan_range(11, None, 10)), None);
    assert_eq!(pages(plan_range(1, None, 0)), None);
    assert_eq!(pages(plan_range(0, Some(5), 0)), None);
}

#[test]
fn ranges_reach_the_greatest_number() {
    let top = u32::MAX;
    assert_eq!(pages(plan_range(2, Some(top), top)), Some((2, top)));
    assert_eq!(pages(plan_range(2, None, top)), Some((2, top)));
    assert_eq!(pages(plan_range(2, Some(top), top - 1)), Some((2, top - 1)));
    assert_eq!(pages(plan_range(top, Some(1), top)), Some((top, top)));
    assert_eq!(pages(plan_range(top, Some(0), top)), Some((top, top - 1)));
}

#[test]
fn directories_have_their_names() {
    assert_eq!((PAGES_DIR, BOOKS_DIR), ("Pages", "All-Books"));
}

#[test]
fn ranges_know_the_whole_book() {
    assert!(PageRange { first: 1, last: 5 }.is_whole(5));
    assert!(!PageRange { first: 1, last: 4 }.is_whole(5));
    assert!(!PageRange { first: 2, last: 5 }.is_whole(5));
}
