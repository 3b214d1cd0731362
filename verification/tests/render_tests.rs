use monotext::{
    Author, Config, Content, ContentPosition, Date, Document, FooterStyle, Institution,
    OrderedListType,
};

fn plain_author(last: &str) -> Author {
    Author {
        first_name: None,
        middle_name: None,
        last_name: last.to_string(),
        title: None,
        email: None,
        affiliation: None,
        phone: None,
        address: None,
    }
}

fn plain_doc(title: &str, lasts: &[&str], content: Vec<Content>) -> Document {
    Document {
        title: title.to_string(),
        subtitle: None,
        date: Date { year: 1981, month: 12, day: 1 },
        authors: lasts.iter().map(|l| plain_author(l)).collect(),
        institutions: Vec::new(),
        abstract_text: String::new(),
        license: None,
        content,
    }
}

fn para(text: &str) -> Content {
    Content::Paragraph { text: text.to_string() }
}

#[test]
fn end_to_end_scenario() {
    let cfg = Config::new(10, 40, 1);
    let doc = plain_doc("Spec", &["Doe"], vec![para("hello world")]);
    assert!(doc.is_well_formed());
    assert!(cfg.is_valid());
    let out = doc.render(cfg);

    // Exactly one form feed per page boundary: four pages, three feeds.
    let pages: Vec<&str> = out.split('\u{0C}').collect();
    assert_eq!(pages.len(), 4);
    for page in &pages {
        assert_eq!(page.lines().count(), 10);
    }

    // The cover: blank padding, the centered title, the centered
    // author, the two-line separator, and an unnumbered footer.
    let cover: Vec<&str> = pages[0].lines().collect();
    assert_eq!(cover[0], "");
    assert_eq!(cover[1], format!("{}Spec", " ".repeat(18)));
    assert_eq!(cover[6], format!("{}Doe", " ".repeat(19)));
    assert_eq!(cover[7], "");
    assert_eq!(cover[8], "");
    assert_eq!(cover[9], format!("Doe{}", " ".repeat(37)));

    // The date spills onto the second cover page.
    let cover2: Vec<&str> = pages[1].lines().collect();
    assert_eq!(cover2[0], format!("{}1 December 1981", " ".repeat(13)));

    // Front pages carry no header: no right-justified date line on top.
    assert!(!pages[0].starts_with(&format!("{}December 1981", " ".repeat(27))));
    assert!(!pages[1].starts_with(&format!("{}December 1981", " ".repeat(27))));

    // The first numbered body page opens with the centered abstract
    // heading and its footer page label is the roman numeral "i".
    let abs_page: Vec<&str> = pages[2].lines().collect();
    assert_eq!(abs_page[0], format!("{}ABSTRACT", " ".repeat(16)));
    assert_eq!(abs_page[9], format!("Doe{}i", " ".repeat(36)));

    // The body page: repeated title, indented paragraph, decimal label.
    let body: Vec<&str> = pages[3].lines().collect();
    assert_eq!(body[0], format!("{}Spec", " ".repeat(18)));
    assert_eq!(body[2], "  hello world");
    assert_eq!(body[9], format!("Doe{}2", " ".repeat(36)));
}

#[test]
fn every_page_has_exactly_page_height_lines() {
    let cfg = Config::new(8, 30, 2);
    let long = "lorem ipsum dolor sit amet consectetur adipiscing elit sed do eiusmod \
                tempor incididunt ut labore et dolore magna aliqua ut enim ad minim \
                veniam quis nostrud exercitation ullamco laboris nisi ut aliquip";
    let doc = plain_doc(
        "Lines",
        &["One", "Two"],
        vec![para(long), para(long), para(long)],
    );
    let out = doc.render(cfg);
    let pages: Vec<&str> = out.split('\u{0C}').collect();
    assert!(pages.len() > 3);
    for page in &pages {
        assert_eq!(page.lines().count(), 8);
    }
    // The final page is not followed by a form feed.
    assert!(!out.ends_with('\u{0C}'));
}

#[test]
fn rendering_is_deterministic() {
    let make = || {
        plain_doc(
            "Same",
            &["Alpha", "Beta"],
            vec![para("first paragraph"), para("second paragraph")],
        )
    };
    let cfg = Config::new(12, 50, 1);
    let out1 = make().render(cfg);
    let out2 = make().render(cfg);
    assert_eq!(out1, out2);
}

#[test]
fn compact_lists_have_no_blank_between_items() {
    let cfg = Config::new(20, 40, 0);
    let list = Content::UnsortedList {
        contents: vec![para("a"), para("b"), para("c")],
        compact: true,
    };
    let out = plain_doc("L", &["X"], vec![list]).render(cfg);
    assert!(out.contains("* a\n* b\n* c"));
}

#[test]
fn spaced_lists_have_one_blank_after_each_item() {
    let cfg = Config::new(20, 40, 0);
    let list = Content::UnsortedList {
        contents: vec![para("a"), para("b"), para("c")],
        compact: false,
    };
    let out = plain_doc("L", &["X"], vec![list]).render(cfg);
    assert!(out.contains("* a\n\n* b\n\n* c\n"));
    assert!(!out.contains("* a\n* b"));
}

#[test]
fn ordered_list_labels_count_from_start() {
    let cfg = Config::new(20, 40, 0);
    let list = Content::OrderedList {
        contents: vec![para("one"), para("two"), para("three")],
        start: 0,
        style: OrderedListType::DecimalNumbers,
        compact: true,
    };
    let out = plain_doc("L", &["X"], vec![list]).render(cfg);
    assert!(out.contains("1 one\n2 two\n3 three"));
}

#[test]
fn letter_list_labels_wrap_around() {
    let cfg = Config::new(20, 40, 0);
    let list = Content::OrderedList {
        contents: vec![para("one"), para("two")],
        start: 25,
        style: OrderedListType::LowerCaseLetters,
        compact: true,
    };
    let out = plain_doc("L", &["X"], vec![list]).render(cfg);
    assert!(out.contains("z one\na two"));
}

#[test]
fn list_items_hang_indent_under_their_text() {
    let cfg = Config::new(20, 12, 0);
    let list = Content::OrderedList {
        contents: vec![para("aaa bbb ccc")],
        start: 0,
        style: OrderedListType::DecimalNumbers,
        compact: true,
    };
    let out = plain_doc("L", &["X"], vec![list]).render(cfg);
    // Label width 1 plus a space: continuation lines hang by 2 columns.
    assert!(out.contains("1 aaa bbb\n  ccc"));
}

#[test]
fn footer_page_label_takes_precedence() {
    let cfg = Config::new(10, 20, 0);
    let doc = plain_doc("T", &["Abcdefghijkl", "Mnopqrstuvwx"], vec![para("x")]);
    let out = doc.render(cfg);
    let last_line = out.lines().last().unwrap();
    assert_eq!(last_line, "Abcdefghijkl, Mnopq2");
    assert_eq!(last_line.chars().count(), 20);
}

#[test]
fn footer_pads_between_fields_to_page_width() {
    let cfg = Config::new(10, 40, 0);
    let doc = plain_doc("T", &["Doe"], vec![para("x")]);
    let out = doc.render(cfg);
    let last_line = out.lines().last().unwrap();
    assert_eq!(last_line, format!("Doe{}2", " ".repeat(36)));
}

#[test]
fn surnames_abbreviate_to_twelve_characters() {
    let cfg = Config::new(10, 60, 0);
    let doc = plain_doc("T", &["Extraordinarily"], vec![para("x")]);
    let out = doc.render(cfg);
    let last_line = out.lines().last().unwrap();
    assert!(last_line.starts_with("Extraordinar "));
    assert!(!last_line.contains("Extraordinari"));
}

#[test]
fn body_overflow_pages_carry_headers_and_roman_labels() {
    let cfg = Config::new(10, 40, 5);
    let doc = plain_doc(
        "Head",
        &["Doe"],
        vec![para("a"), para("b"), para("c"), para("d"), para("e")],
    );
    let out = doc.render(cfg);
    let pages: Vec<&str> = out.split('\u{0C}').collect();
    assert_eq!(pages.len(), 5);
    // The first numbered page carries "i".
    let abs_page: Vec<&str> = pages[2].lines().collect();
    assert_eq!(abs_page[9], format!("Doe{}i", " ".repeat(36)));
    // The body page overflows: its closing footer carries "ii".
    let body1: Vec<&str> = pages[3].lines().collect();
    assert_eq!(body1[9], format!("Doe{}ii", " ".repeat(35)));
    // The overflow page starts with the running header and ends "iii".
    let body2: Vec<&str> = pages[4].lines().collect();
    assert_eq!(body2[0], format!("{}December 1981", " ".repeat(27)));
    assert_eq!(body2[1], "Head");
    assert_eq!(body2[2], "");
    assert_eq!(body2[9], format!("Doe{}iii", " ".repeat(34)));
}

#[test]
fn bracketed_footer_style_wraps_the_label() {
    let cfg = Config {
        page_height: 10,
        page_width: 40,
        roman_pages: 1,
        header_start: 1,
        footer_style: FooterStyle::Bracketed,
    };
    let doc = plain_doc("T", &["Doe"], vec![para("x")]);
    let out = doc.render(cfg);
    assert!(out.contains("[Page i]"));
    let last_line = out.lines().last().unwrap();
    assert!(last_line.ends_with("[Page 2]"));
}

#[test]
fn header_threshold_is_caller_configurable() {
    let cfg = Config {
        page_height: 10,
        page_width: 40,
        roman_pages: 0,
        header_start: -10,
        footer_style: FooterStyle::Bare,
    };
    let doc = plain_doc("T", &["Doe"], vec![para("x")]);
    let out = doc.render(cfg);
    // With the threshold below the cover page, even it carries a header.
    let first_line = out.lines().next().unwrap();
    assert_eq!(first_line, format!("{}December 1981", " ".repeat(27)));
}

#[test]
fn top_level_headlines_are_centered_and_uppercased() {
    let cfg = Config::new(20, 40, 0);
    let headline = Content::Headline {
        text: "quiet title".to_string(),
        indent: 0,
        position: ContentPosition::Left,
    };
    let out = plain_doc("T", &["X"], vec![headline, para("after")]).render(cfg);
    assert!(out.contains("QUIET TITLE"));
    assert!(!out.contains("quiet title"));
}

#[test]
fn nested_headlines_keep_case_and_indent() {
    let cfg = Config::new(20, 40, 0);
    let headline = Content::Headline {
        text: "sub heading".to_string(),
        indent: 4,
        position: ContentPosition::Left,
    };
    let out = plain_doc("T", &["X"], vec![headline]).render(cfg);
    assert!(out.contains("\n    sub heading\n"));
}

#[test]
fn second_top_level_headline_breaks_the_page() {
    let cfg = Config::new(10, 40, 0);
    let h1 = Content::Headline {
        text: "one".to_string(),
        indent: 0,
        position: ContentPosition::Left,
    };
    let h2 = Content::Headline {
        text: "two".to_string(),
        indent: 0,
        position: ContentPosition::Left,
    };
    let out = plain_doc("T", &["X"], vec![h1, h2]).render(cfg);
    let pages: Vec<&str> = out.split('\u{0C}').collect();
    // Two cover pages, the abstract page, the first body page, and the
    // page the second headline forced.
    assert_eq!(pages.len(), 5);
    assert!(pages[3].contains("ONE"));
    assert!(pages[4].contains("TWO"));
}

#[test]
fn license_page_is_rendered_centered() {
    let cfg = Config::new(12, 40, 0);
    let mut doc = plain_doc("T", &["X"], vec![para("body")]);
    doc.license = Some("short license".to_string());
    let out = doc.render(cfg);
    assert!(out.contains(&format!("{}LICENSE", " ".repeat(17))));
    assert!(out.contains(&format!("{}short license", " ".repeat(14))));
}

#[test]
fn cover_line_joins_author_parts_with_single_spaces() {
    let cfg = Config::new(14, 60, 0);
    let mut author = plain_author("Siebert");
    author.first_name = Some("Julian".to_string());
    author.title = Some("Dr.".to_string());
    author.affiliation = Some(Institution {
        name: "ICANN".to_string(),
        department: None,
        street: None,
        postal_code: None,
        city: None,
        state: None,
        country: None,
        phone: None,
        email: None,
        website: None,
        code: None,
    });
    let doc = Document {
        title: "T".to_string(),
        subtitle: Some("below".to_string()),
        date: Date { year: 2020, month: 1, day: 15 },
        authors: vec![author],
        institutions: vec![Institution {
            name: "Somewhere".to_string(),
            department: None,
            street: None,
            postal_code: None,
            city: None,
            state: None,
            country: None,
            phone: None,
            email: None,
            website: None,
            code: None,
        }],
        abstract_text: "brief".to_string(),
        license: None,
        content: vec![para("x")],
    };
    let out = doc.render(cfg);
    assert!(out.contains("Dr. Julian Siebert ICANN"));
    assert!(out.contains("below"));
    assert!(out.contains("Somewhere"));
    assert!(out.contains("15 January 2020"));
}

#[test]
fn transliteration_applies_to_rendered_lines() {
    let cfg = Config::new(14, 40, 0);
    let doc = plain_doc("Begr\u{00FC}\u{00DF}ung", &["L\u{00F6}wendorf"], vec![para("x")]);
    let out = doc.render(cfg);
    assert!(out.contains("Begruessung"));
    assert!(out.contains("Loewendorf"));
    assert!(!out.contains('\u{00FC}'));
}

#[test]
fn centering_pads_with_ceiling_of_half_the_slack() {
    // Width 11, text length 4: slack 7, left pad 4; width 10: slack 6,
    // left pad 3.
    let cfg_odd = Config::new(12, 11, 0);
    let out_odd = plain_doc("abcd", &["X"], vec![para("x")]).render(cfg_odd);
    assert!(out_odd.contains(&format!("\n{}abcd\n", " ".repeat(4))));
    let cfg_even = Config::new(12, 10, 0);
    let out_even = plain_doc("abcd", &["X"], vec![para("x")]).render(cfg_even);
    assert!(out_even.contains(&format!("\n{}abcd\n", " ".repeat(3))));
}

#[test]
fn paragraphs_are_word_wrapped_at_the_column_budget() {
    // Width 9 leaves a budget of 7 columns past the paragraph indent.
    let cfg = Config::new(20, 9, 0);
    let out = plain_doc("T", &["X"], vec![para("aaa bbb ccc ddd")]).render(cfg);
    assert!(out.contains("  aaa bbb\n  ccc ddd\n"));
    assert!(!out.contains("aaa bbb ccc ddd"));
}
