use monotext::md::{
    finalize_list, parse_events, push_paragraph, push_text, split_frontmatter, str_trim,
    ListBuilder, MdEvent,
};
use monotext::{Content, OrderedListType};

#[test]
fn trimming_removes_surrounding_whitespace() {
    assert_eq!(str_trim("  a b \n"), "a b");
    assert_eq!(str_trim("abc"), "abc");
    assert_eq!(str_trim("   \t\n"), "");
    assert_eq!(str_trim(""), "");
}

#[test]
fn text_fragments_join_with_single_spaces() {
    let mut buf = String::new();
    push_text(&mut buf, "hello");
    push_text(&mut buf, "world");
    assert_eq!(buf, "hello world");
    let mut buf2 = String::from("ends ");
    push_text(&mut buf2, "here");
    assert_eq!(buf2, "ends here");
}

#[test]
fn paragraphs_land_at_top_level_without_open_lists() {
    let mut out: Vec<Content> = Vec::new();
    let mut stack: Vec<ListBuilder> = Vec::new();
    push_paragraph(&mut out, &mut stack, "  some text ");
    assert_eq!(out.len(), 1);
    assert!(matches!(&out[0], Content::Paragraph { text } if text == "some text"));
}

#[test]
fn closing_an_unopened_list_changes_nothing() {
    let mut out: Vec<Content> = Vec::new();
    let mut stack: Vec<ListBuilder> = Vec::new();
    finalize_list(&mut out, &mut stack);
    assert_eq!(out.len(), 0);
    assert_eq!(stack.len(), 0);
}

#[test]
fn event_fold_builds_a_paragraph() {
    let events = vec![
        MdEvent::ParagraphStart,
        MdEvent::Text { text: "hello".to_string() },
        MdEvent::Code { text: "code".to_string() },
        MdEvent::ParagraphEnd,
    ];
    let out = parse_events(&events);
    assert_eq!(out.len(), 1);
    assert!(matches!(&out[0], Content::Paragraph { text } if text == "hello code"));
}

#[test]
fn event_fold_builds_headings_with_level_indent() {
    let events = vec![
        MdEvent::HeadingStart,
        MdEvent::Text { text: "Intro".to_string() },
        MdEvent::HeadingEnd { level: 1 },
        MdEvent::HeadingStart,
        MdEvent::Text { text: "Deep".to_string() },
        MdEvent::HeadingEnd { level: 3 },
    ];
    let out = parse_events(&events);
    assert_eq!(out.len(), 2);
    assert!(matches!(&out[0], Content::Headline { text, indent, .. } if text == "Intro" && *indent == 0));
    assert!(matches!(&out[1], Content::Headline { text, indent, .. } if text == "Deep" && *indent == 4));
}

#[test]
fn event_fold_builds_ordered_lists_with_decimal_numbering() {
    let events = vec![
        MdEvent::ListStart { start: Some(3) },
        MdEvent::ItemStart,
        MdEvent::Text { text: "one".to_string() },
        MdEvent::ItemEnd,
        MdEvent::ItemStart,
        MdEvent::Text { text: "two".to_string() },
        MdEvent::ItemEnd,
        MdEvent::ListEnd,
    ];
    let out = parse_events(&events);
    assert_eq!(out.len(), 1);
    match &out[0] {
        Content::OrderedList { contents, start, style, compact } => {
            assert_eq!(contents.len(), 2);
            assert_eq!(*start, 3);
            assert!(matches!(style, OrderedListType::DecimalNumbers));
            assert!(!*compact);
            assert!(matches!(&contents[0], Content::Paragraph { text } if text == "one"));
            assert!(matches!(&contents[1], Content::Paragraph { text } if text == "two"));
        }
        _ => panic!("expected an ordered list"),
    }
}

#[test]
fn event_fold_nests_lists() {
    let events = vec![
        MdEvent::ListStart { start: None },
        MdEvent::ItemStart,
        MdEvent::Text { text: "outer".to_string() },
        MdEvent::ItemEnd,
        MdEvent::ListStart { start: None },
        MdEvent::ItemStart,
        MdEvent::Text { text: "inner".to_string() },
        MdEvent::ItemEnd,
        MdEvent::ListEnd,
        MdEvent::ListEnd,
    ];
    let out = parse_events(&events);
    assert_eq!(out.len(), 1);
    match &out[0] {
        Content::UnsortedList { contents, .. } => {
            assert_eq!(contents.len(), 2);
            assert!(matches!(&contents[0], Content::Paragraph { text } if text == "outer"));
            assert!(matches!(&contents[1], Content::UnsortedList { contents, .. } if contents.len() == 1));
        }
        _ => panic!("expected an unordered list"),
    }
}

#[test]
fn frontmatter_splits_on_the_first_two_separators() {
    let src = "---\ntitle: x\n---\nbody text";
    let (yaml, body) = split_frontmatter(src).expect("separators present");
    assert_eq!(yaml, "title: x");
    assert_eq!(body, "body text");
}

#[test]
fn frontmatter_keeps_later_separators_in_the_body() {
    let src = "---\nmeta\n---\nfirst\n---\nsecond";
    let (yaml, body) = split_frontmatter(src).expect("separators present");
    assert_eq!(yaml, "meta");
    assert_eq!(body, "first\n---\nsecond");
}

#[test]
fn frontmatter_missing_separators_is_rejected() {
    assert!(split_frontmatter("no separators here").is_none());
    assert!(split_frontmatter("---\nonly one separator").is_none());
    assert!(split_frontmatter("").is_none());
}
