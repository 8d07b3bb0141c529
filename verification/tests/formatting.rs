use quick_xml::events::{BytesCData, BytesDecl, BytesEnd, BytesStart, BytesText, Event};
use spare_parts_xml::convert::format_document;
use spare_parts_xml::empty_tags::{
    check_placement, collapse_captures, replace_empty_tags, Capture,
};
use spare_parts_xml::error::Error;
use spare_parts_xml::header::append_xml_header;
use spare_parts_xml::indent::{prettify_xml, render_indented};
use spare_parts_xml::input_path::does_exist;
use spare_parts_xml::line_ending::LineEnding;
use spare_parts_xml::pair::{check_pair, is_space_char};
use spare_parts_xml::xml_reader::{
    check_readable, is_blank_text, is_insignificant, tokenize, EventKind, XmlEvent,
};

fn event(kind: EventKind, content: &str) -> XmlEvent {
    XmlEvent { kind, content: content.to_string() }
}

/// What the indenting writer of quick-xml makes of a document, read with
/// every text as it stands and without the texts that are white space
/// only.
fn indented_by_quick_xml(xml: &str) -> String {
    let mut reader = quick_xml::Reader::from_str(xml);
    let mut writer = quick_xml::Writer::new_with_indent(Vec::new(), b' ', 4);
    loop {
        match reader.read_event().unwrap() {
            Event::Eof => break,
            Event::Text(text) if text.iter().all(|b| b" \t\r\n".contains(b)) => {}
            event => writer.write_event(&event).unwrap(),
        }
    }
    String::from_utf8(writer.into_inner()).unwrap()
}

/// What the indenting writer of quick-xml makes of a list of events.
fn written_by_quick_xml(events: &[XmlEvent]) -> String {
    let mut writer = quick_xml::Writer::new_with_indent(Vec::new(), b' ', 4);
    for event in events {
        let text = event.content.as_str();
        let event = match event.kind {
            EventKind::Start => Event::Start(BytesStart::new(text)),
            EventKind::End => Event::End(BytesEnd::new(text)),
            EventKind::Empty => Event::Empty(BytesStart::new(text)),
            EventKind::Text => Event::Text(BytesText::from_escaped(text)),
            EventKind::Comment => Event::Comment(BytesText::from_escaped(text)),
            EventKind::CData => Event::CData(BytesCData::new(text)),
            EventKind::Decl => Event::Decl(BytesDecl::from_start(BytesStart::new(text))),
            EventKind::PI => Event::PI(BytesText::from_escaped(text)),
            EventKind::DocType => Event::DocType(BytesText::from_escaped(text)),
            EventKind::Eof => Event::Eof,
        };
        writer.write_event(event).unwrap();
    }
    String::from_utf8(writer.into_inner()).unwrap()
}

/// What a replacement by pattern makes of a document.
fn collapsed_by_replace_all(xml: &str) -> String {
    let regex = fancy_regex::Regex::new(r"<([^/]+?)>\s+</[^/]+?>").unwrap();
    regex
        .replace_all(xml, |caps: &fancy_regex::Captures<'_, str>| format!("<{} />", &caps[1]))
        .to_string()
}

const SAMPLES: [&str; 12] = [
    "<a><b>text</b><c></c></a>",
    "<productList><product><id>1</id><name></name></product></productList>",
    "  <a>\n   <b>  spaced  text </b>\n <c/>\n</a>  ",
    "<?xml version=\"1.0\"?><!DOCTYPE note><note><!-- remark --><to x=\"1\" y='2'>T</to></note>",
    "<a><![CDATA[ <raw> & ]]></a>",
    "<a>text<b/>more<c>x</c></a>",
    "<a href=\"http://example.org/x\"></a>",
    "<a k=\"v\"></a><b></b>",
    "<c><d>",
    "<?pi data?><r>\u{e9}\u{20ac}\u{1f600}</r>",
    "",
    "plain text",
];

#[test]
fn tokenize_reads_events_without_the_white_space_between() {
    let events =
        tokenize(" <a x=\"1\"> <b>hi </b>\r\n\t<c/><!--n--><![CDATA[d]]> </a> ").unwrap();
    let seen: Vec<(EventKind, &str)> =
        events.iter().map(|e| (e.kind, e.content.as_str())).collect();
    assert_eq!(
        seen,
        vec![
            (EventKind::Start, "a x=\"1\""),
            (EventKind::Start, "b"),
            (EventKind::Text, "hi "),
            (EventKind::End, "b"),
            (EventKind::Empty, "c"),
            (EventKind::Comment, "n"),
            (EventKind::CData, "d"),
            (EventKind::End, "a"),
        ]
    );
}

#[test]
fn tokenize_reads_declaration_doctype_and_instruction() {
    let events = tokenize("<?xml version=\"1.0\"?><!DOCTYPE note><?go now?>").unwrap();
    let seen: Vec<(EventKind, &str)> =
        events.iter().map(|e| (e.kind, e.content.as_str())).collect();
    assert_eq!(
        seen,
        vec![
            (EventKind::Decl, "xml version=\"1.0\""),
            (EventKind::DocType, "note"),
            (EventKind::PI, "go now"),
        ]
    );
}

#[test]
fn tokenize_keeps_the_white_space_of_a_text() {
    let events = tokenize("<a> x </a><b>\u{a0}</b><c><![CDATA[ ]]></c>").unwrap();
    let seen: Vec<(EventKind, &str)> =
        events.iter().map(|e| (e.kind, e.content.as_str())).collect();
    assert_eq!(
        seen,
        vec![
            (EventKind::Start, "a"),
            (EventKind::Text, " x "),
            (EventKind::End, "a"),
            (EventKind::Start, "b"),
            (EventKind::Text, "\u{a0}"),
            (EventKind::End, "b"),
            (EventKind::Start, "c"),
            (EventKind::CData, " "),
            (EventKind::End, "c"),
        ]
    );
}

#[test]
fn only_blank_text_is_insignificant() {
    assert!(is_blank_text(""));
    assert!(is_blank_text(" \t\r\n"));
    assert!(!is_blank_text(" x "));
    assert!(!is_blank_text("\u{a0}"));
    assert!(is_insignificant(&event(EventKind::Text, "\n    ")));
    assert!(!is_insignificant(&event(EventKind::Text, "\n  . ")));
    assert!(!is_insignificant(&event(EventKind::CData, " ")));
    assert!(!is_insignificant(&event(EventKind::Comment, "")));
}

#[test]
fn tokenize_of_nothing_is_nothing() {
    assert!(tokenize("").unwrap().is_empty());
    assert!(tokenize(" \n\t ").unwrap().is_empty());
}

#[test]
fn tokenize_refuses_a_wrong_closing_tag() {
    assert_eq!(tokenize("<a></b>").err(), Some(Error::Format));
    assert_eq!(tokenize("</a>").err(), Some(Error::Format));
    assert_eq!(tokenize("<a><!-- open").err(), Some(Error::Format));
}

#[test]
fn a_document_type_without_a_name_is_found() {
    assert!(!check_readable("<!DOCTYPE>"));
    assert!(!check_readable("<a/><!doctype \t\r\n><b/>"));
    assert!(!check_readable("<!DocType >"));
    assert!(!check_readable("<!-- <!DOCTYPE> -->"));
    assert!(check_readable("<!DOCTYPE note>"));
    assert!(check_readable("<!DOCTYPE \n note>"));
    assert!(check_readable("<!DOCTYPE"));
    assert!(check_readable("<!DOCTYPE  "));
    assert!(check_readable("< !DOCTYPE>"));
    assert!(check_readable("<!DOCTYPE\u{a0}>"));
    assert!(check_readable(""));
}

#[test]
fn a_document_type_without_a_name_is_not_read() {
    assert_eq!(tokenize("<!DOCTYPE>").err(), Some(Error::Format));
    assert_eq!(tokenize("<r><!doctype  ></r>").err(), Some(Error::Format));
    assert_eq!(prettify_xml("<!DOCTYPE >", LineEnding::Lf), Err(Error::Format));
    assert_eq!(format_document("<!DOCTYPE\n>", LineEnding::Lf), Err(Error::Format));
}

#[test]
fn render_writes_each_kind_with_its_delimiters() {
    let events = vec![
        event(EventKind::Decl, "xml version=\"1.0\""),
        event(EventKind::DocType, "r"),
        event(EventKind::Start, "r a=\"1\""),
        event(EventKind::Comment, " c "),
        event(EventKind::PI, "p q"),
        event(EventKind::Empty, "e"),
        event(EventKind::Start, "t"),
        event(EventKind::Text, "x"),
        event(EventKind::CData, "y"),
        event(EventKind::End, "t"),
        event(EventKind::Eof, ""),
        event(EventKind::End, "r"),
    ];
    assert_eq!(
        render_indented(&events, LineEnding::Lf),
        "<?xml version=\"1.0\"?>\n<!DOCTYPE r>\n<r a=\"1\">\n    <!-- c -->\n    <?p q?>\n    <e/>\n    <t>x<![CDATA[y]]></t>\n</r>"
    );
}

#[test]
fn render_agrees_with_the_indenting_writer_on_any_events() {
    let kinds = [
        EventKind::Start,
        EventKind::End,
        EventKind::Empty,
        EventKind::Text,
        EventKind::Comment,
        EventKind::CData,
        EventKind::Decl,
        EventKind::PI,
        EventKind::DocType,
        EventKind::Eof,
    ];
    let mut seed: u32 = 12345;
    for _ in 0..300 {
        let mut events = Vec::new();
        for position in 0..12 {
            seed = seed.wrapping_mul(1103515245).wrapping_add(12345);
            let kind = kinds[(seed >> 16) as usize % kinds.len()];
            let content = if kind == EventKind::Eof { String::new() } else { format!("n{}", position) };
            events.push(XmlEvent { kind, content });
        }
        assert_eq!(render_indented(&events, LineEnding::Lf), written_by_quick_xml(&events));
    }
}

#[test]
fn render_never_indents_above_the_top_level() {
    let events = vec![
        event(EventKind::End, "a"),
        event(EventKind::End, "b"),
        event(EventKind::Start, "c"),
        event(EventKind::Start, "d"),
    ];
    assert_eq!(render_indented(&events, LineEnding::Lf), "</a>\n</b>\n<c>\n    <d>");
}

#[test]
fn render_of_no_events_is_empty() {
    assert_eq!(render_indented(&Vec::new(), LineEnding::CrLf), "");
}

#[test]
fn prettify_indents_by_four_spaces_a_level() {
    assert_eq!(
        prettify_xml("<a><b><c>1</c></b><d></d></a>", LineEnding::Lf).unwrap(),
        "<a>\n    <b>\n        <c>1</c>\n    </b>\n    <d>\n    </d>\n</a>"
    );
}

#[test]
fn prettify_keeps_every_text_as_it_stands() {
    assert_eq!(prettify_xml("<a> x </a>", LineEnding::Lf).unwrap(), "<a> x </a>");
    assert_eq!(
        prettify_xml("<r><a> A100 </a>  <b>\n two\n lines \n</b></r>", LineEnding::Lf).unwrap(),
        "<r>\n    <a> A100 </a>\n    <b>\n two\n lines \n</b>\n</r>"
    );
}

#[test]
fn prettify_drops_only_text_that_is_white_space() {
    assert_eq!(
        prettify_xml(" <a>  <b> </b>\n</a>\n", LineEnding::Lf).unwrap(),
        "<a>\n    <b>\n    </b>\n</a>"
    );
}

#[test]
fn prettify_separates_lines_as_asked() {
    assert_eq!(
        prettify_xml("<a><b>1</b></a>", LineEnding::CrLf).unwrap(),
        "<a>\r\n    <b>1</b>\r\n</a>"
    );
}

#[test]
fn prettify_fails_on_malformed_xml() {
    assert_eq!(prettify_xml("<a><b></a>", LineEnding::Lf), Err(Error::Format));
}

#[test]
fn prettify_agrees_with_the_indenting_writer() {
    for sample in SAMPLES {
        assert_eq!(
            prettify_xml(sample, LineEnding::Lf).unwrap(),
            indented_by_quick_xml(sample),
            "{:?}",
            sample
        );
    }
}

#[test]
fn empty_pair_collapses() {
    assert_eq!(replace_empty_tags("<foo>   \n  </foo>").unwrap(), "<foo />");
}

#[test]
fn element_with_text_stays() {
    assert_eq!(replace_empty_tags("<foo>bar</foo>").unwrap(), "<foo>bar</foo>");
    assert_eq!(replace_empty_tags("<foo></foo>").unwrap(), "<foo></foo>");
    assert_eq!(replace_empty_tags("").unwrap(), "");
}

#[test]
fn only_empty_children_collapse() {
    assert_eq!(
        replace_empty_tags("<p>\n    <a>\n    </a>\n    <b>x</b>\n    <c>\r\n    </c>\n</p>").unwrap(),
        "<p>\n    <a />\n    <b>x</b>\n    <c />\n</p>"
    );
}

#[test]
fn a_tag_pairs_only_with_its_own_closing_tag() {
    assert_eq!(replace_empty_tags("<a> </b>").unwrap(), "<a> </b>");
    assert_eq!(replace_empty_tags("<a>\n</ab>").unwrap(), "<a>\n</ab>");
    assert_eq!(replace_empty_tags("<ab>\n</a>").unwrap(), "<ab>\n</a>");
    assert_eq!(replace_empty_tags("<a> </b><c> </c>").unwrap(), "<a> </b><c />");
    assert_eq!(replace_empty_tags("<a>b> </a>").unwrap(), "<a>b> </a>");
    assert_eq!(replace_empty_tags("<a> </a >").unwrap(), "<a />");
    assert_eq!(replace_empty_tags("<a k=\"x>y\">\n</a>").unwrap(), "<a k=\"x>y\" />");
    assert_eq!(replace_empty_tags("<a>x<b k=\"1\">\u{2003}</b>").unwrap(), "<a>x<b k=\"1\" />");
}

#[test]
fn collapsing_never_lengthens() {
    for sample in SAMPLES {
        let pretty = indented_by_quick_xml(sample);
        let collapsed = replace_empty_tags(&pretty).unwrap();
        assert!(collapsed.chars().count() <= pretty.chars().count());
        assert_eq!(collapsed == pretty, collapsed.chars().count() == pretty.chars().count());
    }
}

fn pair(whole: &str, group: &str) -> bool {
    check_pair(&whole.chars().collect(), &group.chars().collect())
}

#[test]
fn a_pair_is_two_tags_of_one_name_around_white_space() {
    assert!(pair("<a> </a>", "a"));
    assert!(pair("<a k=\"v\">\r\n\t</a>", "a k=\"v\""));
    assert!(pair("<a>x<b>\n</b>", "a>x<b"));
    assert!(pair("<a> </a \n>", "a"));
    assert!(pair("<a k=\"x>y\" n='>'> </a>", "a k=\"x>y\" n='>'"));
    assert!(!pair("<a k=\"x\">y\"> </a>", "a k=\"x\">y\""));
    assert!(!pair("<a k='\"'>'> </a>", "a k='\"'>'"));
    assert!(pair("<\u{e9}>\u{3000}</\u{e9}>", "\u{e9}"));
    assert!(!pair("<a> </b>", "a"));
    assert!(!pair("<a></a>", "a"));
    assert!(!pair("<a> </a>", "b"));
    assert!(!pair("<a> </a>", ""));
    assert!(!pair("<a> x</a>", "a"));
    assert!(!pair("<a> </a b>", "a"));
    assert!(!pair("<a>b> </a>", "a>b"));
    assert!(!pair("< a> </a>", " a"));
    assert!(!pair("<a> <a>", "a"));
    assert!(!pair("<a> </a", "a"));
    assert!(!pair("<a> </>", "a"));
    assert!(!pair("", ""));
}

#[test]
fn white_space_is_what_unicode_calls_white_space() {
    for code in 0..0x11000u32 {
        if let Some(c) = char::from_u32(code) {
            assert_eq!(is_space_char(c), c.is_whitespace(), "{:x}", code);
        }
    }
}

#[test]
fn attributes_stay_in_the_collapsed_tag() {
    assert_eq!(
        replace_empty_tags("<a k=\"v\" n='1'>\n</a>").unwrap(),
        "<a k=\"v\" n='1' />"
    );
}

#[test]
fn text_around_a_pair_stays() {
    assert_eq!(
        replace_empty_tags("\u{e9}<a>x<b>\t</b>\u{20ac}</a>\u{1f600}").unwrap(),
        "\u{e9}<a>x<b />\u{20ac}</a>\u{1f600}"
    );
}

#[test]
fn collapse_agrees_with_replacement_by_pattern_where_tags_match() {
    for sample in SAMPLES {
        let pretty = indented_by_quick_xml(sample);
        for text in [sample, pretty.as_str()] {
            assert_eq!(
                replace_empty_tags(text).unwrap(),
                collapsed_by_replace_all(text),
                "{:?}",
                text
            );
        }
    }
}

#[test]
fn collapse_captures_splices_by_byte_offsets() {
    let text = "\u{e9}<ab>  </ab>z<c> </c>";
    let captures = vec![
        Capture { start: 2, end: 13, group_start: 3, group_end: 5 },
        Capture { start: 14, end: 22, group_start: 15, group_end: 16 },
    ];
    assert!(check_placement(text, &captures));
    assert_eq!(collapse_captures(text, &captures), "\u{e9}<ab />z<c />");
    assert_eq!(collapse_captures(text, &Vec::new()), text);
}

#[test]
fn check_placement_refuses_what_cannot_be_spliced() {
    let text = "\u{e9}<ab>  </ab>";
    let inside_a_character = vec![Capture { start: 1, end: 13, group_start: 3, group_end: 5 }];
    assert!(!check_placement(text, &inside_a_character));
    let past_the_end = vec![Capture { start: 2, end: 14, group_start: 3, group_end: 5 }];
    assert!(!check_placement(text, &past_the_end));
    let group_outside = vec![Capture { start: 4, end: 13, group_start: 3, group_end: 5 }];
    assert!(!check_placement(text, &group_outside));
    let overlapping = vec![
        Capture { start: 2, end: 13, group_start: 3, group_end: 5 },
        Capture { start: 12, end: 13, group_start: 12, group_end: 13 },
    ];
    assert!(!check_placement(text, &overlapping));
    assert!(check_placement(text, &Vec::new()));
}

#[test]
fn header_comes_first_on_its_own_line() {
    assert_eq!(
        append_xml_header("<a/>", LineEnding::Lf),
        "<?xml version=\"1.0\" encoding=\"UTF-8\" standalone=\"yes\"?>\n<a/>"
    );
    assert_eq!(
        append_xml_header("", LineEnding::CrLf),
        "<?xml version=\"1.0\" encoding=\"UTF-8\" standalone=\"yes\"?>\r\n"
    );
}

#[test]
fn line_endings_have_their_text() {
    assert_eq!(LineEnding::Lf.as_str(), "\n");
    assert_eq!(LineEnding::CrLf.as_str(), "\r\n");
}

#[test]
fn format_runs_the_three_passes() {
    assert_eq!(
        format_document("<a><b></b><c>1</c></a>", LineEnding::Lf).unwrap(),
        "<?xml version=\"1.0\" encoding=\"UTF-8\" standalone=\"yes\"?>\n<a>\n    <b />\n    <c>1</c>\n</a>"
    );
}

#[test]
fn formatting_a_formatted_document_changes_nothing() {
    for eol in [LineEnding::Lf, LineEnding::CrLf] {
        for sample in SAMPLES {
            let pretty = prettify_xml(sample, eol).unwrap();
            let once = replace_empty_tags(&pretty).unwrap();
            let again = replace_empty_tags(&prettify_xml(&once, eol).unwrap()).unwrap();
            assert_eq!(again, once, "{:?}", sample);
        }
    }
}

#[test]
fn indenting_an_indented_document_changes_nothing() {
    for eol in [LineEnding::Lf, LineEnding::CrLf] {
        for sample in SAMPLES {
            let once = prettify_xml(sample, eol).unwrap();
            assert_eq!(prettify_xml(&once, eol).unwrap(), once, "{:?}", sample);
        }
    }
}

#[test]
fn collapsing_a_collapsed_document_changes_nothing() {
    for sample in SAMPLES {
        let once = replace_empty_tags(&indented_by_quick_xml(sample)).unwrap();
        assert_eq!(replace_empty_tags(&once).unwrap(), once, "{:?}", sample);
    }
}

#[test]
fn a_path_that_exists_is_accepted() {
    assert_eq!(does_exist("input.csv", true), Ok("input.csv".to_string()));
}

#[test]
fn a_path_that_does_not_exist_is_refused() {
    assert_eq!(
        does_exist("no/such/file.csv", false),
        Err("\"no/such/file.csv\" does not exist".to_string())
    );
}
