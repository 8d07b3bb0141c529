use spare_parts_xml::column::Column;
use spare_parts_xml::convert::{convert, format_document};
use spare_parts_xml::error::{Error, ParseError};
use spare_parts_xml::line_ending::LineEnding;

const HEADER: &str = "LFDNR;ART_ID_ET;DESC_ET;BESTELLNUMMER;BESTELLTEXT;SUCHTEXT\n";

fn catalogue(rows: &str) -> Vec<u8> {
    format!("{}{}", HEADER, rows).into_bytes()
}

#[test]
fn converts_one_row_into_the_documented_shape() {
    let input = catalogue("1;A100;Bolt;B200;Order text;search term\n");
    let output = convert(input, false, LineEnding::Lf).unwrap();
    assert_eq!(
        output,
        "<?xml version=\"1.0\" encoding=\"UTF-8\" standalone=\"yes\"?>\n\
         <productList>\n    \
             <product>\n        \
                 <id>1</id>\n        \
                 <articleNumber>A100</articleNumber>\n        \
                 <articleDescription>Bolt</articleDescription>\n        \
                 <orderNumber>B200</orderNumber>\n        \
                 <orderDescription>Order text</orderDescription>\n        \
                 <articleSearchText><![CDATA[search term]]></articleSearchText>\n    \
             </product>\n\
         </productList>"
    );
}

#[test]
fn search_text_becomes_a_character_data_section() {
    let input =
        b"LFDNR;ART_ID_ET;DESC_ET;BESTELLNUMMER;BESTELLTEXT;SUCHTEXT\n1;A100;Bolt;B200;Order text;search<term"
            .to_vec();
    let output = convert(input, false, LineEnding::Lf).unwrap();
    assert!(output.contains("<id>1</id>"));
    assert!(output
        .contains("<articleSearchText><![CDATA[search&lt;term]]></articleSearchText>"));
    assert!(!output.contains("&lt;![CDATA["));
    assert!(!output.contains("]]&gt;"));
}

#[test]
fn a_closing_delimiter_in_the_search_text_ends_the_section_early() {
    let input = catalogue("1;A;B;C;D;a]]>b\n");
    let output = convert(input, false, LineEnding::Lf).unwrap();
    assert!(output.contains("<articleSearchText><![CDATA[a]]>b]]></articleSearchText>"));
}

#[test]
fn special_characters_stay_escaped_inside_the_section() {
    let input = catalogue("1;A;B;C;D;\"R&D \"\"x\"\" <y>\"\n");
    let output = convert(input, false, LineEnding::Lf).unwrap();
    assert!(output.contains(
        "<articleSearchText><![CDATA[R&amp;D &quot;x&quot; &lt;y&gt;]]></articleSearchText>"
    ));
}

#[test]
fn a_delimiter_in_another_field_is_restored_too() {
    let input = catalogue("1;<![CDATA[A]]>;B;C;D;E\n");
    let output = convert(input, false, LineEnding::Lf).unwrap();
    assert!(output.contains("<articleNumber><![CDATA[A]]></articleNumber>"));
}

#[test]
fn white_space_at_the_ends_of_a_field_is_kept() {
    let input = catalogue("1; A100 ;\" two  words \";B;C; s \n");
    let output = convert(input, false, LineEnding::Lf).unwrap();
    assert!(output.contains("<articleNumber> A100 </articleNumber>"));
    assert!(output.contains("<articleDescription> two  words </articleDescription>"));
    assert!(output.contains("<articleSearchText><![CDATA[ s ]]></articleSearchText>"));
}

#[test]
fn a_field_of_white_space_only_becomes_an_empty_element() {
    let input = catalogue("1;   ;B;C;D;E\n");
    let output = convert(input, false, LineEnding::Lf).unwrap();
    assert!(output.contains("        <articleNumber />\n"));
}

#[test]
fn rows_keep_their_order() {
    let input = catalogue("3;C;c;c;c;c\n1;A;a;a;a;a\n2;B;b;b;b;b\n1;A;a;a;a;a\n");
    let output = convert(input, false, LineEnding::Lf).unwrap();
    let ids: Vec<&str> = output
        .lines()
        .filter(|line| line.trim_start().starts_with("<id>"))
        .map(|line| line.trim())
        .collect();
    assert_eq!(ids, vec!["<id>3</id>", "<id>1</id>", "<id>2</id>", "<id>1</id>"]);
}

#[test]
fn empty_fields_become_self_closing_tags() {
    let input = catalogue("7;;;;;\n");
    let output = convert(input, false, LineEnding::Lf).unwrap();
    assert!(output.contains("        <articleNumber />\n"));
    assert!(output.contains("        <orderDescription />\n"));
    assert!(output.contains("<articleSearchText><![CDATA[]]></articleSearchText>"));
}

#[test]
fn a_catalogue_without_rows_is_one_empty_element() {
    let output = convert(HEADER.as_bytes().to_vec(), false, LineEnding::Lf).unwrap();
    assert_eq!(
        output,
        "<?xml version=\"1.0\" encoding=\"UTF-8\" standalone=\"yes\"?>\n<productList/>"
    );
}

#[test]
fn carriage_returns_separate_the_lines_where_asked() {
    let input = catalogue("1;A;B;C;D;E\n");
    let output = convert(input, false, LineEnding::CrLf).unwrap();
    assert!(output.starts_with(
        "<?xml version=\"1.0\" encoding=\"UTF-8\" standalone=\"yes\"?>\r\n<productList>\r\n    <product>\r\n        <id>1</id>\r\n"
    ));
    assert_eq!(output.matches('\n').count(), output.matches("\r\n").count());
}

#[test]
fn legacy_mode_reads_windows_1252() {
    let mut input = catalogue("");
    input.extend_from_slice(b"1;caf\xE9;\x80 5;B;C;D\n");
    let output = convert(input, true, LineEnding::Lf).unwrap();
    assert!(output.contains("<articleNumber>caf\u{e9}</articleNumber>"));
    assert!(output.contains("<articleDescription>\u{20ac} 5</articleDescription>"));
}

#[test]
fn legacy_mode_writes_e_acute_as_one_character() {
    let input =
        b"LFDNR;ART_ID_ET;DESC_ET;BESTELLNUMMER;BESTELLTEXT;SUCHTEXT\n1;A100;caf\xE9;B200;Order;s"
            .to_vec();
    let output = convert(input, true, LineEnding::Lf).unwrap();
    assert!(output.starts_with("<?xml version=\"1.0\" encoding=\"UTF-8\" standalone=\"yes\"?>"));
    assert!(output.contains("<articleDescription>caf\u{e9}</articleDescription>"));
    assert!(output.as_bytes().windows(5).any(|w| w == b"caf\xC3\xA9"));
}

#[test]
fn utf8_mode_never_writes_e_acute_for_a_stray_byte() {
    let input =
        b"LFDNR;ART_ID_ET;DESC_ET;BESTELLNUMMER;BESTELLTEXT;SUCHTEXT\n1;A100;caf\xE9;B200;Order;s"
            .to_vec();
    match convert(input, false, LineEnding::Lf) {
        Ok(output) => assert!(!output.contains("caf\u{e9}")),
        Err(error) => assert_eq!(error, Error::Parse(ParseError::Malformed)),
    }
}

#[test]
fn every_row_gives_one_product_in_its_place() {
    let rows = [("3", "c"), ("1", "a"), ("3", "c"), ("2", "b"), ("1", "z")];
    let mut text = String::new();
    for (id, number) in rows {
        text.push_str(&format!("{};{};d;on;ot;s\n", id, number));
    }
    let output = convert(catalogue(&text), false, LineEnding::Lf).unwrap();
    let products: Vec<&str> = output.split("<product>").skip(1).collect();
    assert_eq!(products.len(), rows.len());
    for (product, (id, number)) in products.iter().zip(rows) {
        assert!(product.contains(&format!("<id>{}</id>", id)));
        assert!(product.contains(&format!("<articleNumber>{}</articleNumber>", number)));
    }
}

#[test]
fn a_stray_byte_is_no_utf8_text() {
    let mut input = catalogue("");
    input.extend_from_slice(b"1;caf\xE9;A;B;C;D\n");
    assert_eq!(
        convert(input, false, LineEnding::Lf),
        Err(Error::Parse(ParseError::Malformed))
    );
}

#[test]
fn a_missing_column_ends_the_conversion() {
    let input = b"LFDNR;ART_ID_ET;DESC_ET;BESTELLNUMMER;BESTELLTEXT\n1;A;B;C;D\n".to_vec();
    assert_eq!(
        convert(input, false, LineEnding::Lf),
        Err(Error::Parse(ParseError::MissingColumn(Column::ArticleSearchText)))
    );
}

#[test]
fn a_missing_column_is_found_without_any_row() {
    let input = b"ART_ID_ET;DESC_ET;BESTELLNUMMER;BESTELLTEXT;SUCHTEXT\n".to_vec();
    assert_eq!(
        convert(input, false, LineEnding::Lf),
        Err(Error::Parse(ParseError::MissingColumn(Column::Id)))
    );
}

#[test]
fn a_bad_id_ends_the_conversion() {
    let input = catalogue("1;A;B;C;D;E\nx2;A;B;C;D;E\n");
    assert_eq!(
        convert(input, false, LineEnding::Lf),
        Err(Error::Parse(ParseError::InvalidId(1)))
    );
}

#[test]
fn a_row_of_another_length_ends_the_conversion() {
    let input = catalogue("1;A;B;C;D;E\n2;A;B;C;D\n");
    assert_eq!(
        convert(input, false, LineEnding::Lf),
        Err(Error::Parse(ParseError::Malformed))
    );
}

#[test]
fn columns_may_stand_in_any_order_among_others() {
    let input =
        b"SUCHTEXT;extra;BESTELLTEXT;BESTELLNUMMER;DESC_ET;ART_ID_ET;LFDNR\ns;unused;ot;on;d;a;42\n"
            .to_vec();
    let output = convert(input, false, LineEnding::Lf).unwrap();
    assert!(output.contains(
        "<id>42</id>\n        <articleNumber>a</articleNumber>\n        <articleDescription>d</articleDescription>\n        <orderNumber>on</orderNumber>\n        <orderDescription>ot</orderDescription>\n        <articleSearchText><![CDATA[s]]></articleSearchText>"
    ));
    assert!(!output.contains("unused"));
}

#[test]
fn quoted_fields_hold_delimiters_and_quotes() {
    let input = catalogue("1;\"a;b\";\"say \"\"hi\"\"\";C;D;E\n");
    let output = convert(input, false, LineEnding::Lf).unwrap();
    assert!(output.contains("<articleNumber>a;b</articleNumber>"));
    assert!(output.contains("<articleDescription>say &quot;hi&quot;</articleDescription>"));
}

#[test]
fn malformed_xml_is_not_formatted() {
    assert_eq!(format_document("<a><b></a>", LineEnding::Lf), Err(Error::Format));
}
