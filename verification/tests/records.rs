use spare_parts_xml::catalog::parse_catalog;
use spare_parts_xml::cdata::wrap_cdata;
use spare_parts_xml::column::Column;
use spare_parts_xml::encoding::decode_input;
use spare_parts_xml::error::{Error, ParseError};
use spare_parts_xml::id::parse_id;
use spare_parts_xml::records::{locate, read_header, read_row, records_from_rows, Layout};
use spare_parts_xml::text::chars_of;

fn strings(fields: &[&str]) -> Vec<String> {
    fields.iter().map(|field| field.to_string()).collect()
}

fn usual_header() -> Vec<String> {
    strings(&["LFDNR", "ART_ID_ET", "DESC_ET", "BESTELLNUMMER", "BESTELLTEXT", "SUCHTEXT"])
}

#[test]
fn ids_are_decimal_numbers() {
    assert_eq!(parse_id("0"), Some(0));
    assert_eq!(parse_id("1"), Some(1));
    assert_eq!(parse_id("0042"), Some(42));
    assert_eq!(parse_id("+7"), Some(7));
    assert_eq!(parse_id("4294967295"), Some(4294967295));
    assert_eq!(parse_id("00000000004294967295"), Some(4294967295));
}

#[test]
fn ids_may_be_hexadecimal_after_0x() {
    assert_eq!(parse_id("0x1F"), Some(31));
    assert_eq!(parse_id("0xff"), Some(255));
    assert_eq!(parse_id("0x+a"), Some(10));
    assert_eq!(parse_id("0xFFFFFFFF"), Some(4294967295));
    assert_eq!(parse_id("0x100000000"), None);
    assert_eq!(parse_id("0x"), None);
    assert_eq!(parse_id("0X1F"), None);
    assert_eq!(parse_id("1F"), None);
    assert_eq!(parse_id("0xg"), None);
}

#[test]
fn what_is_no_number_is_no_id() {
    for field in ["", "+", "-", "-1", "1.5", " 1", "1 ", "1_000", "abc", "++1", "1+", "\u{664}"] {
        assert_eq!(parse_id(field), None, "{:?}", field);
    }
}

#[test]
fn ids_above_32_bits_are_out_of_range() {
    assert_eq!(parse_id("4294967296"), None);
    assert_eq!(parse_id("99999999999999999999999999"), None);
}

#[test]
fn ids_are_read_as_the_standard_library_reads_them() {
    for field in ["0", "17", "+17", "-17", "017", "4294967295", "4294967296", "", "+", "a", "1a"] {
        assert_eq!(parse_id(field), field.parse::<u32>().ok(), "{:?}", field);
    }
    for digits in ["0", "fF", "+1a", "-1", "", "100000000", "ffffffff", "g", "1 "] {
        assert_eq!(
            parse_id(&format!("0x{}", digits)),
            u32::from_str_radix(digits, 16).ok(),
            "{:?}",
            digits
        );
    }
}

#[test]
fn chars_of_gives_the_characters() {
    assert_eq!(chars_of("a\u{e9}\u{1f600}"), vec!['a', '\u{e9}', '\u{1f600}']);
    assert!(chars_of("").is_empty());
}

#[test]
fn locate_finds_a_column_named_once() {
    let header = strings(&["x", "SUCHTEXT", "LFDNR"]);
    assert_eq!(locate(&header, Column::Id), Ok(2));
    assert_eq!(locate(&header, Column::ArticleSearchText), Ok(1));
    assert_eq!(
        locate(&header, Column::OrderNumber),
        Err(ParseError::MissingColumn(Column::OrderNumber))
    );
}

#[test]
fn locate_refuses_a_column_named_twice() {
    let header = strings(&["LFDNR", "x", "LFDNR"]);
    assert_eq!(locate(&header, Column::Id), Err(ParseError::DuplicateColumn(Column::Id)));
}

#[test]
fn column_names_match_exactly() {
    let header = strings(&["lfdnr", " LFDNR", "LFDNR "]);
    assert_eq!(locate(&header, Column::Id), Err(ParseError::MissingColumn(Column::Id)));
}

#[test]
fn read_header_gives_the_place_of_each_column() {
    let header = strings(&[
        "SUCHTEXT", "a", "BESTELLTEXT", "BESTELLNUMMER", "b", "DESC_ET", "ART_ID_ET", "LFDNR",
    ]);
    assert_eq!(
        read_header(&header),
        Ok(Layout {
            id: 7,
            article_number: 6,
            article_description: 5,
            order_number: 3,
            order_description: 2,
            article_search_text: 0,
        })
    );
}

#[test]
fn read_header_reports_the_first_column_in_field_order() {
    let header = strings(&["SUCHTEXT", "DESC_ET", "DESC_ET", "LFDNR"]);
    assert_eq!(
        read_header(&header),
        Err(ParseError::MissingColumn(Column::ArticleNumber))
    );
    let header = strings(&["LFDNR", "ART_ID_ET", "DESC_ET", "DESC_ET", "BESTELLNUMMER"]);
    assert_eq!(
        read_header(&header),
        Err(ParseError::DuplicateColumn(Column::ArticleDescription))
    );
    assert_eq!(read_header(&Vec::new()), Err(ParseError::MissingColumn(Column::Id)));
}

#[test]
fn column_names_and_tags() {
    let columns = [
        (Column::Id, "LFDNR", "id"),
        (Column::ArticleNumber, "ART_ID_ET", "articleNumber"),
        (Column::ArticleDescription, "DESC_ET", "articleDescription"),
        (Column::OrderNumber, "BESTELLNUMMER", "orderNumber"),
        (Column::OrderDescription, "BESTELLTEXT", "orderDescription"),
        (Column::ArticleSearchText, "SUCHTEXT", "articleSearchText"),
    ];
    for (column, name, tag) in columns {
        assert_eq!(column.header_name(), name);
        assert_eq!(column.tag(), tag);
    }
}

#[test]
fn wrap_cdata_wraps_literally() {
    assert_eq!(wrap_cdata("a<b&c"), "<![CDATA[a<b&c]]>");
    assert_eq!(wrap_cdata(""), "<![CDATA[]]>");
    assert_eq!(wrap_cdata("x]]>y"), "<![CDATA[x]]>y]]>");
}

#[test]
fn read_row_takes_each_field_from_its_column() {
    let layout = read_header(&usual_header()).unwrap();
    let product =
        read_row(&layout, &strings(&["12", "A", "desc", "O", "order", "find me"]), 0).unwrap();
    assert_eq!(product.id, 12);
    assert_eq!(product.article_number, "A");
    assert_eq!(product.article_description, "desc");
    assert_eq!(product.order_number, "O");
    assert_eq!(product.order_description, "order");
    assert_eq!(product.article_search_text, "<![CDATA[find me]]>");
}

#[test]
fn read_row_reports_short_rows_and_bad_ids() {
    let layout = read_header(&usual_header()).unwrap();
    assert_eq!(
        read_row(&layout, &strings(&["12", "A", "desc", "O", "order"]), 3).err(),
        Some(ParseError::ShortRow(3))
    );
    assert_eq!(
        read_row(&layout, &strings(&["twelve", "A", "desc", "O", "order", "s"]), 4).err(),
        Some(ParseError::InvalidId(4))
    );
    assert_eq!(
        read_row(&layout, &strings(&["x"]), 5).err(),
        Some(ParseError::ShortRow(5))
    );
}

#[test]
fn records_follow_the_rows() {
    let rows = vec![
        strings(&["3", "c", "", "", "", ""]),
        strings(&["1", "a", "", "", "", ""]),
        strings(&["3", "c", "", "", "", ""]),
    ];
    let list = records_from_rows(&usual_header(), &rows).unwrap();
    let seen: Vec<(u32, &str)> =
        list.products.iter().map(|p| (p.id, p.article_number.as_str())).collect();
    assert_eq!(seen, vec![(3, "c"), (1, "a"), (3, "c")]);
}

#[test]
fn the_first_bad_row_ends_the_reading() {
    let rows = vec![
        strings(&["1", "a", "", "", "", ""]),
        strings(&["", "a", "", "", "", ""]),
        strings(&["1"]),
    ];
    assert_eq!(
        records_from_rows(&usual_header(), &rows).err(),
        Some(ParseError::InvalidId(1))
    );
}

#[test]
fn a_bad_header_comes_before_any_row() {
    let rows = vec![strings(&["x"])];
    assert_eq!(
        records_from_rows(&strings(&["LFDNR"]), &rows).err(),
        Some(ParseError::MissingColumn(Column::ArticleNumber))
    );
    assert!(records_from_rows(&usual_header(), &Vec::new()).unwrap().products.is_empty());
}

#[test]
fn parse_catalog_reads_delimited_text() {
    let list = parse_catalog(
        b"LFDNR;ART_ID_ET;DESC_ET;BESTELLNUMMER;BESTELLTEXT;SUCHTEXT\r\n0x10;\"a;b\";\"q\"\"q\";on;ot;st\r\n\r\n2;;;;;\n",
    )
    .unwrap();
    assert_eq!(list.products.len(), 2);
    assert_eq!(list.products[0].id, 16);
    assert_eq!(list.products[0].article_number, "a;b");
    assert_eq!(list.products[0].article_description, "q\"q");
    assert_eq!(list.products[0].article_search_text, "<![CDATA[st]]>");
    assert_eq!(list.products[1].id, 2);
    assert_eq!(list.products[1].article_search_text, "<![CDATA[]]>");
}

#[test]
fn parse_catalog_reports_what_is_wrong() {
    assert_eq!(
        parse_catalog(b"").err(),
        Some(Error::Parse(ParseError::MissingColumn(Column::Id)))
    );
    assert_eq!(
        parse_catalog(b"LFDNR,ART_ID_ET,DESC_ET,BESTELLNUMMER,BESTELLTEXT,SUCHTEXT\n1,a,b,c,d,e\n")
            .err(),
        Some(Error::Parse(ParseError::MissingColumn(Column::Id)))
    );
    assert_eq!(
        parse_catalog(b"LFDNR;ART_ID_ET;DESC_ET;BESTELLNUMMER;BESTELLTEXT;SUCHTEXT\n1;a\n").err(),
        Some(Error::Parse(ParseError::Malformed))
    );
    assert_eq!(
        parse_catalog(b"LFDNR;ART_ID_ET;DESC_ET;BESTELLNUMMER;BESTELLTEXT;SUCHTEXT\n1;\xff;b;c;d;e\n")
            .err(),
        Some(Error::Parse(ParseError::Malformed))
    );
    assert_eq!(
        parse_catalog(b"LFDNR;LFDNR;ART_ID_ET;DESC_ET;BESTELLNUMMER;BESTELLTEXT;SUCHTEXT\n").err(),
        Some(Error::Parse(ParseError::DuplicateColumn(Column::Id)))
    );
    assert_eq!(
        parse_catalog(b"LFDNR;ART_ID_ET;DESC_ET;BESTELLNUMMER;BESTELLTEXT;SUCHTEXT\n-1;a;b;c;d;e\n")
            .err(),
        Some(Error::Parse(ParseError::InvalidId(0)))
    );
}

#[test]
fn utf8_mode_leaves_the_bytes_alone() {
    let raw = vec![0x41, 0xE9, 0x00, 0xFF, 0x80];
    assert_eq!(decode_input(raw.clone(), false), Ok(raw));
    assert_eq!(decode_input(Vec::new(), false), Ok(Vec::new()));
}

#[test]
fn legacy_mode_decodes_e9_as_e_acute() {
    assert_eq!(decode_input(vec![0xE9], true), Ok("\u{e9}".as_bytes().to_vec()));
    assert_eq!(decode_input(Vec::new(), true), Ok(Vec::new()));
}

#[test]
fn legacy_mode_decodes_every_byte() {
    let high: [u32; 32] = [
        0x20AC, 0x0081, 0x201A, 0x0192, 0x201E, 0x2026, 0x2020, 0x2021, 0x02C6, 0x2030, 0x0160,
        0x2039, 0x0152, 0x008D, 0x017D, 0x008F, 0x0090, 0x2018, 0x2019, 0x201C, 0x201D, 0x2022,
        0x2013, 0x2014, 0x02DC, 0x2122, 0x0161, 0x203A, 0x0153, 0x009D, 0x017E, 0x0178,
    ];
    let raw: Vec<u8> = (0..=255u8).collect();
    let mut expected = String::new();
    for byte in 0..=255u32 {
        let code = if (0x80..0xA0).contains(&byte) { high[(byte - 0x80) as usize] } else { byte };
        expected.push(char::from_u32(code).unwrap());
    }
    assert_eq!(decode_input(raw, true), Ok(expected.into_bytes()));
}
