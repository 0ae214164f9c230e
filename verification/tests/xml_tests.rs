use sql_bulk_import_profile::data_source::{DataSourceRecord, ReadRecordError};
use sql_bulk_import_profile::import_profile::Field;
use sql_bulk_import_profile::xml_data_source::xml_data_source_stream::{
    XmlEvent, XmlReadRecordErrorKind, XmlStep,
};
use sql_bulk_import_profile::xml_data_source::{
    collect_field_names, parse_selector, CreateXmlDataSourceError, XmlDataSource,
};

fn field(name: &str) -> Field {
    Field { name: name.to_string(), formatters: None, required: None }
}

fn start(name: &str) -> XmlEvent {
    XmlEvent::Start { local_name: name.as_bytes().to_vec(), content: name.as_bytes().to_vec() }
}

fn end(name: &str) -> XmlEvent {
    XmlEvent::End { content: name.as_bytes().to_vec() }
}

fn text(content: &str) -> XmlEvent {
    XmlEvent::Text { content: content.as_bytes().to_vec() }
}

fn source(selector: &str, fields: &[&str]) -> XmlDataSource {
    XmlDataSource::new(&fields.iter().map(|f| field(f)).collect(), selector).unwrap()
}

fn run(source: XmlDataSource, events: Vec<XmlEvent>) -> (XmlDataSource, Vec<XmlStep>) {
    let mut source = source;
    let mut steps = Vec::new();
    for event in events {
        let (next, step) = source.advance(event);
        source = next;
        if !matches!(step, XmlStep::More) {
            steps.push(step);
        }
    }
    (source, steps)
}

fn pairs(record: &DataSourceRecord) -> Vec<(String, String)> {
    record.fields().iter().map(|(k, v)| (k.to_string(), v.to_string())).collect()
}

fn owned(pairs: &[(&str, &str)]) -> Vec<(String, String)> {
    pairs.iter().map(|(k, v)| (k.to_string(), v.to_string())).collect()
}

#[test]
fn selector_leads_to_the_records() {
    // <catalog><item><sku>A</sku><name>N1</name></item><item><sku>B</sku><name>N2</name></item></catalog>
    let events = vec![
        start("catalog"),
        start("item"),
        start("sku"),
        text("A"),
        end("sku"),
        start("name"),
        text("N1"),
        end("name"),
        end("item"),
        start("item"),
        start("sku"),
        text("B"),
        end("sku"),
        start("name"),
        text("N2"),
        end("name"),
        end("item"),
        end("catalog"),
        XmlEvent::Eof,
    ];
    let (source, steps) = run(source("/catalog/item", &["sku", "name"]), events);
    assert_eq!(steps.len(), 3);
    match &steps[0] {
        XmlStep::Record(record) => {
            assert_eq!(record.index().record_number, 1);
            assert_eq!(pairs(record), owned(&[("sku", "A"), ("name", "N1")]));
            assert_eq!(record.index().line_start, 1);
            assert_eq!(record.index().line_end, 1);
        }
        other => panic!("expected record 1 but got: {:?}", other),
    }
    match &steps[1] {
        XmlStep::Record(record) => {
            assert_eq!(record.index().record_number, 2);
            assert_eq!(pairs(record), owned(&[("sku", "B"), ("name", "N2")]));
        }
        other => panic!("expected record 2 but got: {:?}", other),
    }
    assert!(matches!(steps[2], XmlStep::End));
    assert_eq!(source.record_number(), Some(2));
}

#[test]
fn fields_come_in_the_order_of_the_document() {
    let events = vec![
        start("item"),
        text("\n  "),
        start("name"),
        text("N1"),
        end("name"),
        text("\n  "),
        start("sku"),
        end("sku"),
        text("\n"),
        end("item"),
    ];
    let (_, steps) = run(source("item", &["sku", "name"]), events);
    match &steps[0] {
        XmlStep::Record(record) => {
            assert_eq!(pairs(record), owned(&[("name", "N1"), ("sku", "")]));
            assert_eq!(record.field("sku"), Some(""));
            assert_eq!(record.field("other"), None);
            assert_eq!(record.index().line_start, 1);
            assert_eq!(record.index().line_end, 4);
        }
        other => panic!("expected a record but got: {:?}", other),
    }
}

#[test]
fn markup_inside_a_field_is_kept() {
    let events = vec![
        start("item"),
        start("name"),
        text("a "),
        XmlEvent::Start { local_name: b"b".to_vec(), content: b"b class=\"x\"".to_vec() },
        text("bold"),
        end("b"),
        XmlEvent::Empty { content: b"br".to_vec() },
        XmlEvent::GeneralRef { content: b"amp".to_vec(), decoded: Some("amp".to_string()) },
        XmlEvent::CData { content: b"<raw>".to_vec() },
        XmlEvent::Other { content: b" a comment ".to_vec() },
        end("name"),
        end("item"),
    ];
    let (_, steps) = run(source("item", &["name"]), events);
    match &steps[0] {
        XmlStep::Record(record) => assert_eq!(
            record.field("name"),
            Some("a <b class=\"x\">bold</b><br/>amp<raw>")
        ),
        other => panic!("expected a record but got: {:?}", other),
    }
}

#[test]
fn text_outside_a_field_is_dropped() {
    let events = vec![
        text("before"),
        start("item"),
        text("between"),
        XmlEvent::Empty { content: b"sku".to_vec() },
        XmlEvent::CData { content: b"x".to_vec() },
        XmlEvent::GeneralRef { content: b"amp".to_vec(), decoded: None },
        start("sku"),
        text("A"),
        end("sku"),
        end("item"),
    ];
    let (_, steps) = run(source(" / item / ", &["sku"]), events);
    assert_eq!(steps.len(), 1);
    match &steps[0] {
        XmlStep::Record(record) => assert_eq!(pairs(record), owned(&[("sku", "A")])),
        other => panic!("expected a record but got: {:?}", other),
    }
}

#[test]
fn a_field_that_comes_twice_keeps_its_first_value() {
    let events = vec![
        start("item"),
        start("sku"),
        text("A"),
        end("sku"),
        start("sku"),
        text("B"),
        end("sku"),
        end("item"),
    ];
    let (_, steps) = run(source("item", &["sku"]), events);
    match &steps[0] {
        XmlStep::Record(record) => assert_eq!(pairs(record), owned(&[("sku", "A")])),
        other => panic!("expected a record but got: {:?}", other),
    }
}

#[test]
fn unexpected_start_tag() {
    let (source, steps) = run(
        source("catalog/item", &["sku"]),
        vec![text("\n\n"), start("catalog"), start("entry")],
    );
    assert_eq!(steps.len(), 1);
    match &steps[0] {
        XmlStep::Failed(error) => {
            assert!(matches!(
                error.source(),
                XmlReadRecordErrorKind::UnexpectedStartTag(name) if name == "entry"
            ));
            assert_eq!(error.index().record_number, None);
            assert_eq!(error.index().line_number, 3);
        }
        other => panic!("expected an error but got: {:?}", other),
    }
    let (_, steps) = run(source, vec![XmlEvent::Eof]);
    assert!(matches!(steps[0], XmlStep::End));
}

#[test]
fn unknown_field() {
    let (_, steps) = run(
        source("item", &["sku"]),
        vec![
            start("item"),
            start("sku"),
            end("sku"),
            end("item"),
            start("item"),
            start("price"),
        ],
    );
    assert_eq!(steps.len(), 2);
    match &steps[1] {
        XmlStep::Failed(error) => {
            assert!(matches!(
                error.source(),
                XmlReadRecordErrorKind::UnknownField(name) if name == "price"
            ));
            assert_eq!(error.index().record_number, Some(1));
        }
        other => panic!("expected an error but got: {:?}", other),
    }
}

#[test]
fn bytes_that_are_no_text() {
    let bad = b"a\xffb".to_vec();
    let (_, steps) = run(
        source("item", &["sku"]),
        vec![XmlEvent::Start { local_name: bad.clone(), content: bad.clone() }],
    );
    assert!(matches!(
        &steps[0],
        XmlStep::Failed(e) if matches!(e.source(), XmlReadRecordErrorKind::Utf8Error)
    ));
    let (_, steps) = run(
        source("item", &["sku"]),
        vec![start("item"), start("sku"), XmlEvent::Text { content: bad.clone() }],
    );
    assert!(matches!(
        &steps[0],
        XmlStep::Failed(e) if matches!(e.source(), XmlReadRecordErrorKind::Utf8Error)
    ));
    let (_, steps) = run(
        source("item", &["sku"]),
        vec![
            start("item"),
            start("sku"),
            XmlEvent::GeneralRef { content: b"x".to_vec(), decoded: None },
        ],
    );
    assert!(matches!(
        &steps[0],
        XmlStep::Failed(e) if matches!(e.source(), XmlReadRecordErrorKind::XmlDecodingError)
    ));
}

#[test]
fn reader_failure_is_placed() {
    let (source, _) = run(source("item", &["sku"]), vec![text("one\ntwo\n")]);
    let (_, error) = source.fail(b"\nthree", "unexpected end".to_string());
    assert_eq!(error.index().line_number, 3);
    assert_eq!(error.index().record_number, None);
    assert!(matches!(
        error.source(),
        XmlReadRecordErrorKind::XmlError(m) if m == "unexpected end"
    ));
}

#[test]
fn selectors() {
    assert_eq!(parse_selector("/catalog/item"), vec!["catalog".to_string(), "item".into()]);
    assert_eq!(parse_selector(" a / b //c\t"), vec!["a".to_string(), "b".into(), "c".into()]);
    assert_eq!(parse_selector("a b"), vec!["a b".to_string()]);
    assert!(parse_selector(" / / ").is_empty());
    assert!(parse_selector("").is_empty());
    let fields = vec![field("sku")];
    assert!(matches!(
        XmlDataSource::new(&fields, " // "),
        Err(CreateXmlDataSourceError::InvalidSelector(s)) if s == " // "
    ));
    assert!(XmlDataSource::new(&fields, "1/2/3/4/5/6/7/8").is_ok());
    assert!(matches!(
        XmlDataSource::new(&fields, "1/2/3/4/5/6/7/8/9"),
        Err(CreateXmlDataSourceError::InvalidSelector(_))
    ));
}

#[test]
fn fields_need_names() {
    let names = collect_field_names(&vec![field("a"), field(""), field("b"), field("a")]);
    assert_eq!(names.iter().collect::<Vec<_>>(), ["a", "b"]);
    let names = collect_field_names(&vec![field("b"), field("a"), field("b")]);
    assert_eq!(names.iter().collect::<Vec<_>>(), ["b", "a"]);
    assert!(matches!(
        XmlDataSource::new(&vec![field("")], "item"),
        Err(CreateXmlDataSourceError::InvalidFields)
    ));
    assert!(matches!(
        XmlDataSource::new(&Vec::new(), "item"),
        Err(CreateXmlDataSourceError::InvalidFields)
    ));
    let source = source("item", &["a", "b", "a"]);
    assert_eq!(source.fields().iter().collect::<Vec<_>>(), ["a", "b"]);
    assert_eq!(source.record_number(), None);
}
