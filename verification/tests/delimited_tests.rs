use sql_bulk_import_profile::data_source::field_set::FieldSet;
use sql_bulk_import_profile::data_source::{DataSourceRecord, ReadRecordError};
use sql_bulk_import_profile::delimited_data_source::delimited_data_source_stream::{
    complete_record, header_step, record_step, DelimitedDataSource, DelimitedHeaderReader,
    DelimitedReadRecordErrorKind, DelimitedStep, HeaderStep,
};
use sql_bulk_import_profile::delimited_data_source::{
    build_reader, decode_fields, fields_from_parts, header_from_parts, reader_settings,
    BuildDelimitedReaderError, CreateDelimitedDataSourceError, ParseRecordError,
    ReadDelimitedDataSourceError, ReadOutcome, ReaderSettings, RecordBuffer,
};
use sql_bulk_import_profile::import_profile::{
    DelimitedReaderConfig, DelimitedReaderCustomConfig, Field, Terminator,
};

/// The set of the given names, in their order.
fn names(items: &[&str]) -> FieldSet {
    items.iter().map(|item| item.to_string()).collect()
}

/// The names of the set, in their order.
fn listed(set: &FieldSet) -> Vec<&str> {
    set.iter().map(|item| item.as_str()).collect()
}

/// Feeds the data in pieces of `size` bytes until the header is read; gives
/// the source and what is left of the data.
fn read_header(
    config: DelimitedReaderConfig,
    data: &[u8],
    size: usize,
) -> Result<(DelimitedDataSource, usize), ReadDelimitedDataSourceError> {
    let mut reader = DelimitedHeaderReader::new(config)?;
    let mut at = 0;
    loop {
        let end = usize::min(at + size, data.len());
        let (consumed, step) = reader.feed(&data[at..end]);
        at += consumed;
        match step {
            HeaderStep::More(next) => reader = next,
            HeaderStep::Done(source) => return Ok((source, at)),
            HeaderStep::Failed(e) => return Err(e),
        }
    }
}

/// Feeds on until the source gives a record, an error or the end.
fn next_step(
    source: DelimitedDataSource,
    data: &[u8],
    at: &mut usize,
    size: usize,
) -> (DelimitedDataSource, DelimitedStep) {
    let mut source = source;
    loop {
        let end = usize::min(*at + size, data.len());
        let (next, consumed, step) = source.feed(&data[*at..end]);
        *at += consumed;
        source = next;
        if !matches!(step, DelimitedStep::More) {
            return (source, step);
        }
    }
}

fn field(name: &str) -> Field {
    Field { name: name.to_string(), formatters: None, required: None }
}

fn pairs(record: &DataSourceRecord) -> Vec<(String, String)> {
    record.fields().iter().map(|(k, v)| (k.to_string(), v.to_string())).collect()
}

#[test]
fn create_delimited_data_source() {
    let row = "One,Two,Three";
    for buf_size in 1..=row.len() {
        let (source, _) =
            read_header(DelimitedReaderConfig::Csv, row.as_bytes(), buf_size).unwrap();
        assert_eq!(
            *source.fields(),
            FieldSet::from_iter(["One".into(), "Two".into(), "Three".into(),])
        );
        assert_eq!(listed(source.fields()), ["One", "Two", "Three"]);
    }
}

#[test]
fn read_delimited_data_source() {
    let data = "A,B,C\na1,b1,c1\na2\na3,b3,c3,d3";
    let bytes = data.as_bytes();
    let (source, mut at) = read_header(DelimitedReaderConfig::Csv, bytes, 8192).unwrap();
    assert_eq!(*source.fields(), FieldSet::from_iter(["A".into(), "B".into(), "C".into(),]));
    assert_eq!(listed(source.fields()), ["A", "B", "C"]);

    let (source, step) = next_step(source, bytes, &mut at, 8192);
    match step {
        DelimitedStep::Record(record) => {
            assert_eq!(record.index().record_number, 1);
            assert_eq!(record.index().line_start, 2);
            assert_eq!(record.index().line_end, 2);
            assert_eq!(record.field("A").unwrap(), "a1");
            assert_eq!(record.field("B").unwrap(), "b1");
            assert_eq!(record.field("C").unwrap(), "c1");
        }
        other => panic!("expected record 1 but got: {:?}", other),
    };

    let (source, step) = next_step(source, bytes, &mut at, 8192);
    match step {
        DelimitedStep::Failed(error) => {
            assert!(matches!(
                error.source(),
                DelimitedReadRecordErrorKind::ParseRecordError(ParseRecordError::TooFewFields)
            ));
            assert_eq!(error.index().record_number.unwrap(), 2);
            assert_eq!(error.index().line_number, 3);
        }
        other => panic!("expected record 2 but got: {:?}", other),
    };

    let (source, step) = next_step(source, bytes, &mut at, 8192);
    match step {
        DelimitedStep::Failed(error) => {
            assert!(matches!(
                error.source(),
                DelimitedReadRecordErrorKind::ParseRecordError(ParseRecordError::TooManyFields)
            ));
            assert_eq!(error.index().record_number.unwrap(), 3);
        }
        other => panic!("expected record 3 but got: {:?}", other),
    };

    let (source, step) = next_step(source, bytes, &mut at, 8192);
    assert!(matches!(step, DelimitedStep::End));
    assert_eq!(source.record_number(), Some(3));
}

#[test]
fn records_do_not_depend_on_the_buffer_size() {
    let data = "Code,Name\r\nEUR,euro\r\ngbp,\"great, british \"\"pound\"\"\"\nCHF,\"franc\nsuisse\"\n";
    let bytes = data.as_bytes();
    let mut seen: Option<Vec<Vec<(String, String)>>> = None;
    for size in 1..=bytes.len() + 1 {
        let (mut source, mut at) = read_header(DelimitedReaderConfig::Csv, bytes, size).unwrap();
        assert_eq!(listed(source.fields()), ["Code", "Name"]);
        let mut records = Vec::new();
        loop {
            let (next, step) = next_step(source, bytes, &mut at, size);
            source = next;
            match step {
                DelimitedStep::Record(record) => {
                    assert_eq!(record.index().record_number as usize, records.len() + 1);
                    records.push(pairs(&record));
                }
                DelimitedStep::End => break,
                other => panic!("unexpected step: {:?}", other),
            }
        }
        assert_eq!(records.len(), 3);
        assert_eq!(records[1][1].1, "great, british \"pound\"");
        assert_eq!(records[2][1].1, "franc\nsuisse");
        match &seen {
            Some(first) => assert_eq!(first, &records),
            None => seen = Some(records),
        }
    }
}

#[test]
fn record_numbers_count_every_record_that_ends() {
    let data = "A,B\n1,2\n3\n4,5\n";
    let bytes = data.as_bytes();
    let (mut source, mut at) = read_header(DelimitedReaderConfig::Csv, bytes, 3).unwrap();
    assert_eq!(source.record_number(), None);
    let mut numbers = Vec::new();
    loop {
        let (next, step) = next_step(source, bytes, &mut at, 3);
        source = next;
        match step {
            DelimitedStep::Record(record) => numbers.push((record.index().record_number, true)),
            DelimitedStep::Failed(error) => {
                numbers.push((error.index().record_number.unwrap(), false))
            }
            DelimitedStep::End => break,
            DelimitedStep::More => unreachable!(),
        }
        assert_eq!(source.record_number(), Some(numbers.len() as u64));
    }
    assert_eq!(numbers, vec![(1, true), (2, false), (3, true)]);
}

#[test]
fn tab_separated_and_custom_readers() {
    let (source, mut at) = read_header(DelimitedReaderConfig::Txt, b"A\tB\nx,y\tz\n", 4).unwrap();
    let (_, step) = next_step(source, b"A\tB\nx,y\tz\n", &mut at, 4);
    match step {
        DelimitedStep::Record(record) => {
            assert_eq!(record.field("A"), Some("x,y"));
            assert_eq!(record.field("B"), Some("z"));
        }
        other => panic!("unexpected step: {:?}", other),
    }
    let custom = DelimitedReaderConfig::Custom(DelimitedReaderCustomConfig {
        delimiter: ';',
        terminator: Terminator::Any('|'),
        quote: '\'',
        quoting: true,
        comment: None,
        escape: Some('\\'),
        double_quote: false,
    });
    let data = b"A;B|'1;2';3|4;5|";
    let (mut source, mut at) = read_header(custom, data, 5).unwrap();
    let mut rows = Vec::new();
    loop {
        let (next, step) = next_step(source, data, &mut at, 5);
        source = next;
        match step {
            DelimitedStep::Record(record) => rows.push(pairs(&record)),
            DelimitedStep::End => break,
            other => panic!("unexpected step: {:?}", other),
        }
    }
    assert_eq!(
        rows,
        vec![
            vec![("A".to_string(), "1;2".to_string()), ("B".to_string(), "3".to_string())],
            vec![("A".to_string(), "4".to_string()), ("B".to_string(), "5".to_string())],
        ]
    );
}

#[test]
fn characters_must_fit_a_byte() {
    let base = DelimitedReaderCustomConfig { delimiter: ',', ..Default::default() };
    assert!(build_reader(DelimitedReaderConfig::Custom(base)).is_ok());
    assert!(build_reader(DelimitedReaderConfig::Custom(DelimitedReaderCustomConfig {
        delimiter: 'ÿ',
        ..base
    }))
    .is_ok());
    let cases = [
        (DelimitedReaderCustomConfig { delimiter: '€', ..base }, BuildDelimitedReaderError::Delimiter),
        (
            DelimitedReaderCustomConfig { terminator: Terminator::Any('Ā'), ..base },
            BuildDelimitedReaderError::Terminator,
        ),
        (DelimitedReaderCustomConfig { quote: '“', ..base }, BuildDelimitedReaderError::Quote),
        (
            DelimitedReaderCustomConfig { comment: Some('→'), ..base },
            BuildDelimitedReaderError::Comment,
        ),
        (
            DelimitedReaderCustomConfig { escape: Some('⧵'), ..base },
            BuildDelimitedReaderError::Escape,
        ),
        (
            DelimitedReaderCustomConfig { delimiter: '€', quote: '“', ..base },
            BuildDelimitedReaderError::Delimiter,
        ),
    ];
    for (config, expected) in cases {
        assert_eq!(build_reader(DelimitedReaderConfig::Custom(config)).err(), Some(expected));
        assert!(matches!(
            DelimitedHeaderReader::new(DelimitedReaderConfig::Custom(config)),
            Err(ReadDelimitedDataSourceError::CreateDelimitedReaderError(e)) if e == expected
        ));
    }
}

#[test]
fn settings_of_the_configurations() {
    let plain = ReaderSettings {
        delimiter: b',',
        terminator: None,
        quote: b'"',
        quoting: true,
        comment: None,
        escape: None,
        double_quote: true,
    };
    assert_eq!(reader_settings(DelimitedReaderConfig::Csv), Ok(plain));
    assert_eq!(
        reader_settings(DelimitedReaderConfig::Txt),
        Ok(ReaderSettings { delimiter: b'\t', ..plain })
    );
    let custom = DelimitedReaderCustomConfig {
        delimiter: ';',
        terminator: Terminator::Any('|'),
        quote: '\'',
        quoting: false,
        comment: Some('#'),
        escape: Some('\\'),
        double_quote: false,
    };
    assert_eq!(
        reader_settings(DelimitedReaderConfig::Custom(custom)),
        Ok(ReaderSettings {
            delimiter: 59,
            terminator: Some(124),
            quote: 39,
            quoting: false,
            comment: Some(35),
            escape: Some(92),
            double_quote: false,
        })
    );
    assert_eq!(
        reader_settings(DelimitedReaderConfig::Custom(DelimitedReaderCustomConfig {
            delimiter: 'ÿ',
            terminator: Terminator::CRLF,
            ..custom
        })),
        Ok(ReaderSettings {
            delimiter: 255,
            terminator: None,
            quote: 39,
            quoting: false,
            comment: Some(35),
            escape: Some(92),
            double_quote: false,
        })
    );
    assert_eq!(
        reader_settings(DelimitedReaderConfig::Custom(DelimitedReaderCustomConfig {
            quote: 'Ā',
            escape: Some('€'),
            ..custom
        })),
        Err(BuildDelimitedReaderError::Quote)
    );
}

#[test]
fn readers_follow_their_settings() {
    let custom = DelimitedReaderCustomConfig {
        delimiter: ';',
        terminator: Terminator::Any('|'),
        quote: '\'',
        quoting: true,
        comment: Some('#'),
        escape: None,
        double_quote: true,
    };
    let data = b"A;B|'a;1';b1|";
    let (source, mut at) = read_header(DelimitedReaderConfig::Custom(custom), data, 4).unwrap();
    assert_eq!(listed(source.fields()), ["A", "B"]);
    let (_, step) = next_step(source, data, &mut at, 4);
    match step {
        DelimitedStep::Record(record) => assert_eq!(
            pairs(&record),
            vec![("A".to_string(), "a;1".to_string()), ("B".to_string(), "b1".to_string())]
        ),
        other => panic!("expected a record but got: {:?}", other),
    }
    let (source, _) = read_header(DelimitedReaderConfig::Txt, b"A\tB,C\n", 16).unwrap();
    assert_eq!(listed(source.fields()), ["A", "B,C"]);
    let (source, _) = read_header(DelimitedReaderConfig::Csv, b"A\tB,\"C,D\"\"\"\n", 16).unwrap();
    assert_eq!(listed(source.fields()), ["A\tB", "C,D\""]);
}

/// A reader for comma-separated text and buffers that hold what it read of
/// the data.
fn buffered(data: &[u8]) -> (csv_core::Reader, RecordBuffer, ReadOutcome) {
    let mut reader = build_reader(DelimitedReaderConfig::Csv).unwrap();
    let (buffer, outcome, consumed) = RecordBuffer::new().read(&mut reader, data);
    assert_eq!(consumed, data.len());
    (reader, buffer, outcome)
}

#[test]
fn header_step_follows_the_answer_of_the_reader() {
    let (reader, buffer, outcome) = buffered(b"Code,Name,Code\n");
    assert_eq!(outcome, ReadOutcome::Record);
    match header_step(reader, buffer, ReadOutcome::Record, 7) {
        HeaderStep::Done(source) => {
            assert_eq!(listed(source.fields()), ["Code", "Name"]);
            assert_eq!(source.record_number(), None);
            let data = b"c1,n1\n";
            let mut at = 0;
            let (_, step) = next_step(source, data, &mut at, 16);
            match step {
                DelimitedStep::Record(record) => {
                    assert_eq!(record.index().record_number, 1);
                    assert_eq!(record.index().line_start, 7);
                }
                other => panic!("expected a record but got: {:?}", other),
            }
        }
        other => panic!("expected the source but got: {:?}", other),
    }
    let (reader, buffer, _) = buffered(b"Code,Na\xffme\n");
    assert!(matches!(
        header_step(reader, buffer, ReadOutcome::Record, 2),
        HeaderStep::Failed(ReadDelimitedDataSourceError::ParseHeadersError)
    ));
    let (reader, buffer, _) = buffered(b"Code,Name\n");
    assert!(matches!(
        header_step(reader, buffer, ReadOutcome::End, 2),
        HeaderStep::Failed(ReadDelimitedDataSourceError::NoHeaderRow)
    ));
    for waiting in [ReadOutcome::InputEmpty, ReadOutcome::OutputFull, ReadOutcome::OutputEndsFull] {
        let (reader, buffer, outcome) = buffered(b"Code,Na");
        assert_eq!(outcome, ReadOutcome::InputEmpty);
        match header_step(reader, buffer, waiting, 1) {
            HeaderStep::More(next) => match next.feed(b"me\n") {
                (3, HeaderStep::Done(source)) => {
                    assert_eq!(listed(source.fields()), ["Code", "Name"])
                }
                other => panic!("expected the source but got: {:?}", other),
            },
            other => panic!("expected to read on but got: {:?}", other),
        }
    }
}

#[test]
fn record_step_follows_the_answer_of_the_reader() {
    let (reader, buffer, _) = buffered(b"c1,n1\n");
    let (source, step) =
        record_step(names(&["Code", "Name"]), reader, buffer, Some(4), 3, ReadOutcome::Record, 9);
    assert_eq!(source.record_number(), Some(5));
    match step {
        DelimitedStep::Record(record) => {
            assert_eq!(record.index().record_number, 5);
            assert_eq!(record.index().line_start, 3);
            assert_eq!(record.index().line_end, 8);
            assert_eq!(
                pairs(&record),
                vec![("Code".to_string(), "c1".to_string()), ("Name".to_string(), "n1".to_string())]
            );
        }
        other => panic!("expected a record but got: {:?}", other),
    }
    let data = b"c2,n2\n";
    let mut at = 0;
    let (_, step) = next_step(source, data, &mut at, 16);
    match step {
        DelimitedStep::Record(record) => {
            assert_eq!(record.index().record_number, 6);
            assert_eq!(record.index().line_start, 9);
            assert_eq!(pairs(&record)[0].1, "c2");
        }
        other => panic!("expected a record but got: {:?}", other),
    }

    let (reader, buffer, _) = buffered(b"c1\n");
    let (source, step) =
        record_step(names(&["Code", "Name"]), reader, buffer, None, 3, ReadOutcome::Record, 9);
    assert_eq!(source.record_number(), Some(1));
    match step {
        DelimitedStep::Failed(error) => {
            assert_eq!(error.index().record_number, Some(1));
            assert_eq!(error.index().line_number, 8);
            assert!(matches!(
                error.source(),
                DelimitedReadRecordErrorKind::ParseRecordError(ParseRecordError::TooFewFields)
            ));
        }
        other => panic!("expected a failure but got: {:?}", other),
    }

    let (reader, buffer, _) = buffered(b"c1,n1\n");
    let (source, step) =
        record_step(names(&["Code", "Name"]), reader, buffer, Some(4), 3, ReadOutcome::End, 9);
    assert!(matches!(step, DelimitedStep::End));
    assert_eq!(source.record_number(), Some(4));

    for waiting in [ReadOutcome::InputEmpty, ReadOutcome::OutputFull, ReadOutcome::OutputEndsFull] {
        let (reader, buffer, _) = buffered(b"c1,n");
        let (source, step) =
            record_step(names(&["Code", "Name"]), reader, buffer, Some(4), 3, waiting, 9);
        assert!(matches!(step, DelimitedStep::More));
        assert_eq!(source.record_number(), Some(4));
        let (source, consumed, step) = source.feed(b"1\n");
        assert_eq!(consumed, 2);
        assert_eq!(source.record_number(), Some(5));
        match step {
            DelimitedStep::Record(record) => {
                assert_eq!(record.index().line_start, 3);
                assert_eq!(pairs(&record)[1].1, "n1");
            }
            other => panic!("expected a record but got: {:?}", other),
        }
    }
}

#[test]
fn default_custom_config() {
    let config = DelimitedReaderCustomConfig::default();
    assert_eq!(config.quote, '"');
    assert!(config.quoting);
    assert!(config.double_quote);
    assert_eq!(config.comment, None);
    assert_eq!(config.escape, None);
    assert_eq!(config.terminator, Terminator::CRLF);
    assert_eq!(Terminator::default(), Terminator::CRLF);
}

#[test]
fn empty_file_has_no_header() {
    assert!(matches!(
        read_header(DelimitedReaderConfig::Csv, b"", 16),
        Err(ReadDelimitedDataSourceError::NoHeaderRow)
    ));
    assert!(matches!(
        read_header(DelimitedReaderConfig::Csv, b"A,\xff\n", 16),
        Err(ReadDelimitedDataSourceError::ParseHeadersError)
    ));
}

#[test]
fn header_names_are_taken_once() {
    let (source, _) = read_header(DelimitedReaderConfig::Csv, b"A,B,A\n", 16).unwrap();
    assert_eq!(listed(source.fields()), ["A", "B"]);
    assert_eq!(listed(&header_from_parts(b"abab", &[1, 2, 3, 4]).unwrap()), ["a", "b"]);
    assert_eq!(listed(&header_from_parts(b"bab", &[1, 2, 3]).unwrap()), ["b", "a"]);
    assert_eq!(listed(&header_from_parts(b"", &[]).unwrap()), Vec::<&str>::new());
    assert_eq!(header_from_parts(b"ab", &[2, 1]), None);
}

#[test]
fn required_fields_must_be_in_the_header() {
    let (source, _) = read_header(DelimitedReaderConfig::Csv, b"Code,Name\n", 16).unwrap();
    assert!(source.missing_fields(&vec![field("Name"), field("Code")]).is_empty());
    assert_eq!(
        source.missing_fields(&vec![field("ID"), field("Name"), field("Country")]),
        vec!["ID".to_string(), "Country".to_string()]
    );
    match source.with_required_fields(&vec![field("ID"), field("Country")]) {
        Err(CreateDelimitedDataSourceError::MissingFields(names)) => {
            assert_eq!(names, vec!["ID".to_string(), "Country".to_string()])
        }
        other => panic!("expected missing fields but got: {:?}", other),
    }
    let (source, _) = read_header(DelimitedReaderConfig::Csv, b"Code,Name\n", 16).unwrap();
    assert!(source.with_required_fields(&vec![field("Code")]).is_ok());
}

#[test]
fn fields_from_the_parts_of_a_record() {
    let names = names(&["A", "B"]);
    assert_eq!(
        fields_from_parts(&names, "añb".as_bytes(), &[3, 4]),
        Ok(vec![("A".to_string(), "añ".to_string()), ("B".to_string(), "b".to_string())])
    );
    assert_eq!(
        fields_from_parts(&names, b"ab", &[0, 0]),
        Ok(vec![("A".to_string(), String::new()), ("B".to_string(), String::new())])
    );
    assert_eq!(fields_from_parts(&names, b"ab", &[2]), Err(ParseRecordError::TooFewFields));
    assert_eq!(
        fields_from_parts(&names, b"abc", &[1, 2, 3]),
        Err(ParseRecordError::TooManyFields)
    );
    assert_eq!(
        fields_from_parts(&names, b"a\xffc", &[1, 2, 3]),
        Err(ParseRecordError::FromUtf8Error)
    );
    assert_eq!(fields_from_parts(&names, b"a\xff", &[1]), Err(ParseRecordError::TooFewFields));
    assert_eq!(fields_from_parts(&names, b"ab", &[1, 3]), Err(ParseRecordError::FromUtf8Error));
    assert_eq!(fields_from_parts(&names, b"ab", &[2, 1]), Err(ParseRecordError::FromUtf8Error));
    assert_eq!(
        fields_from_parts(&names, "ñ".as_bytes(), &[1, 2]),
        Err(ParseRecordError::FromUtf8Error)
    );
    assert_eq!(decode_fields(b"", &[]), Some(Vec::new()));
}

#[test]
fn complete_record_numbers_and_places() {
    let buffer = RecordBuffer::new();
    let names = names(&[]);
    let record = complete_record(&buffer, &names, None, 7, 9).unwrap();
    assert_eq!(record.index().record_number, 1);
    assert_eq!(record.index().line_start, 7);
    assert_eq!(record.index().line_end, 8);
    let record = complete_record(&buffer, &names, Some(41), 7, 0).unwrap();
    assert_eq!(record.index().record_number, 42);
    assert_eq!(record.index().line_end, 0);
    let record = complete_record(&buffer, &names, Some(u64::MAX), 1, 1).unwrap();
    assert_eq!(record.index().record_number, u64::MAX);
    let names = FieldSet::from_iter(["A".to_string()]);
    let error = complete_record(&buffer, &names, Some(4), 7, 9).unwrap_err();
    assert_eq!(error.index().record_number, Some(5));
    assert_eq!(error.index().line_number, 8);
    assert!(matches!(
        error.source(),
        DelimitedReadRecordErrorKind::ParseRecordError(ParseRecordError::TooFewFields)
    ));
}

#[test]
fn long_records_make_the_buffers_grow() {
    let wide: Vec<String> = (0..200).map(|i| format!("f{}", i)).collect();
    let long = "x".repeat(5000);
    let mut data = wide.join(",");
    data.push('\n');
    data.push_str(&vec![long.as_str(); 200].join(","));
    data.push('\n');
    let bytes = data.as_bytes();
    let (source, mut at) = read_header(DelimitedReaderConfig::Csv, bytes, 1000).unwrap();
    assert_eq!(source.fields().len(), 200);
    let (source, step) = next_step(source, bytes, &mut at, 1000);
    match step {
        DelimitedStep::Record(record) => {
            assert_eq!(record.fields().len(), 200);
            assert_eq!(record.field("f199"), Some(long.as_str()));
        }
        other => panic!("unexpected step: {:?}", other),
    }
    let error = source.fill_error("disk gone".to_string());
    assert_eq!(error.index().record_number, Some(1));
    assert_eq!(error.index().line_number, 2);
    assert!(matches!(
        error.source(),
        DelimitedReadRecordErrorKind::FillBufferError(m) if m == "disk gone"
    ));
}
