use todo_app::codec::{
    decode_row, decode_table, encode_row, encode_table, header_row, is_header, push_line,
    rows_from_records, same_bytes,
};
use todo_app::models::{DBError, DBRow};

fn task(id: u32, updatedate: i64, text: &str, completed: bool) -> DBRow {
    DBRow { id, updatedate, task: text.to_string(), completed }
}

fn fields(texts: &[&str]) -> Vec<Vec<u8>> {
    texts.iter().map(|t| t.as_bytes().to_vec()).collect()
}

fn broken() -> csv::Error {
    csv::Error::from(std::io::Error::new(std::io::ErrorKind::Other, "pipe closed"))
}

#[test]
fn same_bytes_compares_byte_strings() {
    assert!(same_bytes(b"", b""));
    assert!(same_bytes(b"true", b"true"));
    assert!(!same_bytes(b"true", b"false"));
    assert!(!same_bytes(b"true", b"tru"));
    assert!(!same_bytes(b"true", b"trua"));
    assert!(!same_bytes(b"", b"a"));
}

#[test]
fn the_header_names_the_four_fields() {
    assert_eq!(header_row(), fields(&["id", "updatedate", "task", "completed"]));
    assert!(is_header(&header_row()));
    assert!(!is_header(&fields(&["id", "updatedate", "task"])));
    assert!(!is_header(&fields(&["id", "updatedate", "task", "completed", ""])));
    assert!(!is_header(&fields(&["ID", "updatedate", "task", "completed"])));
    assert!(!is_header(&fields(&["id", "task", "updatedate", "completed"])));
    assert!(!is_header(&fields(&["id", "updatedate", "task", "complete"])));
    assert!(!is_header(&Vec::new()));
}

#[test]
fn encode_row_lays_out_the_four_fields() {
    assert_eq!(
        encode_row(&task(1, 1739126402, "test1", false)),
        fields(&["1", "1739126402", "test1", "false"])
    );
    assert_eq!(encode_row(&task(0, -3, "", true)), fields(&["0", "-3", "", "true"]));
    assert_eq!(
        encode_row(&task(12, 0, "caf\u{e9} \u{2615}", true)),
        vec![
            b"12".to_vec(),
            b"0".to_vec(),
            vec![0x63, 0x61, 0x66, 0xc3, 0xa9, 0x20, 0xe2, 0x98, 0x95],
            b"true".to_vec(),
        ]
    );
}

#[test]
fn decode_row_reads_the_four_fields() {
    let row = decode_row(&fields(&["1", "1739126402", "test1", "false"])).unwrap();
    assert_eq!(row.id, 1);
    assert_eq!(row.updatedate, 1739126402);
    assert_eq!(row.task, "test1");
    assert!(!row.completed);
    let row = decode_row(&fields(&["+07", "-5", "a;b\nc", "true"])).unwrap();
    assert_eq!(row.id, 7);
    assert_eq!(row.updatedate, -5);
    assert_eq!(row.task, "a;b\nc");
    assert!(row.completed);
    let text = vec![b"3".to_vec(), b"0".to_vec(), vec![0xe2, 0x98, 0x95], b"true".to_vec()];
    assert_eq!(decode_row(&text).unwrap().task, "\u{2615}");
}

#[test]
fn decode_row_refuses_fields_that_are_not_a_row() {
    assert!(decode_row(&fields(&["1", "2", "a"])).is_none());
    assert!(decode_row(&fields(&["1", "2", "a", "true", "x"])).is_none());
    assert!(decode_row(&Vec::new()).is_none());
    assert!(decode_row(&fields(&["", "2", "a", "true"])).is_none());
    assert!(decode_row(&fields(&["-1", "2", "a", "true"])).is_none());
    assert!(decode_row(&fields(&["4294967296", "2", "a", "true"])).is_none());
    assert!(decode_row(&fields(&["1", "", "a", "true"])).is_none());
    assert!(decode_row(&fields(&["1", "2.5", "a", "true"])).is_none());
    assert!(decode_row(&fields(&["1", "9223372036854775808", "a", "true"])).is_none());
    assert!(decode_row(&fields(&["1", "2", "a", "True"])).is_none());
    assert!(decode_row(&fields(&["1", "2", "a", "1"])).is_none());
    assert!(decode_row(&fields(&["1", "2", "a", ""])).is_none());
    assert!(decode_row(&fields(&["1", "2", "a", " true"])).is_none());
    let bad_text = vec![b"1".to_vec(), b"2".to_vec(), vec![0xc3], b"true".to_vec()];
    assert!(decode_row(&bad_text).is_none());
    let surrogate = vec![b"1".to_vec(), b"2".to_vec(), vec![0xed, 0xa0, 0x80], b"true".to_vec()];
    assert!(decode_row(&surrogate).is_none());
}

#[test]
fn a_row_reads_back_from_its_fields() {
    for row in [
        task(1, 1739126402, "test1", false),
        task(u32::MAX, i64::MIN, "", true),
        task(0, i64::MAX, "\u{1f600} and \"quotes\"; and\r\nlines", false),
    ] {
        let back = decode_row(&encode_row(&row)).unwrap();
        assert_eq!(back.id, row.id);
        assert_eq!(back.updatedate, row.updatedate);
        assert_eq!(back.task, row.task);
        assert_eq!(back.completed, row.completed);
    }
}

#[test]
fn rows_from_records_reads_the_lines_behind_the_header() {
    assert!(rows_from_records(&Vec::new()).unwrap().is_empty());
    assert!(rows_from_records(&vec![Ok(header_row())]).unwrap().is_empty());
    let rows = rows_from_records(&vec![
        Ok(header_row()),
        Ok(fields(&["2", "20", "b", "true"])),
        Ok(fields(&["1", "10", "a", "false"])),
    ])
    .unwrap();
    assert_eq!(rows.len(), 2);
    assert_eq!(rows[0].id, 2);
    assert_eq!(rows[0].task, "b");
    assert!(rows[0].completed);
    assert_eq!(rows[1].id, 1);
    assert_eq!(rows[1].updatedate, 10);
}

#[test]
fn rows_from_records_refuses_the_table_for_one_bad_record() {
    let no_header = vec![Ok(fields(&["1", "10", "a", "false"]))];
    assert!(matches!(rows_from_records(&no_header), Err(DBError::ReadError(_))));
    let bad_line = vec![
        Ok(header_row()),
        Ok(fields(&["1", "10", "a", "false"])),
        Ok(fields(&["2", "x", "b", "false"])),
    ];
    assert!(matches!(rows_from_records(&bad_line), Err(DBError::ReadError(_))));
    let header_in_error = vec![Err(broken()), Ok(fields(&["1", "10", "a", "false"]))];
    assert!(matches!(
        rows_from_records(&header_in_error),
        Err(DBError::ReadError(m)) if m == "pipe closed"
    ));
    let line_in_error = vec![Ok(header_row()), Ok(fields(&["1", "10", "a", "false"])), Err(broken())];
    assert!(matches!(
        rows_from_records(&line_in_error),
        Err(DBError::ReadError(m)) if m == "pipe closed"
    ));
}

#[test]
fn push_line_puts_the_line_behind_the_text() {
    let mut text = b"head\n".to_vec();
    assert!(push_line(&mut text, Ok(b"line\n".to_vec())).is_ok());
    assert_eq!(text, b"head\nline\n".to_vec());
    assert!(push_line(&mut text, Ok(Vec::new())).is_ok());
    assert_eq!(text, b"head\nline\n".to_vec());
    let failed = push_line(&mut text, Err(broken()));
    assert!(matches!(failed, Err(DBError::WriteError(m)) if m == "pipe closed"));
    assert_eq!(text, b"head\nline\n".to_vec());
}

#[test]
fn encode_table_writes_the_header_and_the_lines() {
    assert_eq!(encode_table(&Vec::new()).unwrap(), b"id;updatedate;task;completed\n".to_vec());
    let rows = vec![task(1, 1739126402, "test1", false), task(2, 1739126602, "test2", true)];
    assert_eq!(
        String::from_utf8(encode_table(&rows).unwrap()).unwrap(),
        "id;updatedate;task;completed\n1;1739126402;test1;false\n2;1739126602;test2;true\n"
    );
}

#[test]
fn encode_table_quotes_a_text_that_holds_the_delimiter_a_quote_or_a_line_break() {
    let rows = vec![
        task(1, 0, "a;b", false),
        task(2, 0, "say \"hi\"", false),
        task(3, 0, "two\nlines", true),
        task(4, 0, "", true),
    ];
    assert_eq!(
        String::from_utf8(encode_table(&rows).unwrap()).unwrap(),
        "id;updatedate;task;completed\n1;0;\"a;b\";false\n2;0;\"say \"\"hi\"\"\";false\n3;0;\"two\nlines\";true\n4;0;;true\n"
    );
}

#[test]
fn decode_table_reads_the_text_of_a_table() {
    assert!(decode_table(b"").unwrap().is_empty());
    assert!(decode_table(b"id;updatedate;task;completed\n").unwrap().is_empty());
    let rows = decode_table(
        b"id;updatedate;task;completed\n1;1739126402;test1;false\n2;1739126602;\"a;b\";true\n",
    )
    .unwrap();
    assert_eq!(rows.len(), 2);
    assert_eq!(rows[0].id, 1);
    assert_eq!(rows[0].updatedate, 1739126402);
    assert_eq!(rows[0].task, "test1");
    assert!(!rows[0].completed);
    assert_eq!(rows[1].id, 2);
    assert_eq!(rows[1].task, "a;b");
    assert!(rows[1].completed);
}

#[test]
fn decode_table_reports_a_line_of_another_length_with_the_readers_words() {
    let result = decode_table(b"id;updatedate;task;completed\n1;10;a\n");
    match result {
        Err(DBError::ReadError(m)) => {
            assert!(m.contains("found record with 3 fields"), "{}", m);
        }
        _ => panic!("a short line was taken"),
    }
    assert!(matches!(
        decode_table(b"id;updatedate;task;completed\n1;10;a;false;more\n"),
        Err(DBError::ReadError(_))
    ));
}

#[test]
fn decode_table_refuses_a_comma_separated_text() {
    assert!(matches!(
        decode_table(b"id,updatedate,task,completed\n1,10,a,false\n"),
        Err(DBError::ReadError(_))
    ));
}

#[test]
fn a_table_reads_back_from_its_text() {
    let rows = vec![
        task(3, -1, "a;b", false),
        task(1, 1739126402, "\u{fc}ber \"alles\"\r\nund mehr", true),
        task(1, 0, "", false),
        task(u32::MAX, i64::MIN, " spaces ", true),
    ];
    let text = encode_table(&rows).unwrap();
    let back = decode_table(&text).unwrap();
    assert_eq!(back.len(), rows.len());
    for (a, b) in rows.iter().zip(back.iter()) {
        assert_eq!(a.id, b.id);
        assert_eq!(a.updatedate, b.updatedate);
        assert_eq!(a.task, b.task);
        assert_eq!(a.completed, b.completed);
    }
    assert_eq!(encode_table(&back).unwrap(), text);
}

#[test]
fn encode_table_writes_a_text_longer_than_the_buffer_of_the_writer() {
    let long = "x;\"y\"\n".repeat(5000);
    let rows = vec![task(1, 0, &long, false), task(2, 0, "", true), task(3, 0, &long, true)];
    let text = encode_table(&rows).unwrap();
    assert!(text.len() > 2 * long.len());
    let back = decode_table(&text).unwrap();
    assert_eq!(back.len(), 3);
    assert_eq!(back[0].task, long);
    assert_eq!(back[1].task, "");
    assert_eq!(back[2].task, long);
    assert!(back[2].completed);
}

#[test]
fn encode_table_has_a_text_for_every_table() {
    let odd = ["", " ", ";", "\"", "\r", "\n", "\r\n", "#", "\u{0}", "\u{feff}", "id;updatedate"];
    let mut rows = Vec::new();
    for (n, text) in odd.iter().enumerate() {
        rows.push(task(n as u32, -(n as i64), text, n % 2 == 0));
    }
    let text = encode_table(&rows).unwrap();
    let back = decode_table(&text).unwrap();
    assert_eq!(back.len(), odd.len());
    for (n, row) in back.iter().enumerate() {
        assert_eq!(row.id, n as u32);
        assert_eq!(row.updatedate, -(n as i64));
        assert_eq!(row.task, odd[n]);
        assert_eq!(row.completed, n % 2 == 0);
    }
}
