use guild_commands::codec::{decode_record, encode_record};
use guild_commands::record::CommandRecord;

fn rec(output: &str, author: &str, count: usize) -> CommandRecord {
    CommandRecord { output: output.to_string(), author_id: author.to_string(), invocation_count: count }
}

#[test]
fn encodes_exactly() {
    assert_eq!(encode_record(&rec("Hello!", "user42", 3)), "3:6:Hello!user42");
    assert_eq!(encode_record(&rec("", "", 0)), "0:0:");
    assert_eq!(encode_record(&rec("héllo", "42", 1234)), "1234:5:héllo42");
}

#[test]
fn round_trip_keeps_every_field() {
    let cases = vec![
        rec("Hello!", "user42", 0),
        rec("a:b:c", "12:34", 7),
        rec("", "x", 10),
        rec("日本語 text\nline", "", usize::MAX),
        rec("9:", "0", 99),
    ];
    for r in cases {
        let text = encode_record(&r);
        let back = decode_record(&text).unwrap();
        assert_eq!(back.output, r.output);
        assert_eq!(back.author_id, r.author_id);
        assert_eq!(back.invocation_count, r.invocation_count);
    }
}

#[test]
fn decodes_a_stored_text() {
    let r = decode_record("12:3:abcdef").unwrap();
    assert_eq!(r.invocation_count, 12);
    assert_eq!(r.output, "abc");
    assert_eq!(r.author_id, "def");
}

#[test]
fn rejects_malformed_text() {
    for bad in [
        "",
        ":",
        "1",
        "1:",
        "1:2",
        "1:2:a",
        "x:1:a",
        "1:x:a",
        "::",
        "1::a",
        ":1:a",
        "99999999999999999999999:0:",
        "1:99999999999999999999999:a",
    ] {
        assert!(decode_record(bad).is_none(), "{bad}");
    }
}
