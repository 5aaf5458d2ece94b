use rok::sdk::fileverse::{
    document_content, document_to_entry, find_titled, list_documents, parse_timestamp,
    parse_title, title_for, Document,
};
use rok::text::{parse_u64, usize_to_decimal};

fn doc(id: &str, title: &str, data: &[u8]) -> Document {
    Document {
        id: id.to_string(),
        title: title.to_string(),
        content: document_content(data),
        created_at: "1700000000".to_string(),
        updated_at: "2024-01-01T00:00:00Z".to_string(),
    }
}

#[test]
fn test_parse_title() {
    let (scope, key) = parse_title("rok:/finance:report").unwrap();
    assert_eq!(scope, "/finance");
    assert_eq!(key, "report");

    let (scope, key) = parse_title("rok:/finance/q1:summary").unwrap();
    assert_eq!(scope, "/finance/q1");
    assert_eq!(key, "summary");

    let (scope, key) = parse_title("rok:/:root-memo").unwrap();
    assert_eq!(scope, "/");
    assert_eq!(key, "root-memo");

    assert!(parse_title("not-rok").is_none());
    assert!(parse_title("rok::").is_none());
}

#[test]
fn title_is_prefix_scope_and_key() {
    assert_eq!(title_for("/finance", "report"), "rok:/finance:report");
    let t = title_for("/a/b", "k");
    assert_eq!(parse_title(&t).unwrap(), ("/a/b".to_string(), "k".to_string()));
}

#[test]
fn document_content_is_standard_base64() {
    assert_eq!(document_content(b"hello"), "aGVsbG8=");
}

#[test]
fn documents_become_entries() {
    let e = document_to_entry(&doc("d1", "rok:/finance:report", b"payload")).unwrap();
    assert_eq!(e.id.0, "d1");
    assert_eq!(e.scope, "/finance");
    assert_eq!(e.key, "report");
    assert_eq!(e.data, b"payload");
    assert_eq!(e.created_at, 1700000000);
    assert_eq!(e.updated_at, 0);

    let e = document_to_entry(&doc("d2", "something else", b"x")).unwrap();
    assert_eq!(e.scope, "unknown");
    assert_eq!(e.key, "d2");

    let mut bad = doc("d3", "rok:/a:b", b"x");
    bad.content = "***".to_string();
    assert!(document_to_entry(&bad).err().unwrap().message().starts_with("storage error"));
}

#[test]
fn listing_keeps_documents_under_the_prefix() {
    let mut broken = doc("d5", "rok:/finance:broken", b"x");
    broken.content = "not base64!".to_string();
    let docs = vec![
        doc("d1", "rok:/finance:report", b"1"),
        doc("d2", "rok:/finance/q1:summary", b"2"),
        doc("d3", "rok:/financial:other", b"3"),
        doc("d4", "unrelated", b"4"),
        broken,
    ];
    let listed = list_documents(&docs, "/finance");
    let ids: Vec<&str> = listed.iter().map(|e| e.id.0.as_str()).collect();
    assert_eq!(ids, vec!["d1", "d2"]);
    assert_eq!(list_documents(&docs, "/").len(), 3);
    assert_eq!(find_titled(&docs, "rok:/finance/q1:summary"), Some(1));
    assert_eq!(find_titled(&docs, "rok:/nothing:here"), None);
}

#[test]
fn decimal_text_parsing_and_printing() {
    assert_eq!(parse_u64("1700000000"), Some(1700000000));
    assert_eq!(parse_u64("+7"), Some(7));
    assert_eq!(parse_u64("18446744073709551615"), Some(u64::MAX));
    assert_eq!(parse_u64("18446744073709551616"), None);
    assert_eq!(parse_u64(""), None);
    assert_eq!(parse_u64("+"), None);
    assert_eq!(parse_u64("12a"), None);
    assert_eq!(parse_timestamp("bad"), 0);
    assert_eq!(usize_to_decimal(0), "0");
    assert_eq!(usize_to_decimal(1088), "1088");
    assert_eq!(usize_to_decimal(usize::MAX), usize::MAX.to_string());
}
