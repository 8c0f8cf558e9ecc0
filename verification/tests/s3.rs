use object_store::client::s3::CompleteMultipartUpload;
use object_store::client::s3::ListContents;
use object_store::client::s3::ListPrefix;
use object_store::client::s3::ListResponse;
use object_store::client::s3::Dialect;
use object_store::client::s3::Tag;
use object_store::client::s3::TagList;
use object_store::client::s3::Tagging;
use object_store::meta::Timestamp;
use object_store::multipart::PartId;
use object_store::Error;
use object_store::ListResult;
use object_store::ObjectMeta;
use object_store::Path;
use std::collections::HashMap;

fn two_tags() -> Tagging {
    Tagging {
        list: TagList {
            tags: vec![
                Tag {
                    key: "key1".to_string(),
                    value: "value1".to_string(),
                },
                Tag {
                    key: "key2".to_string(),
                    value: "value2".to_string(),
                },
            ],
        },
    }
}

#[test]
fn test_tagging() {
    let expected_xml = r#"<?xml version="1.0" encoding="utf-8"?><Tagging><TagSet><Tag><Key>key1</Key><Value>value1</Value></Tag><Tag><Key>key2</Key><Value>value2</Value></Tag></TagSet></Tagging>"#;

    let tags = Tagging {
        list: TagList {
            tags: vec![
                Tag {
                    key: "key1".to_string(),
                    value: "value1".to_string(),
                },
                Tag {
                    key: "key2".to_string(),
                    value: "value2".to_string(),
                },
            ],
        },
    };
    let body = tags.to_xml_document().unwrap();
    assert_eq!(body, expected_xml);
}

#[test]
fn test_tagging_azure() {
    let expected_xml = r#"<?xml version="1.0" encoding="utf-8"?><Tags><TagSet><Tag><Key>key1</Key><Value>value1</Value></Tag><Tag><Key>key2</Key><Value>value2</Value></Tag></TagSet></Tags>"#;

    let tags = Tagging {
        list: TagList {
            tags: vec![
                Tag {
                    key: "key1".to_string(),
                    value: "value1".to_string(),
                },
                Tag {
                    key: "key2".to_string(),
                    value: "value2".to_string(),
                },
            ],
        },
    };
    let body = tags.to_xml_document_for_azure().unwrap();
    assert_eq!(body, expected_xml);
}

#[test]
fn render_follows_the_dialect() {
    let tags = two_tags();
    assert_eq!(tags.render(Dialect::S3), tags.to_xml_document().unwrap());
    assert_eq!(tags.render(Dialect::Azure), tags.to_xml_document_for_azure().unwrap());
}

#[test]
fn tagging_escapes_special_characters() {
    let tags = Tagging {
        list: TagList {
            tags: vec![Tag {
                key: "a<b>&'\"".to_string(),
                value: "x y\u{e9}".to_string(),
            }],
        },
    };
    let body = tags.to_xml_document().unwrap();
    assert_eq!(
        body,
        "<?xml version=\"1.0\" encoding=\"utf-8\"?><Tagging><TagSet><Tag><Key>a&lt;b&gt;&amp;&apos;&quot;</Key><Value>x y\u{e9}</Value></Tag></TagSet></Tagging>"
    );
}

#[test]
fn tagging_without_tags_or_text() {
    let none = Tagging { list: TagList { tags: vec![] } };
    assert_eq!(
        none.to_xml_document().unwrap(),
        "<?xml version=\"1.0\" encoding=\"utf-8\"?><Tagging><TagSet/></Tagging>"
    );
    assert_eq!(
        none.to_xml_document_for_azure().unwrap(),
        "<?xml version=\"1.0\" encoding=\"utf-8\"?><Tags><TagSet/></Tags>"
    );
    let blank = Tagging {
        list: TagList {
            tags: vec![Tag { key: "k".to_string(), value: String::new() }],
        },
    };
    assert_eq!(
        blank.to_xml_document().unwrap(),
        "<?xml version=\"1.0\" encoding=\"utf-8\"?><Tagging><TagSet><Tag><Key>k</Key><Value/></Tag></TagSet></Tagging>"
    );
}

#[test]
fn tag_map_round_trip() {
    let mut tags = HashMap::new();
    tags.insert("key1".to_string(), "value1".to_string());
    tags.insert("key2".to_string(), "value2".to_string());
    let tagging = Tagging::from(tags.clone());
    assert_eq!(tagging.list.tags.len(), 2);
    assert!(tagging.list.tags.contains(&Tag {
        key: "key1".to_string(),
        value: "value1".to_string()
    }));
    assert!(tagging.list.tags.contains(&Tag {
        key: "key2".to_string(),
        value: "value2".to_string()
    }));
    let back = tagging.into_map();
    assert_eq!(back, tags);
}

#[test]
fn tag_map_of_empty_map() {
    let tagging = Tagging::from(HashMap::new());
    assert!(tagging.list.tags.is_empty());
    assert!(tagging.into_map().is_empty());
}

#[test]
fn later_tag_overwrites_earlier() {
    let tagging = Tagging {
        list: TagList {
            tags: vec![
                Tag { key: "k".to_string(), value: "first".to_string() },
                Tag { key: "other".to_string(), value: "o".to_string() },
                Tag { key: "k".to_string(), value: "second".to_string() },
            ],
        },
    };
    let map = tagging.into_map();
    assert_eq!(map.len(), 2);
    assert_eq!(map.get("k"), Some(&"second".to_string()));
    assert_eq!(map.get("other"), Some(&"o".to_string()));
}

#[test]
fn completion_numbers_parts_by_position() {
    let parts = vec![
        PartId { content_id: "etag-c".to_string() },
        PartId { content_id: "7".to_string() },
        PartId { content_id: "etag-c".to_string() },
    ];
    let request = CompleteMultipartUpload::from(parts);
    assert_eq!(request.part.len(), 3);
    assert_eq!(request.part[0].e_tag, "etag-c");
    assert_eq!(request.part[0].part_number, 1);
    assert_eq!(request.part[1].e_tag, "7");
    assert_eq!(request.part[1].part_number, 2);
    assert_eq!(request.part[2].e_tag, "etag-c");
    assert_eq!(request.part[2].part_number, 3);
    assert!(CompleteMultipartUpload::from(vec![]).part.is_empty());
}

fn entry(key: &str, size: usize, e_tag: Option<&str>) -> ListContents {
    ListContents {
        key: key.to_string(),
        size,
        last_modified: Timestamp { seconds: 1_700_000_000, nanoseconds: 5 },
        e_tag: e_tag.map(|t| t.to_string()),
    }
}

#[test]
fn listing_without_contents_is_empty() {
    let response = ListResponse {
        contents: vec![],
        common_prefixes: vec![ListPrefix { prefix: "a/b/".to_string() }],
        next_continuation_token: None,
    };
    let result = ListResult::try_from(response).unwrap();
    assert!(result.objects.is_empty());
    assert_eq!(result.common_prefixes.len(), 1);
    assert_eq!(result.common_prefixes[0].as_str(), "a/b");
}

#[test]
fn listing_keeps_order_and_fields() {
    let response = ListResponse {
        contents: vec![
            entry("dir/b.txt", 12, Some("\"abc\"")),
            entry("/dir/a.txt", 0, None),
        ],
        common_prefixes: vec![
            ListPrefix { prefix: "dir/z/".to_string() },
            ListPrefix { prefix: "dir/y/".to_string() },
        ],
        next_continuation_token: Some("token".to_string()),
    };
    let result = ListResult::try_from(response).unwrap();
    assert_eq!(result.common_prefixes.len(), 2);
    assert_eq!(result.common_prefixes[0].as_str(), "dir/z");
    assert_eq!(result.common_prefixes[1].as_str(), "dir/y");
    assert_eq!(result.objects.len(), 2);
    assert_eq!(result.objects[0].location.as_str(), "dir/b.txt");
    assert_eq!(result.objects[0].size, 12);
    assert_eq!(result.objects[0].e_tag, Some("\"abc\"".to_string()));
    assert_eq!(result.objects[0].version, None);
    assert_eq!(
        result.objects[0].last_modified,
        Timestamp { seconds: 1_700_000_000, nanoseconds: 5 }
    );
    assert_eq!(result.objects[1].location.as_str(), "dir/a.txt");
    assert_eq!(result.objects[1].size, 0);
    assert_eq!(result.objects[1].e_tag, None);
    assert_eq!(result.objects[1].version, None);
}

#[test]
fn listing_fails_on_unparsable_key() {
    let response = ListResponse {
        contents: vec![entry("good/key", 1, None), entry("bad//key", 2, None), entry("//", 3, None)],
        common_prefixes: vec![],
        next_continuation_token: None,
    };
    match ListResult::try_from(response) {
        Err(Error::InvalidPath { path }) => assert_eq!(path, "bad//key"),
        other => panic!("expected a path error, got {:?}", other),
    }
}

#[test]
fn listing_reports_bad_prefix_before_bad_key() {
    let response = ListResponse {
        contents: vec![entry("bad//key", 2, None)],
        common_prefixes: vec![
            ListPrefix { prefix: "fine/".to_string() },
            ListPrefix { prefix: "a//".to_string() },
        ],
        next_continuation_token: None,
    };
    match ListResult::try_from(response) {
        Err(Error::InvalidPath { path }) => assert_eq!(path, "a//"),
        other => panic!("expected a path error, got {:?}", other),
    }
}

#[test]
fn object_meta_from_entry() {
    let meta = ObjectMeta::try_from(entry("a/b", 9, Some("t"))).unwrap();
    assert_eq!(meta.location.as_str(), "a/b");
    assert_eq!(meta.size, 9);
    assert_eq!(meta.e_tag, Some("t".to_string()));
    assert_eq!(meta.version, None);
    assert!(matches!(
        ObjectMeta::try_from(entry("a//b", 9, None)),
        Err(Error::InvalidPath { .. })
    ));
}

#[test]
fn path_parse_accepts_and_trims() {
    assert_eq!(Path::parse("").unwrap().as_str(), "");
    assert_eq!(Path::parse("/").unwrap().as_str(), "");
    assert_eq!(Path::parse("a").unwrap().as_str(), "a");
    assert_eq!(Path::parse("/a/b/").unwrap().as_str(), "a/b");
    assert_eq!(Path::parse("a/b/c.txt").unwrap().as_str(), "a/b/c.txt");
    assert_eq!(Path::parse("/\u{e9}t\u{e9}/x").unwrap().as_str(), "\u{e9}t\u{e9}/x");
    assert_eq!(Path::root().as_str(), "");
}

#[test]
fn path_parse_rejects_empty_segments() {
    for raw in ["//", "a//b", "//a", "a//", "/a//b/", "///"] {
        match Path::parse(raw) {
            Err(Error::InvalidPath { path }) => assert_eq!(path, raw),
            other => panic!("expected a path error for {:?}, got {:?}", raw, other),
        }
    }
}

#[test]
fn error_messages() {
    let e = Error::InvalidPath { path: "a//b".to_string() };
    assert_eq!(e.message(), "Path is not well formed: a//b");
    let g = Error::Generic { store: "S3", source: "boom".to_string() };
    assert_eq!(g.message(), "Generic S3 error: boom");
}
