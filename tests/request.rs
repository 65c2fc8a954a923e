use bytes::Bytes;
use pyruvate::request::{PeerAddr, RequestError, WSGIRequest};
use pyruvate::tokenizer::{HeadStatus, HeaderField, RequestHead};

fn value_of<'a>(req: &'a WSGIRequest, key: &str) -> Option<&'a str> {
    req.environ.iter().find(|(k, _)| *k == key).map(|(_, v)| v.as_str())
}

#[test]
fn test_get() {
    let raw = Bytes::from(&b"GET /foo42?bar=baz HTTP/1.1\r\nHost: localhost:7878\r\nUser-Agent: Mozilla/5.0 (X11; Ubuntu; Linux x86_64; rv:70.0) Gecko/20100101 Firefox/70.0\r\nAccept: image/webp,*/*\r\nAccept-Language: de-DE,en-US;q=0.7,en;q=0.3\r\nAccept-Encoding: gzip, deflate\r\nConnection: keep-alive\r\nCookie: foo_language=en;\r\nDNT: 1\r\n\r\n"[..]);
    let mut got = WSGIRequest::new(None);
    got.parse_headers(raw).unwrap();
    assert!(got.environ.len() == 12);
    for (name, value) in got.environ.iter() {
        match *name {
            "HTTP_COOKIE" => assert!(&value[..] == "foo_language=en;"),
            "PATH_INFO" => assert!(&value[..] == "/foo42"),
            "QUERY_STRING" => assert!(&value[..] == "bar=baz"),
            "HTTP_ACCEPT" => assert!(&value[..] == "image/webp,*/*"),
            "HTTP_ACCEPT_LANGUAGE" => assert!(&value[..] == "de-DE,en-US;q=0.7,en;q=0.3"),
            "HTTP_ACCEPT_ENCODING" => assert!(&value[..] == "gzip, deflate"),
            "HTTP_CONNECTION" => assert!(&value[..] == "keep-alive"),
            "REQUEST_METHOD" => assert!(&value[..] == "GET"),
            "HTTP_HOST" => assert!(&value[..] == "localhost:7878"),
            "HTTP_USER_AGENT" => {
                let expected = "Mozilla/5.0 (X11; Ubuntu; Linux x86_64; rv:70.0) Gecko/20100101 Firefox/70.0";
                assert_eq!(value, expected);
            },
            "HTTP_DNT" => assert_eq!(&value[..], "1"),
            "SERVER_PROTOCOL" => assert_eq!(&value[..], "HTTP/1.1"),
            &_ => {}
        }
    }
}

#[test]
fn test_parse_body_once() {
    let raw = Bytes::from(&b"POST /test HTTP/1.1\r\nHost: foo.example\r\nContent-Type: application/x-www-form-urlencoded\r\nContent-Length: 27\r\n\r\nfield1=value1&field2=value2"[..]);
    let mut got = WSGIRequest::new(None);
    got.parse(raw).expect("Error parsing request");
    assert!(got.complete);
    for (name, value) in got.environ.iter() {
        match *name {
            "CONTENT_TYPE" => {
                let expected = "application/x-www-form-urlencoded";
                assert_eq!(value, expected);
            },
            &_ => {}
        }
    }
    assert_eq!(&got.body[..], b"field1=value1&field2=value2");
}

#[test]
fn test_parse_multiple() {
    let raw1 = Bytes::from(&b"POST /test HTTP/1.1\r\nHost: foo.example\r\nContent-Type: application/x-www-form-urlencoded\r\nContent-Length: 41\r\n\r\nfield1=value1&field2=value2"[..]);
    let raw2 = Bytes::from(&b"&field3=value3"[..]);
    let mut got = WSGIRequest::new(None);
    got.parse(raw1).expect("Error parsing request");
    assert!(!got.complete);
    assert!(got.content_length == 41);
    got.parse(raw2).expect("Error parsing request");
    assert!(got.complete);
    assert!(got.content_length == 41);
    for (name, value) in got.environ.iter() {
        match *name {
            "CONTENT_TYPE" => {
                let expected = "application/x-www-form-urlencoded";
                assert_eq!(expected, value);
            },
            &_ => {}
        }
    }
    let expected = b"field1=value1&field2=value2&field3=value3";
    assert!(
        got.body.iter().zip(expected.iter()).all(|(p,q)| p == q));
    assert_eq!(&got.body[..], &expected[..]);
}

const POST_41: &[u8] = b"POST /test HTTP/1.1\r\nHost: foo.example\r\nContent-Type: application/x-www-form-urlencoded\r\nContent-Length: 41\r\n\r\nfield1=value1&field2=value2&field3=value3";

#[test]
fn split_at_every_boundary_matches_single_chunk() {
    let mut whole = WSGIRequest::new(None);
    whole.parse(Bytes::from_static(POST_41)).unwrap();
    assert!(whole.complete);
    for cut in 0..=POST_41.len() {
        let mut got = WSGIRequest::new(None);
        got.parse(Bytes::copy_from_slice(&POST_41[..cut])).unwrap();
        got.parse(Bytes::copy_from_slice(&POST_41[cut..])).unwrap();
        assert_eq!(got.environ, whole.environ, "cut at {}", cut);
        assert_eq!(&got.body[..], &whole.body[..], "cut at {}", cut);
        assert_eq!(got.complete, whole.complete, "cut at {}", cut);
        assert_eq!(got.content_length, whole.content_length);
    }
}

#[test]
fn byte_by_byte_delivery_matches_single_chunk() {
    let mut whole = WSGIRequest::new(None);
    whole.parse(Bytes::from_static(POST_41)).unwrap();
    let mut got = WSGIRequest::new(None);
    for b in POST_41 {
        got.parse(Bytes::copy_from_slice(&[*b])).unwrap();
    }
    assert_eq!(got.environ, whole.environ);
    assert_eq!(&got.body[..], &whole.body[..]);
    assert!(got.complete);
}

#[test]
fn request_without_body_completes_at_header_block() {
    let mut got = WSGIRequest::new(None);
    got.parse(Bytes::from_static(b"GET /index.html HTTP/1.0\r\nHost: a\r\n\r\n")).unwrap();
    assert!(got.complete);
    assert!(got.body.is_empty());
    assert_eq!(got.content_length, 0);
    assert_eq!(value_of(&got, "SERVER_PROTOCOL"), Some("HTTP/1.0"));
}

#[test]
fn path_without_query_gives_empty_query_string() {
    let mut got = WSGIRequest::new(None);
    got.parse(Bytes::from_static(b"GET /plain HTTP/1.1\r\n\r\n")).unwrap();
    assert_eq!(value_of(&got, "PATH_INFO"), Some("/plain"));
    assert_eq!(value_of(&got, "QUERY_STRING"), Some(""));
}

#[test]
fn query_is_everything_after_first_question_mark() {
    let mut got = WSGIRequest::new(None);
    got.parse(Bytes::from_static(b"GET /a?b=1?c=2 HTTP/1.1\r\n\r\n")).unwrap();
    assert_eq!(value_of(&got, "PATH_INFO"), Some("/a"));
    assert_eq!(value_of(&got, "QUERY_STRING"), Some("b=1?c=2"));
}

#[test]
fn environment_order_is_headers_then_request_line() {
    let mut got = WSGIRequest::new(None);
    got.parse(Bytes::from_static(b"PUT /x?y HTTP/1.1\r\nX-Other: 1\r\nContent-Type: text/plain\r\nHost: h\r\n\r\n")).unwrap();
    let keys: Vec<&str> = got.environ.iter().map(|(k, _)| *k).collect();
    assert_eq!(keys, vec!["CONTENT_TYPE", "HTTP_HOST", "REQUEST_METHOD", "PATH_INFO", "QUERY_STRING", "SERVER_PROTOCOL"]);
}

#[test]
fn unsupported_version_leaves_request_unchanged() {
    let mut got = WSGIRequest::new(None);
    got.pending = b"GET / HTTP/1.2\r\n\r\nbody".to_vec();
    let head = RequestHead {
        size: 18,
        method: Some("GET".to_string()),
        path: Some("/".to_string()),
        version: Some(2),
        headers: vec![HeaderField { name: "Host".to_string(), value: b"h".to_vec() }],
    };
    let r = got.apply_head(Ok(HeadStatus::Complete(head)));
    assert!(matches!(r, Err(RequestError::UnsupportedVersion(2))));
    assert!(got.environ.is_empty());
    assert!(got.body.is_empty());
    assert!(!got.complete);
    assert!(!got.headers_parsed);
}

#[test]
fn unknown_version_on_the_wire_is_malformed() {
    let mut got = WSGIRequest::new(None);
    let r = got.parse(Bytes::from_static(b"GET / HTTP/1.2\r\n\r\n"));
    assert!(matches!(r, Err(RequestError::Malformed(httparse::Error::Version))));
    assert!(got.environ.is_empty());
    assert!(got.body.is_empty());
}

#[test]
fn apply_head_spills_bytes_after_the_block() {
    let mut got = WSGIRequest::new(None);
    got.pending = b"GET / HTTP/1.1\r\nContent-Length: 3\r\n\r\nabc".to_vec();
    let head = RequestHead {
        size: 37,
        method: Some("GET".to_string()),
        path: Some("/".to_string()),
        version: Some(1),
        headers: vec![HeaderField { name: "Content-Length".to_string(), value: b"3".to_vec() }],
    };
    got.apply_head(Ok(HeadStatus::Complete(head))).unwrap();
    assert_eq!(&got.body[..], b"abc");
    assert_eq!(got.content_length, 3);
    assert!(got.complete);
    assert!(got.pending.is_empty());
}

#[test]
fn malformed_request_line_is_an_error() {
    let mut got = WSGIRequest::new(None);
    let r = got.parse(Bytes::from_static(b"GET /\x01 HTTP/1.1\r\n\r\n"));
    assert!(matches!(r, Err(RequestError::Malformed(_))));
    assert!(got.environ.is_empty());
    assert!(!got.complete);
}

#[test]
fn invalid_utf8_header_value_is_an_error_with_its_bytes() {
    let mut got = WSGIRequest::new(None);
    let r = got.parse(Bytes::from_static(b"GET / HTTP/1.1\r\nCookie: a\xff\xfe\r\n\r\n"));
    match r {
        Err(RequestError::Encoding(bytes)) => assert_eq!(bytes, b"a\xff\xfe".to_vec()),
        other => panic!("unexpected {:?}", other),
    }
    assert!(got.environ.is_empty());
}

#[test]
fn invalid_utf8_in_unlisted_header_is_ignored() {
    let mut got = WSGIRequest::new(None);
    got.parse(Bytes::from_static(b"GET / HTTP/1.1\r\nX-Raw: \xff\r\n\r\n")).unwrap();
    assert!(got.complete);
    assert_eq!(got.environ.len(), 4);
}

#[test]
fn too_many_headers_is_an_error() {
    let mut raw = b"GET / HTTP/1.1\r\n".to_vec();
    for i in 0..17 {
        raw.extend_from_slice(format!("X-H{}: v\r\n", i).as_bytes());
    }
    raw.extend_from_slice(b"\r\n");
    let mut got = WSGIRequest::new(None);
    let r = got.parse(Bytes::from(raw));
    assert!(matches!(r, Err(RequestError::Malformed(httparse::Error::TooManyHeaders))));
}

#[test]
fn sixteen_headers_are_accepted() {
    let mut raw = b"GET / HTTP/1.1\r\n".to_vec();
    for i in 0..16 {
        raw.extend_from_slice(format!("X-H{}: v\r\n", i).as_bytes());
    }
    raw.extend_from_slice(b"\r\n");
    let mut got = WSGIRequest::new(None);
    got.parse(Bytes::from(raw)).unwrap();
    assert!(got.complete);
}

#[test]
fn unreadable_content_length_is_ignored() {
    let mut got = WSGIRequest::new(None);
    got.parse(Bytes::from_static(b"POST / HTTP/1.1\r\nContent-Length: abc\r\n\r\n")).unwrap();
    assert_eq!(got.content_length, 0);
    assert!(got.complete);
}

#[test]
fn partial_header_block_waits_for_more() {
    let mut got = WSGIRequest::new(None);
    got.parse(Bytes::from_static(b"GET / HTTP/1.1\r\nHost: a\r\n")).unwrap();
    assert!(!got.complete);
    assert!(got.environ.is_empty());
    got.parse(Bytes::from_static(b"\r\n")).unwrap();
    assert!(got.complete);
    assert_eq!(value_of(&got, "HTTP_HOST"), Some("a"));
}

#[test]
fn leading_empty_lines_are_skipped() {
    let mut got = WSGIRequest::new(None);
    got.parse(Bytes::from_static(b"\r\n")).unwrap();
    got.parse(Bytes::from_static(b"GET /x HTTP/1.1\r\n\r\n")).unwrap();
    assert!(got.complete);
    assert_eq!(value_of(&got, "PATH_INFO"), Some("/x"));
}

#[test]
fn complete_request_ignores_later_chunks() {
    let mut got = WSGIRequest::new(None);
    got.parse(Bytes::from_static(b"GET / HTTP/1.1\r\n\r\n")).unwrap();
    assert!(got.complete);
    got.parse(Bytes::from_static(b"extra")).unwrap();
    assert!(got.body.is_empty());
    assert_eq!(got.environ.len(), 4);
}

#[test]
fn body_past_declared_length_is_kept_but_never_completes() {
    let mut got = WSGIRequest::new(None);
    got.parse(Bytes::from_static(b"POST / HTTP/1.1\r\nContent-Length: 5\r\n\r\n1234567")).unwrap();
    assert!(!got.complete);
    assert_eq!(&got.body[..], b"1234567");
}

#[test]
fn empty_chunk_changes_nothing() {
    let mut got = WSGIRequest::new(None);
    got.parse(Bytes::new()).unwrap();
    assert!(!got.complete);
    assert!(got.pending.is_empty());
    assert!(got.environ.is_empty());
}

#[test]
fn peer_address_is_kept() {
    let peer = PeerAddr::V4 { octets: [127, 0, 0, 1], port: 7878 };
    let mut got = WSGIRequest::new(Some(peer));
    got.parse(Bytes::from_static(b"GET / HTTP/1.1\r\n\r\n")).unwrap();
    match got.peer_addr {
        Some(PeerAddr::V4 { octets, port }) => {
            assert_eq!(octets, [127, 0, 0, 1]);
            assert_eq!(port, 7878);
        },
        other => panic!("unexpected {:?}", other),
    }
}
