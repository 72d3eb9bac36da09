use servofetch::wire::{
    parse_http_response, ResponseError, build_http_request, has_chunked_transfer_encoding, decode_chunked_body, find_line_end, is_onion_host, parse_status_line,
    sanitize_header_value, split_head_body, trim_ascii, trim_line, ChunkError, StatusLineError,
};

#[test]
fn trim_line_removes_one_cr() {
    assert_eq!(trim_line(b"abc\r"), b"abc");
    assert_eq!(trim_line(b"abc\r\r"), b"abc\r");
    assert_eq!(trim_line(b"abc"), b"abc");
    assert_eq!(trim_line(b""), b"");
}

#[test]
fn trim_ascii_both_ends() {
    assert_eq!(trim_ascii(b"  \t value \r\n"), b"value");
    assert_eq!(trim_ascii(b" a b "), b"a b");
    assert_eq!(trim_ascii(b"   "), b"");
    assert_eq!(trim_ascii(b"\x0bx\x0b"), b"\x0bx\x0b");
}

#[test]
fn find_line_end_cases() {
    assert_eq!(find_line_end(b"ab\r\ncd", 0), Some((2, 2)));
    assert_eq!(find_line_end(b"ab\ncd", 0), Some((2, 1)));
    assert_eq!(find_line_end(b"ab\r\ncd\n", 4), Some((6, 1)));
    assert_eq!(find_line_end(b"ab\rcd", 0), None);
    assert_eq!(find_line_end(b"ab", 5), None);
}

#[test]
fn split_head_body_prefers_crlf() {
    let (head, body) = split_head_body(b"HTTP/1.0 200 OK\r\nA: b\r\n\r\nhello\n\nworld").unwrap();
    assert_eq!(head, b"HTTP/1.0 200 OK\r\nA: b");
    assert_eq!(body, b"hello\n\nworld");
}

#[test]
fn split_head_body_bare_lf() {
    let (head, body) = split_head_body(b"HTTP/1.0 200 OK\nA: b\n\nhello").unwrap();
    assert_eq!(head, b"HTTP/1.0 200 OK\nA: b");
    assert_eq!(body, b"hello");
    assert!(split_head_body(b"HTTP/1.0 200 OK\r\n").is_none());
}

#[test]
fn sanitize_header_value_cases() {
    assert_eq!(sanitize_header_value(b"a\r\nb\x00c\x7fd\te"), b"a  bcde".to_vec());
    assert_eq!(sanitize_header_value(b"plain value"), b"plain value".to_vec());
}

#[test]
fn status_line_ok() {
    let (code, reason) = parse_status_line(b"HTTP/1.1 404 Not Found").unwrap();
    assert_eq!(code, 404);
    assert_eq!(reason, b"Not Found");
    let (code, reason) = parse_status_line(b"HTTP/1.0 200").unwrap();
    assert_eq!(code, 200);
    assert_eq!(reason, b"");
    let (code, _) = parse_status_line(b"HTTP/1.0 +301 Moved").unwrap();
    assert_eq!(code, 301);
}

#[test]
fn status_line_errors() {
    assert_eq!(parse_status_line(b"ICY 200 OK").unwrap_err(), StatusLineError::NotHttp);
    assert_eq!(parse_status_line(b"").unwrap_err(), StatusLineError::NotHttp);
    assert_eq!(parse_status_line(b"HTTP/1.0").unwrap_err(), StatusLineError::InvalidStatus);
    assert_eq!(parse_status_line(b"HTTP/1.0 99 Low").unwrap_err(), StatusLineError::InvalidStatus);
    assert_eq!(parse_status_line(b"HTTP/1.0 1000 High").unwrap_err(), StatusLineError::InvalidStatus);
    assert_eq!(parse_status_line(b"HTTP/1.0 abc").unwrap_err(), StatusLineError::InvalidStatus);
    assert_eq!(parse_status_line(b"HTTP/1.0  200").unwrap_err(), StatusLineError::InvalidStatus);
}

#[test]
fn chunked_body_decodes() {
    let body = b"4\r\nWiki\r\n5;ext=1\r\npedia\r\nE\r\n in\r\n\r\nchunks.\r\n0\r\n\r\n";
    assert_eq!(decode_chunked_body(body).unwrap(), b"Wikipedia in\r\n\r\nchunks.".to_vec());
}

#[test]
fn chunked_body_bare_lf_and_padding() {
    let body = b" 3 \nabc\n0\n";
    assert_eq!(decode_chunked_body(body).unwrap(), b"abc".to_vec());
    let unicode_space = "\u{a0}2\u{3000}\r\nhi\r\n0\r\n".as_bytes();
    assert_eq!(decode_chunked_body(unicode_space).unwrap(), b"hi".to_vec());
}

#[test]
fn chunked_body_errors() {
    assert_eq!(decode_chunked_body(b"").unwrap_err(), ChunkError::TruncatedHeader);
    assert_eq!(decode_chunked_body(b"3\r\nabc\r\n").unwrap_err(), ChunkError::TruncatedHeader);
    assert_eq!(decode_chunked_body(b"zz\r\n").unwrap_err(), ChunkError::InvalidSize);
    assert_eq!(decode_chunked_body(b"\r\n").unwrap_err(), ChunkError::InvalidSize);
    assert_eq!(decode_chunked_body(b"a\r\nabc").unwrap_err(), ChunkError::TruncatedBody);
    assert_eq!(ChunkError::TruncatedBody.message(), "onion response has a truncated chunk body");
    assert_eq!(ChunkError::InvalidSize.message(), "onion response has an invalid chunk size");
    assert_eq!(
        ChunkError::TruncatedHeader.message(),
        "onion response has a truncated chunk header"
    );
}

#[test]
fn onion_host_detection() {
    assert!(is_onion_host(Some("archiveiya74codqgiixo33q62qlrqtkgmcitqx5u2oeqnmn5bpcbiyd.onion")));
    assert!(is_onion_host(Some("EXAMPLE.ONION")));
    assert!(is_onion_host(Some(".onion")));
    assert!(!is_onion_host(Some("onion")));
    assert!(!is_onion_host(Some("example.com")));
    assert!(!is_onion_host(Some("example.onion.com")));
    assert!(!is_onion_host(None));
}

#[test]
fn http_request_bytes() {
    let headers = vec![
        (b"user-agent".to_vec(), b"servo\r\nX: y".to_vec()),
        (b"host".to_vec(), b"evil".to_vec()),
        (b"accept".to_vec(), b"*/*".to_vec()),
        (b"content-length".to_vec(), b"10".to_vec()),
    ];
    let request = build_http_request(b"GET", b"/a/b", Some(b"x=1"), b"Abc.onion", None, &headers);
    assert_eq!(
        request,
        b"GET /a/b?x=1 HTTP/1.0\r\nHost: abc.onion\r\nConnection: close\r\nAccept-Encoding: identity\r\nuser-agent: servo  X: y\r\naccept: */*\r\n\r\n".to_vec()
    );
}

#[test]
fn http_request_with_port_and_empty_path() {
    let request = build_http_request(b"HEAD", b"", None, b"Abc.onion", Some(8080), &[]);
    assert_eq!(
        request,
        b"HEAD / HTTP/1.0\r\nHost: Abc.onion:8080\r\nConnection: close\r\nAccept-Encoding: identity\r\n\r\n".to_vec()
    );
}

#[test]
fn response_head_lines() {
    let head = b"HTTP/1.0 200 OK\r\nContent-Type: text/html \r\nbogus line\r\n\r\nX-Empty:\nA:b:c";
    let (code, reason, headers) = servofetch::wire::parse_response_head(head).unwrap();
    assert_eq!(code, 200);
    assert_eq!(reason, b"OK");
    let pairs: Vec<(&[u8], &[u8])> = headers;
    assert_eq!(
        pairs,
        vec![
            (&b"Content-Type"[..], &b"text/html"[..]),
            (&b"X-Empty"[..], &b""[..]),
            (&b"A"[..], &b"b:c"[..]),
        ]
    );
}

#[test]
fn response_head_status_only_and_error() {
    let (code, reason, headers) = servofetch::wire::parse_response_head(b"HTTP/1.1 204").unwrap();
    assert_eq!(code, 204);
    assert_eq!(reason, b"");
    assert!(headers.is_empty());
    assert_eq!(
        servofetch::wire::parse_response_head(b"garbage\r\nA: b").unwrap_err(),
        StatusLineError::NotHttp
    );
}

#[test]
fn chunked_transfer_encoding_detection() {
    let chunked = vec![(b"transfer-encoding".to_vec(), b"gzip, CHUNKED".to_vec())];
    assert!(has_chunked_transfer_encoding(&chunked));
    let other = vec![(b"transfer-encoding".to_vec(), b"gzip".to_vec())];
    assert!(!has_chunked_transfer_encoding(&other));
    let wrong_name = vec![(b"x-transfer-encoding".to_vec(), b"chunked".to_vec())];
    assert!(!has_chunked_transfer_encoding(&wrong_name));
    let not_text = vec![(b"transfer-encoding".to_vec(), b"chunked\x01".to_vec())];
    assert!(!has_chunked_transfer_encoding(&not_text));
    assert!(!has_chunked_transfer_encoding(&[]));
}

#[test]
fn http_response_plain_body_gets_content_length() {
    let response = parse_http_response(b"HTTP/1.0 200 OK\r\nContent-Type: text/html\r\n\r\nhello").unwrap();
    assert_eq!(response.status, 200);
    assert_eq!(response.reason, Some(b"OK".to_vec()));
    assert_eq!(
        response.headers,
        vec![
            (b"content-type".to_vec(), b"text/html".to_vec()),
            (b"content-length".to_vec(), b"5".to_vec()),
        ]
    );
    assert_eq!(response.body, b"hello".to_vec());
}

#[test]
fn http_response_keeps_given_content_length() {
    let response = parse_http_response(b"HTTP/1.0 404 Not Found\nContent-Length: 99\n\nabc").unwrap();
    assert_eq!(response.status, 404);
    assert_eq!(response.headers, vec![(b"content-length".to_vec(), b"99".to_vec())]);
    assert_eq!(response.body, b"abc".to_vec());
}

#[test]
fn http_response_mixed_case_chunked_is_decoded() {
    let raw = b"HTTP/1.1 200 OK\r\nTransfer-Encoding: Chunked\r\nContent-Length: 7\r\nX-A: b\r\n\r\nb\r\nhello world\r\n0\r\n\r\n";
    let response = parse_http_response(raw).unwrap();
    assert_eq!(response.body, b"hello world".to_vec());
    assert_eq!(
        response.headers,
        vec![
            (b"x-a".to_vec(), b"b".to_vec()),
            (b"content-length".to_vec(), b"11".to_vec()),
        ]
    );
}

#[test]
fn http_response_errors() {
    assert_eq!(parse_http_response(b"HTTP/1.0 200 OK").unwrap_err(), ResponseError::Malformed);
    assert_eq!(
        parse_http_response(b"SSH-2.0\r\n\r\n").unwrap_err(),
        ResponseError::StatusLine(StatusLineError::NotHttp)
    );
    assert_eq!(
        parse_http_response(b"HTTP/1.0 200 OK\r\nTransfer-Encoding: chunked\r\n\r\nffffffffffffffff\r\nab").unwrap_err(),
        ResponseError::Chunk(ChunkError::TruncatedBody)
    );
    assert_eq!(
        ResponseError::Malformed.message(),
        "onion service returned a malformed HTTP response"
    );
    assert_eq!(
        ResponseError::StatusLine(StatusLineError::InvalidStatus).message(),
        "onion service returned an invalid HTTP status"
    );
    assert_eq!(
        ResponseError::Chunk(ChunkError::InvalidSize).message(),
        "onion response has an invalid chunk size"
    );
}

#[test]
fn chunk_size_beyond_body_is_truncated() {
    assert_eq!(
        decode_chunked_body(b"ffffffffffffffff\r\nabc").unwrap_err(),
        ChunkError::TruncatedBody
    );
}

#[test]
fn http_response_reason_kept_only_when_valid() {
    let empty = parse_http_response(b"HTTP/1.0 200\r\n\r\n").unwrap();
    assert_eq!(empty.reason, None);
    let control = parse_http_response(b"HTTP/1.0 200 O\x01K\r\n\r\n").unwrap();
    assert_eq!(control.reason, None);
    let spaced = parse_http_response(b"HTTP/1.0 404 Not\tFound \xe9\r\n\r\n").unwrap();
    assert_eq!(spaced.reason, Some(b"Not\tFound \xe9".to_vec()));
}

#[test]
fn http_response_refuses_bad_headers() {
    assert_eq!(
        parse_http_response(b"HTTP/1.0 200 OK\r\n:x\r\n\r\n").unwrap_err(),
        ResponseError::InvalidHeaderName
    );
    assert_eq!(
        parse_http_response(b"HTTP/1.0 200 OK\r\nBad Name: x\r\n\r\n").unwrap_err(),
        ResponseError::InvalidHeaderName
    );
    assert_eq!(
        parse_http_response(b"HTTP/1.0 200 OK\r\nX-A: a\x01b\r\n\r\n").unwrap_err(),
        ResponseError::InvalidHeaderValue
    );
    assert_eq!(
        parse_http_response(b"HTTP/1.0 200 OK\r\nX-A: a\x01b\r\nBad Name: y\r\n\r\n").unwrap_err(),
        ResponseError::InvalidHeaderValue
    );
    let ok = parse_http_response(b"HTTP/1.0 200 OK\r\nX-Tab: a\tb\r\nNo-Colon-Line\r\n\r\n").unwrap();
    assert_eq!(ok.headers[0], (b"x-tab".to_vec(), b"a\tb".to_vec()));
    assert_eq!(
        ResponseError::InvalidHeaderName.message(),
        "onion response has invalid header name: invalid HTTP header name"
    );
    assert_eq!(
        ResponseError::InvalidHeaderValue.message(),
        "onion response has invalid header value: failed to parse header value"
    );
}
