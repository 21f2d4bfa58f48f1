use auto_sync::chunked::{find_crlf, stream_chunked_body, ChunkError, ChunkedDecoder, Style};
use auto_sync::http::{
    buffered_request, ndjson_request, parse_head, refusal, retries, status_is_success,
    streamed_request,
};
use auto_sync::ndjson::{stream_sized_body, NdjsonLineSplitter, NdjsonReader};
use auto_sync::pool::{configure_tcp_connection_pool, connection_key, TcpConnectionPool};
use auto_sync::response::{accept_response, read_http_response, HttpError, ResponseReader};

#[test]
fn http_response_reads_content_length_body_and_stays_reusable() {
    let wire = b"HTTP/1.1 200 OK\r\nContent-Length: 5\r\n\r\nhello";
    let response = read_http_response(&wire.to_vec()).unwrap();
    assert_eq!(response.status_line, "HTTP/1.1 200 OK");
    assert_eq!(response.body, b"hello");
    assert!(response.reusable);
}

#[test]
fn http_response_connection_close_is_not_reusable() {
    let wire = b"HTTP/1.1 200 OK\r\nContent-Length: 2\r\nConnection: close\r\n\r\nok";
    let response = read_http_response(&wire.to_vec()).unwrap();
    assert_eq!(response.body, b"ok");
    assert!(!response.reusable);
}

#[test]
fn http_response_decodes_chunked_transfer_encoding() {
    let wire = b"HTTP/1.1 200 OK\r\nTransfer-Encoding: chunked\r\n\r\n\
                 6\r\nhello \r\n5\r\nworld\r\n0\r\n\r\n";
    let response = read_http_response(&wire.to_vec()).unwrap();
    assert_eq!(response.body, b"hello world");
    assert!(response.reusable);
    // Chunk extensions after ';' are ignored.
    let wire = b"HTTP/1.1 200 OK\r\nTransfer-Encoding: chunked\r\n\r\n\
                 2;ext=1\r\nhi\r\n0\r\n\r\n";
    let response = read_http_response(&wire.to_vec()).unwrap();
    assert_eq!(response.body, b"hi");
}

#[test]
fn http_response_without_framing_reads_to_eof_and_is_not_reusable() {
    let wire = b"HTTP/1.0 200 OK\r\n\r\nstream-until-close";
    let response = read_http_response(&wire.to_vec()).unwrap();
    assert_eq!(response.body, b"stream-until-close");
    assert!(!response.reusable);
}

#[test]
fn http_response_rejects_truncated_body_and_headers() {
    // Body shorter than Content-Length: an error, not a silent short read.
    let wire = b"HTTP/1.1 200 OK\r\nContent-Length: 10\r\n\r\nhel";
    assert!(read_http_response(&wire.to_vec()).is_err());
    // Connection dropped before the header terminator.
    let wire = b"HTTP/1.1 200 OK\r\nContent-Le";
    assert!(read_http_response(&wire.to_vec()).is_err());
}

#[test]
fn chunked_body_decodes_across_read_boundaries() {
    // "hello " (6) + "world" (5) split so chunk headers and payloads
    // straddle the initial pending buffer and later reads.
    let wire = b"6\r\nhello \r\n5\r\nworld\r\n0\r\n\r\n";
    for split in 0..wire.len() {
        let pending = wire[..split].to_vec();
        let rest = wire[split..].to_vec();
        let out = stream_chunked_body(&rest, &pending).unwrap();
        assert_eq!(out, b"hello world", "split at {split}");
    }
}

#[test]
fn chunked_body_rejects_truncation() {
    let wire = b"6\r\nhel";
    let result = stream_chunked_body(&Vec::new(), &wire.to_vec());
    assert!(result.is_err());
}

#[test]
fn sized_body_delivers_exactly_content_length() {
    let rest = b"body-and-then-garbage".to_vec();
    let (out, consumed) = stream_sized_body(&rest, &Vec::new(), 4).unwrap();
    assert_eq!(consumed, 4);
    assert_eq!(out, b"body");
}

#[test]
fn ndjson_lines_split_across_chunks() {
    let mut lines: Vec<Vec<u8>> = Vec::new();
    let mut splitter = NdjsonLineSplitter::new();
    lines.extend(splitter.feed(&b"{\"a\":1}\r\n{\"b\"".to_vec()));
    lines.extend(splitter.feed(&b":2}\n".to_vec()));
    lines.extend(splitter.feed(&b"{\"c\":3}".to_vec()));
    lines.extend(splitter.finish());
    assert_eq!(
        lines,
        vec![
            b"{\"a\":1}".to_vec(),
            b"{\"b\":2}".to_vec(),
            b"{\"c\":3}".to_vec()
        ]
    );
}

fn chunk_error(style: Style, wire: &[u8]) -> ChunkError {
    let mut d = ChunkedDecoder::new(style, None);
    d.feed(&wire.to_vec());
    if !d.is_settled() {
        d.end();
    }
    d.outcome().unwrap_err()
}

#[test]
fn chunk_decoder_gives_each_error() {
    assert!(matches!(chunk_error(Style::Streaming, b"5\r\nhel"), ChunkError::Closed));
    assert!(matches!(
        chunk_error(Style::Streaming, b"zz\r\nhi\r\n"),
        ChunkError::BadSize(s) if s == "zz"
    ));
    assert!(matches!(chunk_error(Style::Streaming, b"2\r\nhixx"), ChunkError::BadTerminator));
    assert!(matches!(chunk_error(Style::Streaming, b"\xff\r\n"), ChunkError::BadEncoding));
    assert!(matches!(
        chunk_error(Style::Streaming, &vec![b'1'; 20_000]),
        ChunkError::LineTooLarge
    ));
    assert_eq!(
        chunk_error(Style::Buffered, b"2\r\nhixx").message(Style::Buffered),
        "invalid chunk terminator"
    );
    assert_eq!(find_crlf(&b"ab\r\ncd".to_vec()), Some(2));
    assert_eq!(find_crlf(&b"ab\rcd\n".to_vec()), None);
    // A capped decoder drops what comes once the cap is reached.
    let mut d = ChunkedDecoder::new(Style::Streaming, Some(3));
    d.feed(&b"5\r\nhello\r\n1\r\n!\r\n0\r\n\r\n".to_vec());
    assert_eq!(d.outcome().unwrap(), b"hello");
}

#[test]
fn response_is_read_in_pieces() {
    let wire = b"HTTP/1.1 200 OK\r\nContent-Length: 5\r\n\r\nhello".to_vec();
    for split in 0..=wire.len() {
        let mut reader = ResponseReader::new();
        reader = reader.feed(&wire[..split].to_vec());
        if !reader.is_settled() {
            reader = reader.feed(&wire[split..].to_vec());
        }
        if !reader.is_settled() {
            reader = reader.end();
        }
        let response = reader.outcome().unwrap();
        assert_eq!(response.body, b"hello");
    }
}

#[test]
fn refused_responses_carry_status_and_body() {
    let wire = b"HTTP/1.1 404 Not Found\r\nContent-Length: 8\r\n\r\nnot here".to_vec();
    let response = read_http_response(&wire).unwrap();
    let err: HttpError = accept_response(response).unwrap_err();
    assert_eq!(
        err.message(),
        "peer returned non-200 response: HTTP/1.1 404 Not Found: not here"
    );
    let wire = b"HTTP/1.1 200 OK\r\nContent-Length: 2\r\n\r\nok".to_vec();
    assert_eq!(accept_response(read_http_response(&wire).unwrap()).unwrap().body, b"ok");
    assert_eq!(
        refusal("HTTP/1.1 500 Oops ", "  "),
        "peer returned non-200 response: HTTP/1.1 500 Oops"
    );
    // A body that is no text is shown with replacement characters.
    let wire = b"HTTP/1.1 500 X\r\nContent-Length: 2\r\n\r\n\xffA".to_vec();
    let err = accept_response(read_http_response(&wire).unwrap()).unwrap_err();
    assert_eq!(err.message(), "peer returned non-200 response: HTTP/1.1 500 X: \u{fffd}A");
}

#[test]
fn status_lines_that_mean_success() {
    assert!(status_is_success("HTTP/1.1 200 OK"));
    assert!(status_is_success("HTTP/1.0 200"));
    assert!(!status_is_success("HTTP/1.1 204 No Content"));
    assert!(!status_is_success("HTTP/2 200"));
}

#[test]
fn heads_are_parsed_whatever_the_case() {
    let head = parse_head("HTTP/1.1 200 OK\r\ncontent-LENGTH: 12\r\nConnection: Close");
    assert_eq!(head.status_line, "HTTP/1.1 200 OK");
    assert_eq!(head.content_length, Some(12));
}

#[test]
fn requests_name_host_token_and_length() {
    let text = buffered_request("POST", "/api/x", "10.0.0.2", 18765, "tok", Some("application/json"), 3);
    assert!(text.starts_with("POST /api/x HTTP/1.1\r\nHost: 10.0.0.2:18765\r\n"));
    assert!(text.contains(": tok\r\n"));
    assert!(text.contains("Content-Length: 3\r\n"));
    assert!(text.ends_with("\r\n\r\n"));
    let plain = buffered_request("GET", "/", "h", 1, "", None, 0);
    assert!(!plain.contains("tok"));
    assert_eq!(
        streamed_request("/up", "h", 9, "", 77),
        "POST /up HTTP/1.1\r\nHost: h:9\r\nConnection: keep-alive\r\nAccept: application/json\r\n\
         Content-Type: application/octet-stream\r\nContent-Length: 77\r\n\r\n"
    );
    assert!(ndjson_request("/n", "h", 9, "", 5).contains("Content-Length: 5\r\n"));
}

#[test]
fn only_a_reused_connection_is_tried_again() {
    assert!(retries(0, true, false));
    assert!(!retries(0, false, false));
    assert!(!retries(1, true, false));
    assert!(!retries(0, true, true));
}

#[test]
fn ndjson_reader_delivers_lines_of_a_sized_body() {
    let wire = b"HTTP/1.1 200 OK\r\nContent-Length: 9\r\n\r\n{\"a\":1}\nx".to_vec();
    let mut reader = NdjsonReader::new();
    let mut lines: Vec<Vec<u8>> = Vec::new();
    for b in wire {
        if !reader.is_settled() {
            reader = reader.feed(&vec![b]);
            lines.extend(reader.take_lines());
        }
    }
    if !reader.is_settled() {
        reader = reader.end();
        lines.extend(reader.take_lines());
    }
    assert_eq!(lines, vec![b"{\"a\":1}".to_vec(), b"x".to_vec()]);
}

#[test]
fn pooled_connections_are_taken_back() {
    let mut pool = TcpConnectionPool::new();
    let key = connection_key(" Nas ", 18765);
    assert!(pool.take(&key).is_none());
    assert!(pool.put(connection_key("nas", 18765), 7, 2));
    assert!(pool.put(connection_key("other", 1), 8, 2));
    assert!(!pool.put(connection_key("other", 1), 9, 2));
    assert_eq!(pool.take(&key), Some(7));
    assert_eq!(pool.take(&key), None);
    assert_eq!(configure_tcp_connection_pool(&mut pool, 0), vec![8]);
    assert_eq!(pool.take(&connection_key("other", 1)), None);
}
