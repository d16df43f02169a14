use lunos::http::{
    access_log_line, decimal_text, file_head, format_timestamp, not_found_response, ok_head,
    parse_request_target, parse_requested_file, response_status, serve_file_candidates,
    serve_options, ServeOptions,
};

#[test]
fn timestamp_at_epoch() {
    assert_eq!(format_timestamp(0, 0), "1970-01-01 00:00:00.000");
}

#[test]
fn timestamp_fields() {
    let secs = 86400 * 365 + 86400 * 31 + 3600 * 13 + 60 * 5 + 7;
    assert_eq!(format_timestamp(secs, 42), "1971-02-01 13:05:07.042");
    assert_eq!(format_timestamp(364 * 86400 + 86399, 999), "1970-12-31 23:59:59.999");
}

#[test]
fn decimal_digits() {
    assert_eq!(decimal_text(0), "0");
    assert_eq!(decimal_text(1234), "1234");
    assert_eq!(decimal_text(u64::MAX), "18446744073709551615");
}

#[test]
fn request_line_parts() {
    assert_eq!(
        parse_request_target("GET /a.html HTTP/1.1\r\nHost: x\r\n"),
        ("GET".to_string(), "/a.html".to_string())
    );
    assert_eq!(parse_request_target("nospace"), ("UNKNOWN".to_string(), "/".to_string()));
    assert_eq!(parse_request_target("GET /x"), ("UNKNOWN".to_string(), "/".to_string()));
}

#[test]
fn requested_files() {
    assert_eq!(parse_requested_file("GET / HTTP/1.1"), Some("index.html".to_string()));
    assert_eq!(parse_requested_file("GET //css/a.css HTTP/1.1"), Some("css/a.css".to_string()));
    assert_eq!(parse_requested_file("GET /x"), Some("x".to_string()));
    assert_eq!(parse_requested_file("POST /x HTTP/1.1"), None);
}

#[test]
fn response_heads() {
    assert_eq!(
        ok_head("text/plain", 5),
        "HTTP/1.1 200 OK\r\nContent-Type: text/plain\r\nContent-Length: 5\r\n\r\n"
    );
    assert_eq!(
        not_found_response(),
        "HTTP/1.1 404 Not Found\r\nContent-Type: text/plain\r\nContent-Length: 13\r\n\r\n404 Not Found"
    );
}

#[test]
fn file_heads_carry_the_guessed_type() {
    assert_eq!(
        file_head("/srv/index.html", 10),
        "HTTP/1.1 200 OK\r\nContent-Type: text/html\r\nContent-Length: 10\r\n\r\n"
    );
    assert_eq!(
        file_head("/srv/README", 3),
        "HTTP/1.1 200 OK\r\nContent-Type: application/octet-stream\r\nContent-Length: 3\r\n\r\n"
    );
}

#[test]
fn files_tried_for_a_request() {
    assert_eq!(
        serve_file_candidates(&Some("/f.txt".to_string()), &Some("/srv".to_string()), "a.html"),
        vec!["/f.txt", "/srv/a.html"]
    );
    assert_eq!(serve_file_candidates(&None, &None, "a.html"), Vec::<String>::new());
}

#[test]
fn log_lines_and_statuses() {
    assert_eq!(
        access_log_line("T", "/x", "GET", 404),
        "T [Lunos INFO]: /x ..... GET ..... 404"
    );
    assert_eq!(response_status(false, true, true), 400);
    assert_eq!(response_status(true, true, false), 200);
    assert_eq!(response_status(true, false, true), 200);
    assert_eq!(response_status(true, false, false), 404);
}

#[test]
fn serve_option_defaults() {
    assert_eq!(
        serve_options(None, None, None, None, None, None, None),
        ServeOptions {
            response_text: String::new(),
            content_type: "text/plain".to_string(),
            port: 9595,
            static_dir: None,
            file: None,
            log_middleware: false,
        }
    );
    let o = serve_options(
        Some("hi".to_string()),
        None,
        Some("text/html".to_string()),
        Some(8080),
        Some("/srv".to_string()),
        None,
        Some(true),
    );
    assert_eq!(o.content_type, "text/html");
    assert_eq!(o.port, 8080);
    assert!(o.log_middleware);
    let o = serve_options(None, Some("a/b".to_string()), Some("c/d".to_string()), None, None, None, None);
    assert_eq!(o.content_type, "a/b");
}
