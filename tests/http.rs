use flv_server::http::{parse_u32, HttpError, HttpReq, HttpRequestType};

fn param<'a>(req: &'a HttpReq, name: &str) -> Option<&'a str> {
    req.addition_param.iter().find(|p| p.0 == name).map(|p| p.1.as_str())
}

#[test]
fn request_line_and_headers() {
    let data = b"GET /live/a.flv HTTP/1.1\r\nHost: example\r\nAccept:*/*\r\n\r\nignored: yes\r\n";
    let req = HttpReq::parse(data).unwrap();
    assert_eq!(req.req_type, HttpRequestType::GET);
    assert_eq!(req.path, "/live/a.flv");
    assert_eq!(req.major_version, 1);
    assert_eq!(req.minor_version, 1);
    assert_eq!(req.addition_param.len(), 2);
    assert_eq!(param(&req, "Host"), Some(" example"));
    assert_eq!(param(&req, "Accept"), Some("*/*"));
    assert_eq!(param(&req, "ignored"), None);
    assert_eq!(req.ori_data.len(), data.len());
}

#[test]
fn request_post_and_repeated_header() {
    let req = HttpReq::parse(b"  POST\t/x   HTTP/2.0.7\nA:1\nno colon\nA:2").unwrap();
    assert_eq!(req.req_type, HttpRequestType::POST);
    assert_eq!(req.path, "/x");
    assert_eq!((req.major_version, req.minor_version), (2, 0));
    assert_eq!(req.addition_param.len(), 1);
    assert_eq!(param(&req, "A"), Some("2"));
}

#[test]
fn request_errors() {
    assert_eq!(HttpReq::parse(&[0xff]).err(), Some(HttpError::NotUtf8));
    assert_eq!(HttpReq::parse(b"").err(), Some(HttpError::MissingFirstLine));
    assert_eq!(HttpReq::parse(b"  \r\n").err(), Some(HttpError::MissingRequestType));
    assert_eq!(HttpReq::parse(b"PUT / HTTP/1.1").err(), Some(HttpError::UnknownRequestType));
    assert_eq!(HttpReq::parse(b"GET").err(), Some(HttpError::MissingPath));
    assert_eq!(HttpReq::parse(b"GET /").err(), Some(HttpError::MissingVersion));
    assert_eq!(HttpReq::parse(b"GET / HTTP").err(), Some(HttpError::VersionTooShort));
    assert_eq!(HttpReq::parse(b"GET / HTTPS/1").err(), Some(HttpError::InvalidVersion));
    assert_eq!(HttpReq::parse(b"GET / HTTP/1").err(), Some(HttpError::MissingNumber));
    assert_eq!(HttpReq::parse(b"GET / HTTP/x.1").err(), Some(HttpError::InvalidNumber));
    assert_eq!(HttpReq::parse(b"GET / HTTP/1.").err(), Some(HttpError::InvalidNumber));
}

#[test]
fn decimal_u32() {
    assert_eq!(parse_u32(b"0"), Some(0));
    assert_eq!(parse_u32(b"+42"), Some(42));
    assert_eq!(parse_u32(b"4294967295"), Some(u32::MAX));
    assert_eq!(parse_u32(b"4294967296"), None);
    assert_eq!(parse_u32(b"99999999999x"), None);
    assert_eq!(parse_u32(b"+"), None);
    assert_eq!(parse_u32(b"-1"), None);
    assert_eq!(parse_u32(b""), None);
    assert_eq!(parse_u32(b"1 "), None);
}
