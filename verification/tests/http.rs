use transport::http::{
    generic_parse, ContentType, InvalidHeaderFormatError, Method, ParseStartLineError, StartLine,
    StatusCode, StatusLine, Version,
};

#[test]
fn versions() {
    assert_eq!(Version::from_bytes(b"HTTP/1.1").ok(), Some(Version::V1_1));
    assert_eq!(Version::from_bytes(b"HTTP/1").ok(), Some(Version::V1));
    assert_eq!(Version::from_bytes(b"2").ok(), Some(Version::V2));
    assert_eq!(Version::from_bytes(b"HTTP/HTTP/3").ok(), Some(Version::V3));
    assert_eq!(Version::from_bytes(b"HTTP/1.2").err().map(|e| e.0), Some(b"1.2".to_vec()));
    assert_eq!(Version::from_bytes(b"").err().map(|e| e.0), Some(Vec::new()));
    assert_eq!(Version::V1_1.to_bytes(), b"HTTP/1.1".to_vec());
    for v in [Version::V1, Version::V1_1, Version::V2, Version::V3] {
        assert_eq!(Version::from_bytes(&v.to_bytes()).ok(), Some(v));
    }
}

#[test]
fn methods() {
    assert_eq!(Method::from_bytes(b"GET").ok(), Some(Method::GET));
    assert_eq!(Method::from_bytes(b"get").err().map(|e| e.0), Some(b"get".to_vec()));
    assert_eq!(Method::from_bytes(b"POST").err().map(|e| e.0), Some(b"POST".to_vec()));
}

#[test]
fn status_codes() {
    assert_eq!(StatusCode::Okay.code(), 200);
    assert_eq!(StatusCode::MovedPermanently.code(), 301);
    assert_eq!(StatusCode::Forbidden.code(), 403);
    assert_eq!(StatusCode::NotFound.code(), 404);
    assert_eq!(StatusCode::NotImplemented.code(), 501);
    assert_eq!(StatusCode::Okay.message(), "OK");
    assert_eq!(StatusCode::MovedPermanently.message(), "Moved Permanently");
    assert_eq!(StatusCode::Forbidden.message(), "Forbidden");
    assert_eq!(StatusCode::NotFound.message(), "Not Found");
    assert_eq!(StatusCode::NotImplemented.message(), "Not Implemented");
    let line = StatusLine::new(Version::V1_1, StatusCode::NotFound);
    assert_eq!(line.version(), Version::V1_1);
    assert_eq!(line.status_code(), StatusCode::NotFound);
    assert_eq!(ContentType::default(), ContentType::OctetSteam);
}

#[test]
fn start_lines() {
    let line = StartLine::from_bytes(b"GET /index.html HTTP/1.1").ok().unwrap();
    assert_eq!(*line.method(), Method::GET);
    assert_eq!(line.url(), b"/index.html");
    assert_eq!(*line.version(), Version::V1_1);
    let line = StartLine::new(Method::GET, b"/", Version::V2);
    assert_eq!(line.url(), b"/");
    assert_eq!(*line.version(), Version::V2);
    assert!(matches!(
        StartLine::from_bytes(b"GET /"),
        Err(ParseStartLineError::InvalidFormatError(_))
    ));
    assert!(matches!(
        StartLine::from_bytes(b"PUT / HTTP/1.1"),
        Err(ParseStartLineError::ParseMethodError(_))
    ));
    assert!(matches!(
        StartLine::from_bytes(b"GET / HTTP/9"),
        Err(ParseStartLineError::ParseVersionError(_))
    ));
}

#[test]
fn content_types() {
    assert_eq!(ContentType::of_extension(b"txt"), ContentType::Txt);
    assert_eq!(ContentType::of_extension(b"html"), ContentType::Html);
    assert_eq!(ContentType::of_extension(b"css"), ContentType::Css);
    assert_eq!(ContentType::of_extension(b"jpg"), ContentType::Jpg);
    assert_eq!(ContentType::of_extension(b"jpeg"), ContentType::Jpeg);
    assert_eq!(ContentType::of_extension(b"png"), ContentType::Png);
    assert_eq!(ContentType::of_extension(b"pdf"), ContentType::Pdf);
    assert_eq!(ContentType::of_extension(b"bin"), ContentType::OctetSteam);
    assert_eq!(ContentType::of_extension(b""), ContentType::OctetSteam);
    assert_eq!(ContentType::of_extension(b"TXT"), ContentType::OctetSteam);
    assert_eq!(ContentType::Txt.text(), "text/plain; charset=utf-8");
    assert_eq!(ContentType::Jpg.text(), "image/jpeg");
    assert_eq!(ContentType::Jpeg.text(), "image/jpeg");
    assert_eq!(ContentType::OctetSteam.text(), "application/octet-stream");
}

#[test]
fn header_lines() {
    let (name, rest) = generic_parse(b"Host: example.org:80\r\n").ok().unwrap();
    assert_eq!(name, b"Host");
    assert_eq!(rest, b": example.org:80\r\n");
    assert_eq!(generic_parse(b"Host: example.org"), Err(InvalidHeaderFormatError::CrlfMissing));
    assert_eq!(generic_parse(b"Host\r\n"), Err(InvalidHeaderFormatError::ColonMissing));
    assert_eq!(generic_parse(b""), Err(InvalidHeaderFormatError::CrlfMissing));
}
