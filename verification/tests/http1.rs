use httpcodec::formdata::{Body, FormData};
use httpcodec::header::{Header, HeaderKey, HeaderValue, ParseHttpError};
use httpcodec::message::{
    HttpRequest, HttpRequestBuilder, HttpResponse, HttpResponseBuilder, RequestMethod,
    RequestStartLine, ResponseStartLine,
};

#[test]
fn lib_it_works() {}

#[test]
fn form_data_test_1() {
    let boundary = "delimiter12345";
    let data = "--delimiter12345\r\nContent-Disposition: form-data; name=\"field1\"\r\n\r\nvalue1\r\n--delimiter12345\r\nContent-Disposition: form-data; name=\"field2\"; filename=\"example.txt\"\r\n\r\nvalue2\r\n--delimiter12345--";

    println!("{}", data);
    println!("{}", "++++++++++++++++++++++++++");

    let form = FormData::parse(boundary.to_string(), data.as_bytes().to_vec());
    match form {
        Ok(form) => {
            println!("{}", form.to_string());
            assert_eq!(form.to_string().as_str(), data);
        }
        Err(error) => panic!("{}", error.to_string()),
    }
}

#[test]
fn http_request_test() {
    // serialization
    let request = HttpRequest {
        start_line: RequestStartLine {
            method: RequestMethod::GET,
            path: String::from("/index.html"),
            version: String::from("HTTP/1.1"),
        },
        headers: vec![Header {
            key: HeaderKey::new("Host".to_string()).unwrap(),
            value: HeaderValue::new("example.com".to_string()).unwrap(),
        }],
        body: Body::Data(vec![]),
    };

    let bytes: Vec<u8> = request.encode();
    let expected = "GET /index.html HTTP/1.1\r\nHost: example.com\r\n\r\n";
    assert_eq!(String::from_utf8(bytes).unwrap(), expected);

    // parsing
    let input = b"GET /test.html HTTP/1.1\r\nContent-Type: text/html\r\n\r\nHello World";
    let request = HttpRequest::parse(input).unwrap();

    assert!(matches!(request.start_line.method, RequestMethod::GET));
    assert_eq!(request.start_line.path, "/test.html");
}

#[test]
#[should_panic]
fn invalid_request_test() {
    let input = b"INVALID /test.html HTTP/1.1\r\n\r\n";
    let _ = HttpRequest::parse(input).unwrap();
}

#[test]
fn http_response_test() {
    // serialization
    let response = HttpResponse {
        start_line: ResponseStartLine {
            version: String::from("HTTP/1.1"),
            response_code: 200,
            response_msg: String::from("OK"),
        },
        headers: vec![Header {
            key: HeaderKey::new("Content-Type".to_string()).unwrap(),
            value: HeaderValue::new("text/html".to_string()).unwrap(),
        }],
        body: Body::Data(b"Hello World".to_vec()),
    };

    let bytes: Vec<u8> = response.encode();
    let expected = "HTTP/1.1 200 OK\r\nContent-Type: text/html\r\n\r\nHello World";
    assert_eq!(String::from_utf8(bytes).unwrap(), expected);

    // parsing
    let input = b"HTTP/1.1 404 Not Found\r\nContent-Type: text/html\r\n\r\nPage not found";
    let response = HttpResponse::parse(input).unwrap();

    assert_eq!(response.start_line.version, "HTTP/1.1");
    assert_eq!(response.start_line.response_code, 404);
    assert_eq!(response.start_line.response_msg, "Not Found");
}

#[test]
fn htt_request_builder_test() {
    let mut builder = HttpRequestBuilder::new(RequestMethod::POST, "/submit".to_string()).unwrap();
    builder.add_header(Header {
        key: HeaderKey::new("Content-Type".to_string()).unwrap(),
        value: HeaderValue::new("application/json".to_string()).unwrap(),
    });
    builder.add_body(b"{\"key\":\"value\"}".to_vec());

    let request = builder.clone().build().unwrap();

    assert!(matches!(request.start_line.method, RequestMethod::POST));
    assert_eq!(request.start_line.path, "/submit");
}

#[test]
fn request_parse_body_and_headers() {
    let input = b"GET /test.html HTTP/1.1\r\nContent-Type: text/html\r\n\r\nHello World";
    let request = HttpRequest::parse(input).unwrap();
    assert_eq!(request.headers.len(), 1);
    assert_eq!(request.headers[0].key.to_string(), "Content-Type");
    assert_eq!(request.headers[0].value.0, "text/html");
    match request.body {
        Body::Data(b) => assert_eq!(b, b"Hello World".to_vec()),
        _ => panic!("expected raw body"),
    }
}

#[test]
fn response_builder_roundtrip() {
    let mut builder = HttpResponseBuilder::new(200, "OK".to_string()).unwrap();
    builder.add_header(Header::new("Content-Type".to_string(), "text/plain".to_string()).unwrap());
    builder.add_body(b"hi".to_vec());
    let response = builder.build().unwrap();
    let bytes = response.encode();
    assert_eq!(
        String::from_utf8(bytes).unwrap(),
        "HTTP/1.1 200 OK\r\nContent-Type: text/plain\r\n\r\nhi"
    );
}

#[test]
fn multipart_single_section() {
    // one section whose header map holds Content-Disposition and whose
    // body is exactly the field value
    let input = b"--delimiter12345\r\nContent-Disposition: form-data; name=\"field1\"\r\n\r\nvalue1\r\n--delimiter12345--";
    let form = FormData::parse("delimiter12345".to_string(), input.to_vec()).unwrap();
    assert_eq!(form.sections.len(), 1);
    assert_eq!(form.sections[0].headers.len(), 1);
    assert_eq!(
        form.sections[0].headers[0].key.to_string(),
        "Content-Disposition"
    );
    assert_eq!(form.sections[0].data, b"value1".to_vec());
}

#[test]
fn body_as_formdata() {
    let input = b"--delimiter12345\r\nContent-Disposition: form-data; name=\"field1\"\r\n\r\nvalue1\r\n--delimiter12345--";
    let body = Body::Data(input.to_vec());
    let form = body.as_formdata().unwrap();
    assert_eq!(form.boundary, "delimiter12345");
    assert_eq!(form.sections.len(), 1);

    let empty = Body::Empty;
    assert!(matches!(
        empty.as_formdata(),
        Err(ParseHttpError::ParseFormDataError(_))
    ));
}

#[test]
fn invalid_status_code() {
    let input = b"HTTP/1.1 2x0 OK\r\n\r\n";
    assert!(matches!(
        HttpResponse::parse(input),
        Err(ParseHttpError::ParseError(_))
    ));
}

#[test]
fn header_line_trims_leading_space() {
    let h = Header::parse(b"X-Custom:   padded").unwrap();
    assert_eq!(h.key.to_string(), "X-Custom");
    assert_eq!(h.value.0, "padded");
    assert!(matches!(
        Header::parse(b"no colon here"),
        Err(ParseHttpError::ParseHeaderError(_))
    ));
}

#[test]
fn builder_add_header_replaces_existing_key() {
    let mut builder = HttpRequestBuilder::new(RequestMethod::GET, "/".to_string()).unwrap();
    builder.add_header(Header::new("Content-Type".to_string(), "text/html".to_string()).unwrap());
    builder.add_header(Header::new("Accept".to_string(), "*/*".to_string()).unwrap());
    builder.add_header(Header::new("Content-Type".to_string(), "text/plain".to_string()).unwrap());
    let request = builder.build().unwrap();
    assert_eq!(request.headers.len(), 2);
    assert_eq!(request.headers[0].key.to_string(), "Content-Type");
    assert_eq!(request.headers[0].value.0, "text/plain");
    assert_eq!(request.headers[1].key.to_string(), "Accept");
}

#[test]
fn header_key_classification() {
    let std_key = HeaderKey::new("Content-Type".to_string()).unwrap();
    assert!(matches!(std_key, HeaderKey::StandardHeader(_)));
    let custom_key = HeaderKey::new("X-Something-Else".to_string()).unwrap();
    assert!(matches!(custom_key, HeaderKey::CustomHeader(_)));
    assert_eq!(custom_key.to_string(), "X-Something-Else");
    // a recognized name in another case is kept as a custom spelling
    let lower = HeaderKey::new("content-type".to_string()).unwrap();
    assert!(matches!(lower, HeaderKey::CustomHeader(_)));
}

#[test]
fn request_parse_headers_in_order() {
    let input = b"GET / HTTP/1.1\r\nHost: example\r\nAccept: */*\r\n\r\n";
    let request = HttpRequest::parse(input).unwrap();
    assert_eq!(request.headers.len(), 2);
    assert_eq!(request.headers[0].key.to_string(), "Host");
    assert_eq!(request.headers[1].key.to_string(), "Accept");
    match request.body {
        Body::Data(b) => assert!(b.is_empty()),
        _ => panic!("expected raw body"),
    }
}

#[test]
fn request_parse_rejects_bad_header_line() {
    let input = b"GET / HTTP/1.1\r\nno colon on this line\r\n\r\n";
    assert!(matches!(
        HttpRequest::parse(input),
        Err(ParseHttpError::ParseHeaderError(_))
    ));
    assert!(matches!(
        HttpRequest::parse(b"no blank line anywhere"),
        Err(ParseHttpError::InvalidHttp)
    ));
}
