use async_with_callback::http::Http;

#[test]
fn the_request_has_the_fixed_format() {
    assert_eq!(
        Http::request("example.test", 0),
        "GET /delay/0/url/http://example.test HTTP/1.1\r\nHost: slowwly.robertomurray.co.uk\r\nConnection: close\r\n\r\n"
    );
}

#[test]
fn the_delay_is_written_in_decimal() {
    assert_eq!(
        Http::request("www.baidu.com", 1000),
        "GET /delay/1000/url/http://www.baidu.com HTTP/1.1\r\nHost: slowwly.robertomurray.co.uk\r\nConnection: close\r\n\r\n"
    );
    assert_eq!(
        Http::request("a", 7),
        "GET /delay/7/url/http://a HTTP/1.1\r\nHost: slowwly.robertomurray.co.uk\r\nConnection: close\r\n\r\n"
    );
    assert_eq!(
        Http::request("a", 10),
        "GET /delay/10/url/http://a HTTP/1.1\r\nHost: slowwly.robertomurray.co.uk\r\nConnection: close\r\n\r\n"
    );
    assert_eq!(
        Http::request("a", 4035),
        "GET /delay/4035/url/http://a HTTP/1.1\r\nHost: slowwly.robertomurray.co.uk\r\nConnection: close\r\n\r\n"
    );
    assert_eq!(
        Http::request("", u32::MAX),
        "GET /delay/4294967295/url/http:// HTTP/1.1\r\nHost: slowwly.robertomurray.co.uk\r\nConnection: close\r\n\r\n"
    );
}

#[test]
fn the_request_agrees_with_std_formatting() {
    for delay in [0u32, 1, 9, 10, 11, 99, 100, 101, 500, 65535, 1_000_000, u32::MAX - 1] {
        let expected = format!(
            "GET /delay/{}/url/http://{} HTTP/1.1\r\nHost: slowwly.robertomurray.co.uk\r\nConnection: close\r\n\r\n",
            delay, "http//www.baidu.com"
        );
        assert_eq!(Http::request("http//www.baidu.com", delay), expected);
    }
}

#[test]
fn the_service_has_a_fixed_address() {
    assert_eq!(Http::address(), "slowwly.robertomurray.co.uk:80");
}
