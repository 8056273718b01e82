//! The request that the loop's HTTP helper writes to its stream.
use vstd::prelude::*;
use vstd::string::StringExecFns;

verus! {

/// The decimal digit for a number below ten.
pub open spec fn digit(d: int) -> char {
    if d == 0 {
        '0'
    } else if d == 1 {
        '1'
    } else if d == 2 {
        '2'
    } else if d == 3 {
        '3'
    } else if d == 4 {
        '4'
    } else if d == 5 {
        '5'
    } else if d == 6 {
        '6'
    } else if d == 7 {
        '7'
    } else if d == 8 {
        '8'
    } else {
        '9'
    }
}

/// A number written in decimal digits, without leading zeros.
pub open spec fn decimal(n: nat) -> Seq<char>
    decreases n,
{
    if n < 10 {
        seq![digit(n as int)]
    } else {
        decimal(n / 10).push(digit((n % 10) as int))
    }
}

/// The text of the request that asks the delay service to fetch `url` and to
/// answer after `delay_ms` milliseconds.
pub open spec fn request_text(url: Seq<char>, delay_ms: u32) -> Seq<char> {
    "GET /delay/"@ + decimal(delay_ms as nat) + "/url/http://"@ + url
        + " HTTP/1.1\r\nHost: slowwly.robertomurray.co.uk\r\nConnection: close\r\n\r\n"@
}

/// The digit for `d` as a string.
fn digit_str(d: u32) -> (s: &'static str)
    requires
        d < 10,
    ensures
        s@ == seq![digit(d as int)],
{
    proof {
        reveal_strlit("0");
        reveal_strlit("1");
        reveal_strlit("2");
        reveal_strlit("3");
        reveal_strlit("4");
        reveal_strlit("5");
        reveal_strlit("6");
        reveal_strlit("7");
        reveal_strlit("8");
        reveal_strlit("9");
    }
    let s = if d == 0 {
        "0"
    } else if d == 1 {
        "1"
    } else if d == 2 {
        "2"
    } else if d == 3 {
        "3"
    } else if d == 4 {
        "4"
    } else if d == 5 {
        "5"
    } else if d == 6 {
        "6"
    } else if d == 7 {
        "7"
    } else if d == 8 {
        "8"
    } else {
        "9"
    };
    assert(s@ =~= seq![digit(d as int)]);
    s
}

/// Writes `n` in decimal behind what `out` holds.
fn append_decimal(out: &mut String, n: u32)
    ensures
        final(out)@ == old(out)@ + decimal(n as nat),
    decreases n,
{
    if n >= 10 {
        append_decimal(out, n / 10);
    }
    out.append(digit_str(n % 10));
    assert(out@ =~= old(out)@ + decimal(n as nat));
}

/// Requests over HTTP through a service that delays its answer.
pub struct Http;

impl Http {
    /// The address of the delay service.
    pub fn address() -> (a: &'static str)
        ensures
            a@ == "slowwly.robertomurray.co.uk:80"@,
    {
        "slowwly.robertomurray.co.uk:80"
    }

    /// The request to write to the stream: a GET for `url` through the delay
    /// service, to be answered after `delay_ms` milliseconds, with the
    /// connection closed after the answer.
    pub fn request(url: &str, delay_ms: u32) -> (r: String)
        ensures
            r@ == request_text(url@, delay_ms),
    {
        let mut r = String::from_str("GET /delay/");
        append_decimal(&mut r, delay_ms);
        r.append("/url/http://");
        r.append(url);
        r.append(" HTTP/1.1\r\nHost: slowwly.robertomurray.co.uk\r\nConnection: close\r\n\r\n");
        r
    }
}

} // verus!
