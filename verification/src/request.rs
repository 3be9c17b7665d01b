//! Building the bytes the probe sends.
//!
//! One probe writes exactly two pieces: the request line
//! `GET {route} HTTP/1.0\r\n` and the header block `Host: {host}\r\n\r\n`
//! (a single Host header, no others). The TCP connection itself goes to
//! `{host}:80`.

use vstd::prelude::*;

verus! {

/// The characters of `GET ` (the method and its trailing space).
pub open spec fn get_prefix() -> Seq<char> {
    seq!['G', 'E', 'T', ' ']
}

/// The characters of ` HTTP/1.0\r\n` (the protocol tail of the request line).
pub open spec fn http_suffix() -> Seq<char> {
    seq![' ', 'H', 'T', 'T', 'P', '/', '1', '.', '0', '\r', '\n']
}

/// The characters of `Host: `.
pub open spec fn host_prefix() -> Seq<char> {
    seq!['H', 'o', 's', 't', ':', ' ']
}

/// The characters of `\r\n\r\n` (end of header, blank line).
pub open spec fn header_end() -> Seq<char> {
    seq!['\r', '\n', '\r', '\n']
}

/// The characters of `:80` (the fixed port).
pub open spec fn port_suffix() -> Seq<char> {
    seq![':', '8', '0']
}

/// The request line sent for a route: `GET {route} HTTP/1.0\r\n`.
pub open spec fn request_line_of(route: Seq<char>) -> Seq<char> {
    get_prefix() + route + http_suffix()
}

/// The header block sent for a host: `Host: {host}\r\n\r\n`.
pub open spec fn host_header_of(host: Seq<char>) -> Seq<char> {
    host_prefix() + host + header_end()
}

/// The address the probe connects to: `{host}:80`.
pub open spec fn connect_address_of(host: Seq<char>) -> Seq<char> {
    host + port_suffix()
}

/// Build the request line for a route.
pub fn request_line(route: &str) -> (r: String)
    ensures
        r@ == request_line_of(route@),
{
    proof {
        reveal_strlit("GET ");
        reveal_strlit(" HTTP/1.0\r\n");
        assert("GET "@ =~= get_prefix());
        assert(" HTTP/1.0\r\n"@ =~= http_suffix());
    }
    let mut r = String::from_str("GET ");
    r.append(route);
    r.append(" HTTP/1.0\r\n");
    r
}

/// Build the header block for a host.
pub fn host_header(host: &str) -> (r: String)
    ensures
        r@ == host_header_of(host@),
{
    proof {
        reveal_strlit("Host: ");
        reveal_strlit("\r\n\r\n");
        assert("Host: "@ =~= host_prefix());
        assert("\r\n\r\n"@ =~= header_end());
    }
    let mut r = String::from_str("Host: ");
    r.append(host);
    r.append("\r\n\r\n");
    r
}

/// Build the `host:port` address for a host, with the fixed port 80.
pub fn connect_address(host: &str) -> (r: String)
    ensures
        r@ == connect_address_of(host@),
{
    proof {
        reveal_strlit(":80");
        assert(":80"@ =~= port_suffix());
    }
    let mut r = String::from_str(host);
    r.append(":80");
    r
}

} // verus!
