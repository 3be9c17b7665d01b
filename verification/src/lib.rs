//! The verified core of a URL latency/availability probe.
//!
//! The probe issues a number of sequential raw HTTP/1.0 GET requests to a
//! host on port 80 and reports per-request bodies plus summary statistics.
//! This library holds the pure logic of that pipeline: splitting a URL
//! into host and route, parsing the status code out of a raw response,
//! extracting the response body, and aggregating per-request metrics. The
//! surrounding I/O (argument handling, TCP connect, send, read, printing)
//! lives outside the library and hands it plain values.

pub mod request;
pub mod response;
pub mod search;
pub mod stats;
pub mod status;
pub mod url;
