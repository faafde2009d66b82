//! A source of telemetry that speaks a line protocol: each line names a
//! metric and gives it a decimal value, a timestamp and tags. This library
//! holds what such a source decides and computes, each function with its
//! contract: the record and its tags (`metric`), the numbers of a line
//! (`number`), the splitting of a line into words (`text`), the parser
//! (`protocols::graphite`), the bounded set of channels that takes the
//! records (`util`), and the decisions of the loops that accept, read and
//! supervise (`source::graphite`). Sockets and threads are left to the
//! program that uses it.
pub mod metric;
pub mod number;
pub mod protocols;
pub mod source;
pub mod text;
pub mod util;
