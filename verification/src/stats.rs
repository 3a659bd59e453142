//! The kinds of event a load generator counts.

use vstd::prelude::*;

verus! {

/// An event counted by the load generator.
#[derive(Clone, PartialEq, Eq, Hash, Debug)]
pub enum Stat {
    ResponseOk,
    ResponseError,
    ResponseTimeout,
    ResponseOkHit,
    ResponseOkMiss,
    ConnectOk,
    ConnectError,
    ConnectTimeout,
    RequestSent,
    RequestPrepared,
    SocketRead,
    SocketWrite,
    SocketFlush,
    SocketClose,
    SocketCreate,
    Window,
}

/// The name under which an event is reported.
pub open spec fn stat_name(s: Stat) -> Seq<char> {
    match s {
        Stat::Window => "window"@,
        Stat::ResponseOk => "response_ok"@,
        Stat::ResponseError => "response_error"@,
        Stat::ResponseTimeout => "response_timeout"@,
        Stat::ResponseOkHit => "response_ok_hit"@,
        Stat::ResponseOkMiss => "response_ok_miss"@,
        Stat::ConnectOk => "connect_ok"@,
        Stat::ConnectError => "connect_error"@,
        Stat::ConnectTimeout => "connect_timeout"@,
        Stat::RequestSent => "request_sent"@,
        Stat::RequestPrepared => "request_prepared"@,
        Stat::SocketRead => "socket_read"@,
        Stat::SocketWrite => "socket_write"@,
        Stat::SocketFlush => "socket_flush"@,
        Stat::SocketClose => "socket_close"@,
        Stat::SocketCreate => "socket_create"@,
    }
}

impl Stat {
    /// The name under which the event is reported.
    pub fn name(&self) -> (r: &'static str)
        ensures
            r@ == stat_name(*self),
    {
        match self {
            Stat::Window => "window",
            Stat::ResponseOk => "response_ok",
            Stat::ResponseError => "response_error",
            Stat::ResponseTimeout => "response_timeout",
            Stat::ResponseOkHit => "response_ok_hit",
            Stat::ResponseOkMiss => "response_ok_miss",
            Stat::ConnectOk => "connect_ok",
            Stat::ConnectError => "connect_error",
            Stat::ConnectTimeout => "connect_timeout",
            Stat::RequestSent => "request_sent",
            Stat::RequestPrepared => "request_prepared",
            Stat::SocketRead => "socket_read",
            Stat::SocketWrite => "socket_write",
            Stat::SocketFlush => "socket_flush",
            Stat::SocketClose => "socket_close",
            Stat::SocketCreate => "socket_create",
        }
    }
}

} // verus!
