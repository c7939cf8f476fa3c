//! Socket activation.
use std::str::FromStr;
use vstd::prelude::*;

use crate::error::Error;
use crate::text::str_eq;

verus! {

/// Type of socket.
#[derive(Debug, Clone, Copy, PartialEq, Eq, Structural)]
#[non_exhaustive]
pub enum SocketType {
    /// TCP / Unix stream socket (default).
    Stream,
    /// UDP / Unix datagram socket.
    Datagram,
    /// Sequential packet socket.
    Sequential,
}

/// The lowercase name of a socket type.
pub open spec fn socket_type_name(t: SocketType) -> Seq<char> {
    match t {
        SocketType::Stream => "stream"@,
        SocketType::Datagram => "datagram"@,
        SocketType::Sequential => "sequential"@,
    }
}

impl Default for SocketType {
    fn default() -> (r: Self)
        ensures
            r == SocketType::Stream,
    {
        SocketType::Stream
    }
}

impl SocketType {
    /// The lowercase name of this socket type.
    pub fn to_string(&self) -> (r: String)
        ensures
            r@ == socket_type_name(*self),
    {
        let s = match self {
            SocketType::Stream => "stream",
            SocketType::Datagram => "datagram",
            SocketType::Sequential => "sequential",
        };
        s.to_owned()
    }

    /// The socket type whose name is `s`.
    pub fn from_name(s: &str) -> (r: Result<SocketType, Error>)
        ensures
            match r {
                Ok(x) => socket_type_name(x) == s@,
                Err(e) => (forall|x: SocketType| socket_type_name(x) != s@) && e is ConfigError
                    && e->ConfigError_0@ == "unknown socket type: "@ + s@,
            },
    {
        if str_eq(s, "stream") {
            Ok(SocketType::Stream)
        } else if str_eq(s, "datagram") {
            Ok(SocketType::Datagram)
        } else if str_eq(s, "sequential") {
            Ok(SocketType::Sequential)
        } else {
            let mut m = String::new();
            m.append("unknown socket type: ");
            m.append(s);
            Err(Error::ConfigError(m))
        }
    }
}

impl FromStr for SocketType {
    type Err = Error;

    fn from_str(s: &str) -> (r: Result<SocketType, Error>)
        ensures
            match r {
                Ok(x) => socket_type_name(x) == s@,
                Err(e) => (forall|x: SocketType| socket_type_name(x) != s@) && e is ConfigError
                    && e->ConfigError_0@ == "unknown socket type: "@ + s@,
            },
    {
        SocketType::from_name(s)
    }
}

/// Distinct socket types have distinct names.
pub proof fn socket_type_name_roundtrip(a: SocketType, b: SocketType)
    ensures
        socket_type_name(a) == socket_type_name(b) ==> a == b,
{
    reveal_strlit("stream");
    reveal_strlit("datagram");
    reveal_strlit("sequential");
    if socket_type_name(a) == socket_type_name(b) && a != b {
        assert(socket_type_name(a)[1] != socket_type_name(b)[1]);
    }
}

/// Socket activation specification (maps to systemd `.socket` units /
/// launchd `Sockets`).
#[derive(Debug, Clone)]
pub struct SocketSpec {
    /// Listen address (e.g., `"127.0.0.1:8080"` or `"/run/myservice.sock"`).
    pub listen: String,
    /// Socket type.
    pub socket_type: SocketType,
    /// File descriptor name (`LISTEN_FDNAMES`).
    pub name: Option<String>,
}

impl SocketSpec {
    /// An identical copy.
    pub fn dup(&self) -> (r: SocketSpec)
        ensures
            r == *self,
    {
        SocketSpec {
            listen: self.listen.clone(),
            socket_type: self.socket_type,
            name: match &self.name {
                Some(n) => Some(n.clone()),
                None => None,
            },
        }
    }
}

} // verus!
