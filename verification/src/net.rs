//! Socket addresses as plain values.

use vstd::prelude::*;
use vstd::string::*;

use crate::text;

verus! {

/// What an IPv6 socket address has besides its IP address and its port.
#[derive(Debug, Clone, Copy)]
pub struct V6Scope {
    pub flowinfo: u32,
    pub scope_id: u32,
}

/// A socket address: the IP address as text, the port, and what only an IPv6 address has.
#[derive(Debug, Clone)]
pub struct SocketAddr {
    pub ip: String,
    pub port: u16,
    pub v6: Option<V6Scope>,
}

pub struct SocketAddrView {
    pub ip: Seq<char>,
    pub port: u16,
    pub v6: Option<V6Scope>,
}

impl View for SocketAddr {
    type V = SocketAddrView;

    open spec fn view(&self) -> SocketAddrView {
        SocketAddrView { ip: self.ip@, port: self.port, v6: self.v6 }
    }
}

impl SocketAddrView {
    /// The IP address as it stands before the port: an IPv6 address in square brackets, with its
    /// scope if it has one.
    pub open spec fn host(self) -> Seq<char> {
        match self.v6 {
            None => self.ip,
            Some(scope) => if scope.scope_id == 0 {
                "["@ + self.ip + "]"@
            } else {
                "["@ + self.ip + "%"@ + text::decimal(scope.scope_id as nat) + "]"@
            },
        }
    }

    /// The address as text.
    pub open spec fn text(self) -> Seq<char> {
        self.host() + ":"@ + text::decimal(self.port as nat)
    }
}

impl SocketAddr {
    /// An IPv4 socket address.
    pub fn v4(ip: &str, port: u16) -> (r: SocketAddr)
        ensures
            r@ == (SocketAddrView { ip: ip@, port, v6: None }),
    {
        SocketAddr { ip: ip.to_owned(), port, v6: None }
    }

    /// An IPv6 socket address.
    pub fn v6(ip: &str, port: u16, flowinfo: u32, scope_id: u32) -> (r: SocketAddr)
        ensures
            r@ == (SocketAddrView { ip: ip@, port, v6: Some(V6Scope { flowinfo, scope_id }) }),
    {
        SocketAddr { ip: ip.to_owned(), port, v6: Some(V6Scope { flowinfo, scope_id }) }
    }

    /// The address as text.
    pub fn to_string(&self) -> (r: String)
        ensures
            r@ == self@.text(),
    {
        let mut r = String::new();
        match self.v6 {
            None => {
                r.append(self.ip.as_str());
            },
            Some(scope) => {
                r.append("[");
                r.append(self.ip.as_str());
                if scope.scope_id != 0 {
                    r.append("%");
                    r.append(text::decimal_text(scope.scope_id as u64).as_str());
                }
                r.append("]");
            },
        }
        assert(r@ =~= self@.host());
        r.append(":");
        r.append(text::decimal_text(self.port as u64).as_str());
        r
    }

    /// Whether two addresses are the same.
    pub fn same(&self, other: &SocketAddr) -> (r: bool)
        ensures
            r == (self@ == other@),
    {
        let scopes = match (self.v6, other.v6) {
            (None, None) => true,
            (Some(a), Some(b)) => a.flowinfo == b.flowinfo && a.scope_id == b.scope_id,
            _ => false,
        };
        scopes && self.port == other.port && text::same_text(self.ip.as_str(), other.ip.as_str())
    }

    /// The same address once more.
    pub fn copy(&self) -> (r: SocketAddr)
        ensures
            r@ == self@,
    {
        SocketAddr { ip: self.ip.clone(), port: self.port, v6: self.v6 }
    }
}

/// An address is its IP address, a colon and its port; the IP address of version 6 stands in square
/// brackets, with its scope, if it has one, behind a percent sign.
pub proof fn law_address_text(a: SocketAddr)
    ensures
        a.v6 is None ==> a@.text() == a.ip@ + ":"@ + text::decimal(a.port as nat),
        a.v6 matches Some(v6) ==> (v6.scope_id == 0 ==> a@.text() == "["@ + a.ip@ + "]"@ + ":"@
            + text::decimal(a.port as nat)),
        a.v6 matches Some(v6) ==> (v6.scope_id > 0 ==> a@.text() == "["@ + a.ip@ + "%"@
            + text::decimal(v6.scope_id as nat) + "]"@ + ":"@ + text::decimal(a.port as nat)),
{
}

/// Two addresses are the same only if nothing tells them apart: the text of the IP address, the
/// port, and for version 6 the flow and the scope.
pub proof fn law_same_address(a: SocketAddr, b: SocketAddr)
    ensures
        a@ == b@ <==> a.ip@ == b.ip@ && a.port == b.port && (a.v6 is Some <==> b.v6 is Some) && (
        a.v6 is Some ==> a.v6->Some_0.flowinfo == b.v6->Some_0.flowinfo && a.v6->Some_0.scope_id
            == b.v6->Some_0.scope_id),
{
}

} // verus!
