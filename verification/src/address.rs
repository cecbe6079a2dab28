use vstd::prelude::*;

use crate::errors::ConfigError;

verus! {

/// What kind of endpoint an `Address` names.
#[derive(Clone, Copy, Debug, PartialEq, Eq, Structural)]
pub enum AddressKind {
    /// A host with a TCP port.
    Tcp,
    /// A path-based socket descriptor; no port.
    UnixLike,
}

/// A validated network endpoint: a host with a port, or a path-based socket.
/// Construction validates, and the value is immutable thereafter.
#[derive(Clone, Debug)]
pub struct Address {
    host_or_path: String,
    port: Option<u16>,
    kind: AddressKind,
}

/// The raw, not yet validated form an `Address` is loaded from.
#[derive(Clone, Debug)]
pub struct RawAddress {
    pub host_or_path: String,
    pub port: Option<u16>,
    pub kind: AddressKind,
}

/// A raw address is well formed when its host or path is non-empty and it
/// carries a port exactly when it is a TCP endpoint.
pub open spec fn raw_address_wf(raw: RawAddress) -> bool {
    &&& raw.host_or_path@.len() > 0
    &&& (raw.kind == AddressKind::Tcp <==> raw.port is Some)
}

impl Address {
    /// The endpoint's host name or socket path.
    pub closed spec fn spec_host_or_path(&self) -> Seq<char> {
        self.host_or_path@
    }

    /// The endpoint's port; present exactly for TCP endpoints.
    pub closed spec fn spec_port(&self) -> Option<u16> {
        self.port
    }

    /// The endpoint's kind.
    pub closed spec fn spec_kind(&self) -> AddressKind {
        self.kind
    }

    /// The construction-time invariant: non-empty host or path, and a port
    /// exactly when the endpoint is TCP.
    pub open spec fn wf(&self) -> bool {
        &&& self.spec_host_or_path().len() > 0
        &&& (self.spec_kind() == AddressKind::Tcp <==> self.spec_port() is Some)
    }

    /// Validates a raw address; fails fast with `InvalidAddress` on malformed
    /// input, and succeeds exactly on well-formed raw addresses.
    pub fn from_raw(raw: &RawAddress) -> (r: Result<Address, ConfigError>)
        ensures
            r is Ok <==> raw_address_wf(*raw),
            r matches Ok(a) ==> a.wf() && a.spec_host_or_path() == raw.host_or_path@
                && a.spec_port() == raw.port && a.spec_kind() == raw.kind,
            r matches Err(e) ==> e == ConfigError::InvalidAddress,
    {
        let host_ok = !raw.host_or_path.as_str().is_empty();
        let port_ok = match (raw.kind, &raw.port) {
            (AddressKind::Tcp, Some(_)) => true,
            (AddressKind::UnixLike, None) => true,
            _ => false,
        };
        if host_ok && port_ok {
            Ok(Address {
                host_or_path: raw.host_or_path.clone(),
                port: raw.port,
                kind: raw.kind,
            })
        } else {
            Err(ConfigError::InvalidAddress)
        }
    }

    /// A validated TCP endpoint; rejects an empty host.
    pub fn tcp(host: String, port: u16) -> (r: Result<Address, ConfigError>)
        ensures
            r is Ok <==> host@.len() > 0,
            r matches Ok(a) ==> a.wf() && a.spec_host_or_path() == host@
                && a.spec_port() == Some(port) && a.spec_kind() == AddressKind::Tcp,
            r matches Err(e) ==> e == ConfigError::InvalidAddress,
    {
        if !host.as_str().is_empty() {
            Ok(Address { host_or_path: host, port: Some(port), kind: AddressKind::Tcp })
        } else {
            Err(ConfigError::InvalidAddress)
        }
    }

    /// A validated path-based endpoint; rejects an empty path.
    pub fn unix_like(path: String) -> (r: Result<Address, ConfigError>)
        ensures
            r is Ok <==> path@.len() > 0,
            r matches Ok(a) ==> a.wf() && a.spec_host_or_path() == path@
                && a.spec_port() is None && a.spec_kind() == AddressKind::UnixLike,
            r matches Err(e) ==> e == ConfigError::InvalidAddress,
    {
        if !path.as_str().is_empty() {
            Ok(Address { host_or_path: path, port: None, kind: AddressKind::UnixLike })
        } else {
            Err(ConfigError::InvalidAddress)
        }
    }

    /// The host name or socket path.
    pub fn host_or_path(&self) -> (r: &String)
        ensures
            r@ == self.spec_host_or_path(),
    {
        &self.host_or_path
    }

    /// The port, present exactly for TCP endpoints.
    pub fn port(&self) -> (r: Option<u16>)
        ensures
            r == self.spec_port(),
    {
        self.port
    }

    /// The endpoint kind.
    pub fn kind(&self) -> (r: AddressKind)
        ensures
            r == self.spec_kind(),
    {
        self.kind
    }
}

} // verus!
