//! The library's error taxonomy: configuration faults, pool exhaustion,
//! identity conflicts, and missing external dependencies. All of them are
//! fatal to the operation that raised them.

use vstd::prelude::*;
use vstd::string::StringExecFns;

verus! {

/// Why provisioning or apply stopped.
#[derive(Debug, Clone)]
pub enum Error {
    /// Two peer names produced the same identity after slugging; carries the
    /// offending input name.
    DuplicateIdentity(String),
    /// A subnet ran out of usable host addresses; carries the subnet text.
    AddressPoolExhausted(String),
    /// A peer configuration had to be rendered but no external address is
    /// configured.
    MissingExternalAddress,
    /// A required external tool is not available; carries its name.
    MissingDependency(String),
    /// A subnet or address string could not be parsed; carries the text.
    InvalidConfig(String),
    /// Freshly drawn random peer identities kept colliding with existing ones.
    IdentityPoolExhausted,
    /// IPv6 NAT is demanded by the allowed-IP list but no IPv6 subnet is
    /// configured.
    MissingIpv6Subnet,
    /// An external tool ran and failed; carries what it printed.
    CommandFailed(String),
}

impl Error {
    /// The exact report the process prints before it exits: each variant's
    /// fixed wording, with the offending name, subnet, text or tool inside.
    pub fn message(&self) -> (r: String)
        ensures
            r@.len() > 0,
            match *self {
                Error::DuplicateIdentity(name) => r@ == "duplicate peer name after slugging: "@
                    + name@,
                Error::AddressPoolExhausted(subnet) => r@
                    == "no available addresses in subnet "@ + subnet@,
                Error::MissingExternalAddress => r@
                    == "external_address must be set to generate peer configs"@,
                Error::MissingDependency(tool) => r@ == tool@
                    + " binary not found but it is required"@,
                Error::InvalidConfig(text) => r@ == "could not parse: "@ + text@,
                Error::IdentityPoolExhausted => r@
                    == "could not draw a fresh unique peer identity"@,
                Error::MissingIpv6Subnet => r@ == "subnet_v6 required for ipv6 NAT"@,
                Error::CommandFailed(words) => r@ == "command failed: "@ + words@,
            },
    {
        let mut r = String::new();
        match self {
            Error::DuplicateIdentity(name) => {
                r.append("duplicate peer name after slugging: ");
                r.append(name.as_str());
            },
            Error::AddressPoolExhausted(subnet) => {
                r.append("no available addresses in subnet ");
                r.append(subnet.as_str());
            },
            Error::MissingExternalAddress => {
                r.append("external_address must be set to generate peer configs");
            },
            Error::MissingDependency(tool) => {
                r.append(tool.as_str());
                r.append(" binary not found but it is required");
            },
            Error::InvalidConfig(text) => {
                r.append("could not parse: ");
                r.append(text.as_str());
            },
            Error::IdentityPoolExhausted => {
                r.append("could not draw a fresh unique peer identity");
            },
            Error::MissingIpv6Subnet => {
                r.append("subnet_v6 required for ipv6 NAT");
            },
            Error::CommandFailed(words) => {
                r.append("command failed: ");
                r.append(words.as_str());
            },
        }
        proof {
            reveal_strlit("duplicate peer name after slugging: ");
            reveal_strlit("no available addresses in subnet ");
            reveal_strlit("external_address must be set to generate peer configs");
            reveal_strlit(" binary not found but it is required");
            reveal_strlit("could not parse: ");
            reveal_strlit("could not draw a fresh unique peer identity");
            reveal_strlit("subnet_v6 required for ipv6 NAT");
            reveal_strlit("command failed: ");
            assert(Seq::<char>::empty() + "duplicate peer name after slugging: "@
                =~= "duplicate peer name after slugging: "@);
        }
        r
    }
}

} // verus!
