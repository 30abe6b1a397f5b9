//! Transport kinds and their names.

pub mod guaranteed_udp;

use vstd::prelude::*;
use vstd::string::StringExecFns;

verus! {

/// The three kinds of transport a transfer can run over.
#[derive(PartialEq, Eq, Clone, Copy, Debug, Structural)]
pub enum ProtocolType {
    Tcp,
    Udp,
    GuaranteedUdp,
}

/// The transport kind that `text` selects, if any.
pub open spec fn protocol_of_text(text: Seq<char>) -> Option<ProtocolType> {
    if text == "tcp"@ || text == "Tcp"@ {
        Some(ProtocolType::Tcp)
    } else if text == "udp"@ || text == "Udp"@ {
        Some(ProtocolType::Udp)
    } else if text == "gudp"@ || text == "GuaranteedUdp"@ {
        Some(ProtocolType::GuaranteedUdp)
    } else {
        None
    }
}

fn same_text(a: &str, b: &str) -> (same: bool)
    ensures
        same == (a@ == b@),
{
    let left = a.to_owned();
    let right = b.to_owned();
    left == right
}

impl ProtocolType {
    /// The name of the transport of this kind, for logs.
    pub fn name(&self) -> (name: &'static str)
        ensures
            name@ == match *self {
                ProtocolType::Tcp => "tcp"@,
                ProtocolType::Udp => "udp"@,
                ProtocolType::GuaranteedUdp => "guaranteed_udp"@,
            },
    {
        match self {
            ProtocolType::Tcp => "tcp",
            ProtocolType::Udp => "udp",
            ProtocolType::GuaranteedUdp => "guaranteed_udp",
        }
    }

}

impl std::str::FromStr for ProtocolType {
    type Err = String;

    /// Selects a transport kind by name.
    fn from_str(s: &str) -> (kind: Result<Self, String>)
        ensures
            match protocol_of_text(s@) {
                Some(k) => kind == Ok::<ProtocolType, String>(k),
                None => kind is Err && kind->Err_0@ == "Unknown protocol: "@ + s@,
            },
    {
        if same_text(s, "tcp") || same_text(s, "Tcp") {
            Ok(ProtocolType::Tcp)
        } else if same_text(s, "udp") || same_text(s, "Udp") {
            Ok(ProtocolType::Udp)
        } else if same_text(s, "gudp") || same_text(s, "GuaranteedUdp") {
            Ok(ProtocolType::GuaranteedUdp)
        } else {
            Err("Unknown protocol: ".to_owned().concat(s))
        }
    }
}

} // verus!
