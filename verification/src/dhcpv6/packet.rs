//! The fixed part of a DHCPv6 message.

use vstd::prelude::*;
use vstd::slice::{slice_subrange, slice_to_vec};
use vstd::string::*;

verus! {

/// A message or an option that cannot be read, and why.
#[derive(Clone, Debug)]
pub enum Dhcpv6Error {
    Parse(String),
}

impl View for Dhcpv6Error {
    type V = Seq<char>;

    open spec fn view(&self) -> Seq<char> {
        match *self {
            Dhcpv6Error::Parse(s) => s@,
        }
    }
}

/// The message types that the exchange with a server starts with.
#[derive(Clone, Copy, Debug, PartialEq, Eq, Structural)]
pub enum MessageType {
    Solicit,
    Advertise,
    Request,
    Reply,
}

impl MessageType {
    /// The number of the message type on the wire.
    pub open spec fn spec_code(self) -> u8 {
        match self {
            MessageType::Solicit => 1,
            MessageType::Advertise => 2,
            MessageType::Request => 3,
            MessageType::Reply => 7,
        }
    }

    /// The number of the message type on the wire.
    pub fn code(self) -> (r: u8)
        ensures
            r == self.spec_code(),
    {
        match self {
            MessageType::Solicit => 1,
            MessageType::Advertise => 2,
            MessageType::Request => 3,
            MessageType::Reply => 7,
        }
    }
}

/// A message split into its fixed part and its options.
#[derive(Debug)]
pub struct ParsedReply {
    pub msg_type: u8,
    pub transaction_id: [u8; 3],
    pub options_raw: Vec<u8>,
}

/// Splits a message into its type, its transaction id and its options.
///
/// Fails if and only if the four bytes of the fixed part are not all there.
pub fn parse_reply(data: &[u8]) -> (r: Result<ParsedReply, Dhcpv6Error>)
    ensures
        r is Ok <==> data@.len() >= 4,
        r matches Ok(p) ==> {
            &&& p.msg_type == data@[0]
            &&& p.transaction_id@ == data@.subrange(1, 4)
            &&& p.options_raw@ == data@.subrange(4, data@.len() as int)
        },
        r matches Err(e) ==> e@ == "パケットが短すぎます"@,
{
    if data.len() < 4 {
        return Err(Dhcpv6Error::Parse(String::from_str("パケットが短すぎます")));
    }
    let transaction_id = [data[1], data[2], data[3]];
    proof {
        assert(transaction_id@ =~= data@.subrange(1, 4));
    }
    Ok(
        ParsedReply {
            msg_type: data[0],
            transaction_id,
            options_raw: slice_to_vec(slice_subrange(data, 4, data.len())),
        },
    )
}

/// The numbers of the message types on the wire.
pub proof fn lemma_message_numbers()
    ensures
        MessageType::Solicit.spec_code() == 1,
        MessageType::Advertise.spec_code() == 2,
        MessageType::Request.spec_code() == 3,
        MessageType::Reply.spec_code() == 7,
{
}

} // verus!
