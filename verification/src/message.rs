//! Bridge messages: the unit of communication between the chains.

use vstd::prelude::*;
use vstd::string::StringExecFns;

verus! {

/// What a bridge message asks for.
#[derive(Debug, Clone, Copy, PartialEq, Eq, Structural)]
pub enum OpType {
    Mint,
    Transfer,
    Burn,
}

impl OpType {
    /// The code of an operation on the wire.
    pub open spec fn spec_code(self) -> u8 {
        match self {
            OpType::Mint => 0,
            OpType::Transfer => 1,
            OpType::Burn => 2,
        }
    }

    /// The operation that a code stands for, if it stands for one.
    pub open spec fn spec_from_code(code: u8) -> Option<OpType> {
        if code == 0 {
            Some(OpType::Mint)
        } else if code == 1 {
            Some(OpType::Transfer)
        } else if code == 2 {
            Some(OpType::Burn)
        } else {
            None
        }
    }

    /// The code of an operation on the wire.
    pub fn code(self) -> (code: u8)
        ensures
            code == self.spec_code(),
            OpType::spec_from_code(code) == Some(self),
    {
        match self {
            OpType::Mint => 0,
            OpType::Transfer => 1,
            OpType::Burn => 2,
        }
    }

    /// The operation that a code stands for, if it stands for one.
    pub fn from_code(code: u8) -> (op: Option<OpType>)
        ensures
            op == OpType::spec_from_code(code),
            op matches Some(o) ==> o.spec_code() == code,
    {
        if code == 0 {
            Some(OpType::Mint)
        } else if code == 1 {
            Some(OpType::Transfer)
        } else if code == 2 {
            Some(OpType::Burn)
        } else {
            None
        }
    }
}

/// A bridge message as contracts see it.
pub struct MessageView {
    pub id: Seq<char>,
    pub nonce: u64,
    pub op_type: u8,
    pub src_chain_id: u64,
    pub dest_chain_id: u64,
    pub dest_address: Seq<char>,
    pub contract_address: Seq<char>,
    pub collection_name: Seq<char>,
    pub collection_symbol: Seq<char>,
    pub token_id: u64,
    pub token_metadata: Seq<char>,
}

/// A message that the relay carries from one chain to another.
#[derive(Debug, PartialEq, Eq)]
pub struct Message {
    /// The correlation string that the relay gave the message.
    pub id: String,
    /// The sequence number of the message on its source chain.
    pub nonce: u64,
    /// The code of the operation.
    pub op_type: u8,
    pub src_chain_id: u64,
    pub dest_chain_id: u64,
    pub dest_address: String,
    /// The address of the collection on the foreign chain.
    pub contract_address: String,
    pub collection_name: String,
    pub collection_symbol: String,
    pub token_id: u64,
    /// The metadata of the token, as a JSON object of texts.
    pub token_metadata: String,
}

impl View for Message {
    type V = MessageView;

    open spec fn view(&self) -> MessageView {
        MessageView {
            id: self.id@,
            nonce: self.nonce,
            op_type: self.op_type,
            src_chain_id: self.src_chain_id,
            dest_chain_id: self.dest_chain_id,
            dest_address: self.dest_address@,
            contract_address: self.contract_address@,
            collection_name: self.collection_name@,
            collection_symbol: self.collection_symbol@,
            token_id: self.token_id,
            token_metadata: self.token_metadata@,
        }
    }
}

impl Clone for Message {
    fn clone(&self) -> (m: Message)
        ensures
            m@ == self@,
    {
        Message {
            id: self.id.clone(),
            nonce: self.nonce,
            op_type: self.op_type,
            src_chain_id: self.src_chain_id,
            dest_chain_id: self.dest_chain_id,
            dest_address: self.dest_address.clone(),
            contract_address: self.contract_address.clone(),
            collection_name: self.collection_name.clone(),
            collection_symbol: self.collection_symbol.clone(),
            token_id: self.token_id,
            token_metadata: self.token_metadata.clone(),
        }
    }
}

/// The message that acknowledges `m` to the chain it came from: the same
/// message on its way back.
pub open spec fn acknowledgement_of(m: MessageView) -> MessageView {
    MessageView { src_chain_id: m.dest_chain_id, dest_chain_id: m.src_chain_id, ..m }
}

impl Message {
    /// The message that acknowledges this one to the chain it came from.
    pub fn acknowledgement(&self) -> (ack: Message)
        ensures
            ack@ == acknowledgement_of(self@),
    {
        let mut ack = self.clone();
        ack.src_chain_id = self.dest_chain_id;
        ack.dest_chain_id = self.src_chain_id;
        ack
    }
}

/// The character of a decimal digit.
pub open spec fn digit_char(d: nat) -> char {
    if d == 0 {
        '0'
    } else if d == 1 {
        '1'
    } else if d == 2 {
        '2'
    } else if d == 3 {
        '3'
    } else if d == 4 {
        '4'
    } else if d == 5 {
        '5'
    } else if d == 6 {
        '6'
    } else if d == 7 {
        '7'
    } else if d == 8 {
        '8'
    } else {
        '9'
    }
}

/// The decimal numeral of a number, without leading zeros.
pub open spec fn decimal(n: nat) -> Seq<char>
    decreases n,
{
    if n < 10 {
        seq![digit_char(n)]
    } else {
        decimal(n / 10).push(digit_char(n % 10))
    }
}

/// The text of a decimal digit.
fn digit_text(d: u64) -> (t: &'static str)
    requires
        d < 10,
    ensures
        t@ == seq![digit_char(d as nat)],
{
    proof {
        reveal_strlit("0");
        reveal_strlit("1");
        reveal_strlit("2");
        reveal_strlit("3");
        reveal_strlit("4");
        reveal_strlit("5");
        reveal_strlit("6");
        reveal_strlit("7");
        reveal_strlit("8");
        reveal_strlit("9");
    }
    let t = if d == 0 {
        "0"
    } else if d == 1 {
        "1"
    } else if d == 2 {
        "2"
    } else if d == 3 {
        "3"
    } else if d == 4 {
        "4"
    } else if d == 5 {
        "5"
    } else if d == 6 {
        "6"
    } else if d == 7 {
        "7"
    } else if d == 8 {
        "8"
    } else {
        "9"
    };
    proof {
        assert(t@ =~= seq![digit_char(d as nat)]);
    }
    t
}

/// The decimal numeral of a number, as a text.
pub fn decimal_text(n: u64) -> (s: String)
    ensures
        s@ == decimal(n as nat),
    decreases n,
{
    if n < 10 {
        digit_text(n).to_owned()
    } else {
        let mut s = decimal_text(n / 10);
        s.append(digit_text(n % 10));
        s
    }
}

/// Why a message did not reach the relay.
#[derive(Debug, Clone, Copy, PartialEq, Eq, Structural)]
pub enum TransportError {
    /// The relay answered with a status other than 200.
    Rejected { status: u64 },
}

/// Reads the status with which the relay answered: 200 is the only answer
/// that accepts a message.
pub fn check_response(status: u64) -> (r: Result<(), TransportError>)
    ensures
        r == if status == 200 {
            Ok::<(), TransportError>(())
        } else {
            Err::<(), TransportError>(TransportError::Rejected { status })
        },
{
    if status == 200 {
        Ok(())
    } else {
        Err(TransportError::Rejected { status })
    }
}

/// The response size that is assumed where a request names none: 2 MiB.
pub const DEFAULT_MAX_RESPONSE_BYTES: u64 = 2097152;

/// The cycles that an HTTP request costs on a subnet of 13 nodes.
pub open spec fn required_cycles(max_response_bytes: Option<u64>, encoded_len: nat) -> nat {
    let response = match max_response_bytes {
        Some(n) => n as nat,
        None => 2097152nat,
    };
    ((3000000 + 60000 * 13 + (encoded_len + 12) * 400 + response * 800) * 13) as nat
}

/// The cycles to attach to an HTTP request, from the largest response it
/// allows and the length of its encoded arguments. The length of the method
/// name, 12 bytes, is counted with the arguments.
pub fn http_request_required_cycles(max_response_bytes: Option<u64>, encoded_len: u64) -> (cycles:
    u128)
    ensures
        cycles == required_cycles(max_response_bytes, encoded_len as nat),
{
    let response: u128 = match max_response_bytes {
        Some(n) => n as u128,
        None => DEFAULT_MAX_RESPONSE_BYTES as u128,
    };
    let request: u128 = encoded_len as u128 + 12;
    (3000000 + 60000 * 13 + request * 400 + response * 800) * 13
}

} // verus!
