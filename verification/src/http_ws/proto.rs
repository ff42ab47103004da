//! Opcodes, close codes and close reasons.
use vstd::prelude::*;
use vstd::std_specs::convert::FromSpecImpl;

verus! {

/// The kind of a frame.
#[derive(Debug, Clone, Copy, PartialEq, Eq, Structural)]
pub enum OpCode {
    /// The frame continues the message of an earlier one.
    Continue,
    /// The payload is text.
    Text,
    /// The payload is binary data.
    Binary,
    /// The sender closes the connection.
    Close,
    /// The sender asks for a sign of life.
    Ping,
    /// The answer to a ping.
    Pong,
    /// Any opcode without a meaning.
    Bad,
}

impl OpCode {
    /// The opcode that the number `byte` stands for.
    pub open spec fn of_byte(byte: u8) -> OpCode {
        if byte == 0 {
            OpCode::Continue
        } else if byte == 1 {
            OpCode::Text
        } else if byte == 2 {
            OpCode::Binary
        } else if byte == 8 {
            OpCode::Close
        } else if byte == 9 {
            OpCode::Ping
        } else if byte == 10 {
            OpCode::Pong
        } else {
            OpCode::Bad
        }
    }

    /// The number that stands for the opcode. A bad opcode goes out as a close.
    pub open spec fn byte(self) -> u8 {
        match self {
            OpCode::Continue => 0,
            OpCode::Text => 1,
            OpCode::Binary => 2,
            OpCode::Close => 8,
            OpCode::Ping => 9,
            OpCode::Pong => 10,
            OpCode::Bad => 8,
        }
    }

    /// Whether the opcode marks a control frame.
    pub open spec fn is_control(self) -> bool {
        self is Close || self is Ping || self is Pong
    }
}

impl From<u8> for OpCode {
    fn from(byte: u8) -> (op: OpCode) {
        match byte {
            0 => OpCode::Continue,
            1 => OpCode::Text,
            2 => OpCode::Binary,
            8 => OpCode::Close,
            9 => OpCode::Ping,
            10 => OpCode::Pong,
            _ => OpCode::Bad,
        }
    }
}

impl FromSpecImpl<u8> for OpCode {
    open spec fn obeys_from_spec() -> bool {
        true
    }

    open spec fn from_spec(byte: u8) -> OpCode {
        OpCode::of_byte(byte)
    }
}

impl From<OpCode> for u8 {
    fn from(op: OpCode) -> (byte: u8) {
        match op {
            OpCode::Continue => 0,
            OpCode::Text => 1,
            OpCode::Binary => 2,
            OpCode::Close => 8,
            OpCode::Ping => 9,
            OpCode::Pong => 10,
            OpCode::Bad => 8,
        }
    }
}

impl FromSpecImpl<OpCode> for u8 {
    open spec fn obeys_from_spec() -> bool {
        true
    }

    open spec fn from_spec(op: OpCode) -> u8 {
        op.byte()
    }
}

/// Every opcode with a meaning is read back from the number written for it, and every number
/// with a meaning is written again for the opcode read from it.
pub proof fn law_opcode_bytes(op: OpCode, byte: u8)
    ensures
        op !is Bad ==> OpCode::of_byte(op.byte()) == op,
        OpCode::of_byte(byte) !is Bad ==> OpCode::of_byte(byte).byte() == byte,
        op.byte() < 16,
{
}

/// Why a connection is closed.
#[derive(Debug, Clone, Copy, PartialEq, Eq, Structural)]
pub enum CloseCode {
    /// The connection has served its purpose.
    Normal,
    /// The endpoint goes away.
    Away,
    /// The peer broke the protocol.
    Protocol,
    /// The peer sent a kind of data that the endpoint cannot take.
    Unsupported,
    /// The connection broke without a close frame.
    Abnormal,
    /// The payload does not fit the kind of the message.
    Invalid,
    /// The message breaks a policy of the endpoint.
    Policy,
    /// The message is too big.
    Size,
    /// The server lacks an extension that the client needs.
    Extension,
    /// The server met an unexpected condition.
    Error,
    /// The server restarts.
    Restart,
    /// The server is overloaded.
    Again,
    /// The TLS handshake failed.
    Tls,
    /// Any other code.
    Other(u16),
}

impl CloseCode {
    /// The close code that the number `code` stands for.
    pub open spec fn of_number(code: u16) -> CloseCode {
        if code == 1000 {
            CloseCode::Normal
        } else if code == 1001 {
            CloseCode::Away
        } else if code == 1002 {
            CloseCode::Protocol
        } else if code == 1003 {
            CloseCode::Unsupported
        } else if code == 1006 {
            CloseCode::Abnormal
        } else if code == 1007 {
            CloseCode::Invalid
        } else if code == 1008 {
            CloseCode::Policy
        } else if code == 1009 {
            CloseCode::Size
        } else if code == 1010 {
            CloseCode::Extension
        } else if code == 1011 {
            CloseCode::Error
        } else if code == 1012 {
            CloseCode::Restart
        } else if code == 1013 {
            CloseCode::Again
        } else if code == 1015 {
            CloseCode::Tls
        } else {
            CloseCode::Other(code)
        }
    }

    /// The number that stands for the close code.
    pub open spec fn number(self) -> u16 {
        match self {
            CloseCode::Normal => 1000,
            CloseCode::Away => 1001,
            CloseCode::Protocol => 1002,
            CloseCode::Unsupported => 1003,
            CloseCode::Abnormal => 1006,
            CloseCode::Invalid => 1007,
            CloseCode::Policy => 1008,
            CloseCode::Size => 1009,
            CloseCode::Extension => 1010,
            CloseCode::Error => 1011,
            CloseCode::Restart => 1012,
            CloseCode::Again => 1013,
            CloseCode::Tls => 1015,
            CloseCode::Other(code) => code,
        }
    }
}

impl From<u16> for CloseCode {
    fn from(code: u16) -> (res: CloseCode) {
        match code {
            1000 => CloseCode::Normal,
            1001 => CloseCode::Away,
            1002 => CloseCode::Protocol,
            1003 => CloseCode::Unsupported,
            1006 => CloseCode::Abnormal,
            1007 => CloseCode::Invalid,
            1008 => CloseCode::Policy,
            1009 => CloseCode::Size,
            1010 => CloseCode::Extension,
            1011 => CloseCode::Error,
            1012 => CloseCode::Restart,
            1013 => CloseCode::Again,
            1015 => CloseCode::Tls,
            _ => CloseCode::Other(code),
        }
    }
}

impl FromSpecImpl<u16> for CloseCode {
    open spec fn obeys_from_spec() -> bool {
        true
    }

    open spec fn from_spec(code: u16) -> CloseCode {
        CloseCode::of_number(code)
    }
}

impl From<CloseCode> for u16 {
    fn from(code: CloseCode) -> (number: u16) {
        match code {
            CloseCode::Normal => 1000,
            CloseCode::Away => 1001,
            CloseCode::Protocol => 1002,
            CloseCode::Unsupported => 1003,
            CloseCode::Abnormal => 1006,
            CloseCode::Invalid => 1007,
            CloseCode::Policy => 1008,
            CloseCode::Size => 1009,
            CloseCode::Extension => 1010,
            CloseCode::Error => 1011,
            CloseCode::Restart => 1012,
            CloseCode::Again => 1013,
            CloseCode::Tls => 1015,
            CloseCode::Other(code) => code,
        }
    }
}

impl FromSpecImpl<CloseCode> for u16 {
    open spec fn obeys_from_spec() -> bool {
        true
    }

    open spec fn from_spec(code: CloseCode) -> u16 {
        code.number()
    }
}

/// A close code is read back from the number written for it, unless it is `Other` with a number
/// that has a code of its own; and a number is always written again for the code read from it.
pub proof fn law_close_code_numbers(code: CloseCode, number: u16)
    ensures
        CloseCode::of_number(code.number()) == code <==> (code matches CloseCode::Other(n)
            ==> CloseCode::of_number(n) is Other),
        CloseCode::of_number(number).number() == number,
{
}

/// What the payload of a close frame says.
#[derive(Debug)]
pub struct CloseReason {
    /// Why the connection is closed.
    pub code: CloseCode,
    /// The same in words.
    pub description: Option<String>,
}

impl From<CloseCode> for CloseReason {
    fn from(code: CloseCode) -> (reason: CloseReason) {
        CloseReason { code, description: None }
    }
}

impl FromSpecImpl<CloseCode> for CloseReason {
    open spec fn obeys_from_spec() -> bool {
        true
    }

    open spec fn from_spec(code: CloseCode) -> CloseReason {
        CloseReason { code, description: None }
    }
}

impl From<(CloseCode, String)> for CloseReason {
    fn from(parts: (CloseCode, String)) -> (reason: CloseReason) {
        CloseReason { code: parts.0, description: Some(parts.1) }
    }
}

impl FromSpecImpl<(CloseCode, String)> for CloseReason {
    open spec fn obeys_from_spec() -> bool {
        true
    }

    open spec fn from_spec(parts: (CloseCode, String)) -> CloseReason {
        CloseReason { code: parts.0, description: Some(parts.1) }
    }
}

impl<'a> From<(CloseCode, &'a str)> for CloseReason {
    fn from(parts: (CloseCode, &'a str)) -> (reason: CloseReason)
        ensures
            reason.code == parts.0,
            reason.description matches Some(text) && text@ == parts.1@,
    {
        CloseReason { code: parts.0, description: Some(parts.1.to_string()) }
    }
}

// The description is a new string, of which only the characters are known: `from` says so itself.
impl<'a> FromSpecImpl<(CloseCode, &'a str)> for CloseReason {
    open spec fn obeys_from_spec() -> bool {
        false
    }

    open spec fn from_spec(parts: (CloseCode, &'a str)) -> CloseReason {
        arbitrary()
    }
}

} // verus!
