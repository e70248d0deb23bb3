use vstd::prelude::*;

use crate::errno::PosixError;
use crate::sga::SgArray;

verus! {

/// An IPv4 socket address, as the values the application's `sockaddr_in`
/// carries: address family, port and host address (both in the byte order
/// the application handed in).
#[derive(Clone, Copy, Debug, PartialEq, Eq, Structural)]
pub struct SockAddr {
    pub family: u16,
    pub port: u16,
    pub addr: u32,
}

/// What a completed accept delivers: the engine descriptor of the new
/// connection and the peer's address.
pub struct AcceptResult {
    pub qd: u32,
    pub addr: SockAddr,
}

/// The typed payload of one engine completion.
pub enum QResultValue {
    /// A push was acknowledged; the retained buffer may be released.
    Push,
    /// A pop delivered a received buffer.
    Pop(SgArray),
    /// An accept delivered a new connection.
    Accept(AcceptResult),
}

/// One engine completion: the queue descriptor and token it answers, and
/// its payload (`None` for connect and close acknowledgements).
pub struct QResult {
    pub qd: u32,
    pub qt: u64,
    pub value: Option<QResultValue>,
}

/// The engine's completion opcodes.
#[allow(non_camel_case_types)]
#[derive(Clone, Copy, Debug, PartialEq, Eq, Structural)]
pub enum Opcode {
    INVALID,
    PUSH,
    POP,
    ACCEPT,
    CONNECT,
    CLOSE,
    FAILED,
}

/// Error of reading an opcode from the engine's wire value.
#[derive(Clone, Copy, Debug, PartialEq, Eq, Structural)]
pub enum OpcError {
    ValueOutOfRange(u32),
}

impl Opcode {
    /// The opcode's wire value.
    pub open spec fn spec_code(self) -> u32 {
        match self {
            Opcode::INVALID => 0,
            Opcode::PUSH => 1,
            Opcode::POP => 2,
            Opcode::ACCEPT => 3,
            Opcode::CONNECT => 4,
            Opcode::CLOSE => 5,
            Opcode::FAILED => 6,
        }
    }

    pub fn code(self) -> (r: u32)
        ensures
            r == self.spec_code(),
    {
        match self {
            Opcode::INVALID => 0,
            Opcode::PUSH => 1,
            Opcode::POP => 2,
            Opcode::ACCEPT => 3,
            Opcode::CONNECT => 4,
            Opcode::CLOSE => 5,
            Opcode::FAILED => 6,
        }
    }

    /// Reads an opcode from its wire value; values past the last opcode are
    /// rejected.
    pub fn from_code(value: u32) -> (r: Result<Opcode, OpcError>)
        ensures
            match r {
                Result::Ok(op) => op.spec_code() == value,
                Result::Err(e) => value > 6 && e == OpcError::ValueOutOfRange(value),
            },
    {
        match value {
            0 => Ok(Opcode::INVALID),
            1 => Ok(Opcode::PUSH),
            2 => Ok(Opcode::POP),
            3 => Ok(Opcode::ACCEPT),
            4 => Ok(Opcode::CONNECT),
            5 => Ok(Opcode::CLOSE),
            6 => Ok(Opcode::FAILED),
            _ => Err(OpcError::ValueOutOfRange(value)),
        }
    }
}

impl QResult {
    /// Classifies a raw engine completion record. The shim reads the
    /// matching union member for the opcode and hands it in as `payload`;
    /// this function makes the decisions: push, pop and accept carry their
    /// payload through; connect and close acknowledge with no payload; a
    /// failure maps the engine's return code onto the errno it stands for.
    /// An `INVALID` opcode is a programmer error and inadmissible.
    pub fn from_opcode(
        op: Opcode,
        qd: u32,
        qt: u64,
        ret: i32,
        payload: Option<QResultValue>,
    ) -> (r: Result<QResult, PosixError>)
        requires
            op != Opcode::INVALID,
            op == Opcode::PUSH ==> payload matches Option::Some(QResultValue::Push),
            op == Opcode::POP ==> payload matches Option::Some(QResultValue::Pop(_)),
            op == Opcode::ACCEPT ==> payload matches Option::Some(QResultValue::Accept(_)),
            op == Opcode::CONNECT || op == Opcode::CLOSE || op == Opcode::FAILED ==> payload
                is None,
            op == Opcode::FAILED ==> ret != 0 && PosixError::spec_of_code(ret as int) is Some,
        ensures
            match r {
                Result::Ok(q) => {
                    &&& op != Opcode::FAILED
                    &&& q.qd == qd
                    &&& q.qt == qt
                    &&& q.value == payload
                },
                Result::Err(e) => op == Opcode::FAILED && PosixError::spec_of_code(ret as int)
                    == Option::Some(e),
            },
    {
        match op {
            Opcode::FAILED => {
                match PosixError::from_error_code(ret) {
                    Ok(()) => vstd::pervasive::unreached(),
                    Err(e) => Err(e),
                }
            },
            Opcode::INVALID => vstd::pervasive::unreached(),
            _ => Ok(QResult { qd, qt, value: payload }),
        }
    }
}

} // verus!
