use vstd::prelude::*;

verus! {

/// POSIX errno values used on the ABI boundary. Engine failures and
/// kernel failures both arrive as one of these codes and are propagated
/// unchanged to the caller.
#[allow(non_camel_case_types)]
#[derive(Clone, Copy, Debug, PartialEq, Eq, Structural)]
pub enum PosixError {
    PERM,
    NOENT,
    SRCH,
    INTR,
    IO,
    NXIO,
    TooBIG,
    NOEXEC,
    BADF,
    CHILD,
    NOMEM,
    ACCES,
    FAULT,
    NOTBLK,
    BUSY,
    EXIST,
    XDEV,
    NODEV,
    NOTDIR,
    ISDIR,
    INVAL,
    NFILE,
    MFILE,
    NOTTY,
    TXTBSY,
    FBIG,
    NOSPC,
    SPIPE,
    ROFS,
    MLINK,
    PIPE,
    DOM,
    RANGE,
    NAMETOOLONG,
    NOLCK,
    NOSYS,
    NOTEMPTY,
    LOOP,
    WOULDBLOCK,
    NOMSG,
    IDRM,
    CHRNG,
    L2NSYNC,
    L3HLT,
    L3RST,
    LNRNG,
    UNATCH,
    NOCSI,
    L2HLT,
    BADE,
    BADR,
    XFULL,
    NOANO,
    BADRQC,
    BADSLT,
    DEADLOCK,
    BFONT,
    NOSTR,
    NODATA,
    TIME,
    NOSR,
    NONET,
    NOPKG,
    REMOTE,
    NOLINK,
    ADV,
    SRMNT,
    COMM,
    PROTO,
    MULTIHOP,
    DOTDOT,
    BADMSG,
    OVERFLOW,
    NOTUNIQ,
    BADFD,
    REMCHG,
    LIBACC,
    LIBBAD,
    LIBSCN,
    LIBMAX,
    LIBEXEC,
    ILSEQ,
    RESTART,
    STRPIPE,
    USERS,
    NOTSOCK,
    DESTADDRREQ,
    MSGSIZE,
    PROTOTYPE,
    NOPROTOOPT,
    PROTONOSUPPORT,
    SOCKTNOSUPPORT,
    OPNOTSUPP,
    PFNOSUPPORT,
    AFNOSUPPORT,
    ADDRINUSE,
    ADDRNOTAVAIL,
    NETDOWN,
    NETUNREACH,
    NETRESET,
    CONNABORTED,
    CONNRESET,
    NOBUFS,
    ISCONN,
    NOTCONN,
    SHUTDOWN,
    TOOMANYREFS,
    TIMEDOUT,
    CONNREFUSED,
    HOSTDOWN,
    HOSTUNREACH,
    ALREADY,
    INPROGRESS,
    STALE,
    UCLEAN,
    NOTNAM,
    NAVAIL,
    ISNAM,
    REMOTEIO,
    DQUOT,
    NOMEDIUM,
    MEDIUMTYPE,
    CANCELED,
    NOKEY,
    KEYEXPIRED,
    KEYREVOKED,
    KEYREJECTED,
    OWNERDEAD,
    NOTRECOVERABLE,
    RFKILL,
    HWPOISON,
}

/// Result of an operation that fails with an errno.
pub type PosixResult<T> = Result<T, PosixError>;

impl PosixError {
    /// The numeric errno of this error.
    pub open spec fn spec_code(self) -> int {
        match self {
            PosixError::PERM => 1,
            PosixError::NOENT => 2,
            PosixError::SRCH => 3,
            PosixError::INTR => 4,
            PosixError::IO => 5,
            PosixError::NXIO => 6,
            PosixError::TooBIG => 7,
            PosixError::NOEXEC => 8,
            PosixError::BADF => 9,
            PosixError::CHILD => 10,
            PosixError::NOMEM => 12,
            PosixError::ACCES => 13,
            PosixError::FAULT => 14,
            PosixError::NOTBLK => 15,
            PosixError::BUSY => 16,
            PosixError::EXIST => 17,
            PosixError::XDEV => 18,
            PosixError::NODEV => 19,
            PosixError::NOTDIR => 20,
            PosixError::ISDIR => 21,
            PosixError::INVAL => 22,
            PosixError::NFILE => 23,
            PosixError::MFILE => 24,
            PosixError::NOTTY => 25,
            PosixError::TXTBSY => 26,
            PosixError::FBIG => 27,
            PosixError::NOSPC => 28,
            PosixError::SPIPE => 29,
            PosixError::ROFS => 30,
            PosixError::MLINK => 31,
            PosixError::PIPE => 32,
            PosixError::DOM => 33,
            PosixError::RANGE => 34,
            PosixError::NAMETOOLONG => 36,
            PosixError::NOLCK => 37,
            PosixError::NOSYS => 38,
            PosixError::NOTEMPTY => 39,
            PosixError::LOOP => 40,
            PosixError::WOULDBLOCK => 11,
            PosixError::NOMSG => 42,
            PosixError::IDRM => 43,
            PosixError::CHRNG => 44,
            PosixError::L2NSYNC => 45,
            PosixError::L3HLT => 46,
            PosixError::L3RST => 47,
            PosixError::LNRNG => 48,
            PosixError::UNATCH => 49,
            PosixError::NOCSI => 50,
            PosixError::L2HLT => 51,
            PosixError::BADE => 52,
            PosixError::BADR => 53,
            PosixError::XFULL => 54,
            PosixError::NOANO => 55,
            PosixError::BADRQC => 56,
            PosixError::BADSLT => 57,
            PosixError::DEADLOCK => 35,
            PosixError::BFONT => 59,
            PosixError::NOSTR => 60,
            PosixError::NODATA => 61,
            PosixError::TIME => 62,
            PosixError::NOSR => 63,
            PosixError::NONET => 64,
            PosixError::NOPKG => 65,
            PosixError::REMOTE => 66,
            PosixError::NOLINK => 67,
            PosixError::ADV => 68,
            PosixError::SRMNT => 69,
            PosixError::COMM => 70,
            PosixError::PROTO => 71,
            PosixError::MULTIHOP => 72,
            PosixError::DOTDOT => 73,
            PosixError::BADMSG => 74,
            PosixError::OVERFLOW => 75,
            PosixError::NOTUNIQ => 76,
            PosixError::BADFD => 77,
            PosixError::REMCHG => 78,
            PosixError::LIBACC => 79,
            PosixError::LIBBAD => 80,
            PosixError::LIBSCN => 81,
            PosixError::LIBMAX => 82,
            PosixError::LIBEXEC => 83,
            PosixError::ILSEQ => 84,
            PosixError::RESTART => 85,
            PosixError::STRPIPE => 86,
            PosixError::USERS => 87,
            PosixError::NOTSOCK => 88,
            PosixError::DESTADDRREQ => 89,
            PosixError::MSGSIZE => 90,
            PosixError::PROTOTYPE => 91,
            PosixError::NOPROTOOPT => 92,
            PosixError::PROTONOSUPPORT => 93,
            PosixError::SOCKTNOSUPPORT => 94,
            PosixError::OPNOTSUPP => 95,
            PosixError::PFNOSUPPORT => 96,
            PosixError::AFNOSUPPORT => 97,
            PosixError::ADDRINUSE => 98,
            PosixError::ADDRNOTAVAIL => 99,
            PosixError::NETDOWN => 100,
            PosixError::NETUNREACH => 101,
            PosixError::NETRESET => 102,
            PosixError::CONNABORTED => 103,
            PosixError::CONNRESET => 104,
            PosixError::NOBUFS => 105,
            PosixError::ISCONN => 106,
            PosixError::NOTCONN => 107,
            PosixError::SHUTDOWN => 108,
            PosixError::TOOMANYREFS => 109,
            PosixError::TIMEDOUT => 110,
            PosixError::CONNREFUSED => 111,
            PosixError::HOSTDOWN => 112,
            PosixError::HOSTUNREACH => 113,
            PosixError::ALREADY => 114,
            PosixError::INPROGRESS => 115,
            PosixError::STALE => 116,
            PosixError::UCLEAN => 117,
            PosixError::NOTNAM => 118,
            PosixError::NAVAIL => 119,
            PosixError::ISNAM => 120,
            PosixError::REMOTEIO => 121,
            PosixError::DQUOT => 122,
            PosixError::NOMEDIUM => 123,
            PosixError::MEDIUMTYPE => 124,
            PosixError::CANCELED => 125,
            PosixError::NOKEY => 126,
            PosixError::KEYEXPIRED => 127,
            PosixError::KEYREVOKED => 128,
            PosixError::KEYREJECTED => 129,
            PosixError::OWNERDEAD => 130,
            PosixError::NOTRECOVERABLE => 131,
            PosixError::RFKILL => 132,
            PosixError::HWPOISON => 133,
        }
    }

    /// The error a numeric errno stands for, if any; 0 and unassigned
    /// values have none.
    pub open spec fn spec_of_code(code: int) -> Option<PosixError> {
        if code == 1 {
            Option::Some(PosixError::PERM)
        } else if code == 2 {
            Option::Some(PosixError::NOENT)
        } else if code == 3 {
            Option::Some(PosixError::SRCH)
        } else if code == 4 {
            Option::Some(PosixError::INTR)
        } else if code == 5 {
            Option::Some(PosixError::IO)
        } else if code == 6 {
            Option::Some(PosixError::NXIO)
        } else if code == 7 {
            Option::Some(PosixError::TooBIG)
        } else if code == 8 {
            Option::Some(PosixError::NOEXEC)
        } else if code == 9 {
            Option::Some(PosixError::BADF)
        } else if code == 10 {
            Option::Some(PosixError::CHILD)
        } else if code == 12 {
            Option::Some(PosixError::NOMEM)
        } else if code == 13 {
            Option::Some(PosixError::ACCES)
        } else if code == 14 {
            Option::Some(PosixError::FAULT)
        } else if code == 15 {
            Option::Some(PosixError::NOTBLK)
        } else if code == 16 {
            Option::Some(PosixError::BUSY)
        } else if code == 17 {
            Option::Some(PosixError::EXIST)
        } else if code == 18 {
            Option::Some(PosixError::XDEV)
        } else if code == 19 {
            Option::Some(PosixError::NODEV)
        } else if code == 20 {
            Option::Some(PosixError::NOTDIR)
        } else if code == 21 {
            Option::Some(PosixError::ISDIR)
        } else if code == 22 {
            Option::Some(PosixError::INVAL)
        } else if code == 23 {
            Option::Some(PosixError::NFILE)
        } else if code == 24 {
            Option::Some(PosixError::MFILE)
        } else if code == 25 {
            Option::Some(PosixError::NOTTY)
        } else if code == 26 {
            Option::Some(PosixError::TXTBSY)
        } else if code == 27 {
            Option::Some(PosixError::FBIG)
        } else if code == 28 {
            Option::Some(PosixError::NOSPC)
        } else if code == 29 {
            Option::Some(PosixError::SPIPE)
        } else if code == 30 {
            Option::Some(PosixError::ROFS)
        } else if code == 31 {
            Option::Some(PosixError::MLINK)
        } else if code == 32 {
            Option::Some(PosixError::PIPE)
        } else if code == 33 {
            Option::Some(PosixError::DOM)
        } else if code == 34 {
            Option::Some(PosixError::RANGE)
        } else if code == 36 {
            Option::Some(PosixError::NAMETOOLONG)
        } else if code == 37 {
            Option::Some(PosixError::NOLCK)
        } else if code == 38 {
            Option::Some(PosixError::NOSYS)
        } else if code == 39 {
            Option::Some(PosixError::NOTEMPTY)
        } else if code == 40 {
            Option::Some(PosixError::LOOP)
        } else if code == 11 {
            Option::Some(PosixError::WOULDBLOCK)
        } else if code == 42 {
            Option::Some(PosixError::NOMSG)
        } else if code == 43 {
            Option::Some(PosixError::IDRM)
        } else if code == 44 {
            Option::Some(PosixError::CHRNG)
        } else if code == 45 {
            Option::Some(PosixError::L2NSYNC)
        } else if code == 46 {
            Option::Some(PosixError::L3HLT)
        } else if code == 47 {
            Option::Some(PosixError::L3RST)
        } else if code == 48 {
            Option::Some(PosixError::LNRNG)
        } else if code == 49 {
            Option::Some(PosixError::UNATCH)
        } else if code == 50 {
            Option::Some(PosixError::NOCSI)
        } else if code == 51 {
            Option::Some(PosixError::L2HLT)
        } else if code == 52 {
            Option::Some(PosixError::BADE)
        } else if code == 53 {
            Option::Some(PosixError::BADR)
        } else if code == 54 {
            Option::Some(PosixError::XFULL)
        } else if code == 55 {
            Option::Some(PosixError::NOANO)
        } else if code == 56 {
            Option::Some(PosixError::BADRQC)
        } else if code == 57 {
            Option::Some(PosixError::BADSLT)
        } else if code == 35 {
            Option::Some(PosixError::DEADLOCK)
        } else if code == 59 {
            Option::Some(PosixError::BFONT)
        } else if code == 60 {
            Option::Some(PosixError::NOSTR)
        } else if code == 61 {
            Option::Some(PosixError::NODATA)
        } else if code == 62 {
            Option::Some(PosixError::TIME)
        } else if code == 63 {
            Option::Some(PosixError::NOSR)
        } else if code == 64 {
            Option::Some(PosixError::NONET)
        } else if code == 65 {
            Option::Some(PosixError::NOPKG)
        } else if code == 66 {
            Option::Some(PosixError::REMOTE)
        } else if code == 67 {
            Option::Some(PosixError::NOLINK)
        } else if code == 68 {
            Option::Some(PosixError::ADV)
        } else if code == 69 {
            Option::Some(PosixError::SRMNT)
        } else if code == 70 {
            Option::Some(PosixError::COMM)
        } else if code == 71 {
            Option::Some(PosixError::PROTO)
        } else if code == 72 {
            Option::Some(PosixError::MULTIHOP)
        } else if code == 73 {
            Option::Some(PosixError::DOTDOT)
        } else if code == 74 {
            Option::Some(PosixError::BADMSG)
        } else if code == 75 {
            Option::Some(PosixError::OVERFLOW)
        } else if code == 76 {
            Option::Some(PosixError::NOTUNIQ)
        } else if code == 77 {
            Option::Some(PosixError::BADFD)
        } else if code == 78 {
            Option::Some(PosixError::REMCHG)
        } else if code == 79 {
            Option::Some(PosixError::LIBACC)
        } else if code == 80 {
            Option::Some(PosixError::LIBBAD)
        } else if code == 81 {
            Option::Some(PosixError::LIBSCN)
        } else if code == 82 {
            Option::Some(PosixError::LIBMAX)
        } else if code == 83 {
            Option::Some(PosixError::LIBEXEC)
        } else if code == 84 {
            Option::Some(PosixError::ILSEQ)
        } else if code == 85 {
            Option::Some(PosixError::RESTART)
        } else if code == 86 {
            Option::Some(PosixError::STRPIPE)
        } else if code == 87 {
            Option::Some(PosixError::USERS)
        } else if code == 88 {
            Option::Some(PosixError::NOTSOCK)
        } else if code == 89 {
            Option::Some(PosixError::DESTADDRREQ)
        } else if code == 90 {
            Option::Some(PosixError::MSGSIZE)
        } else if code == 91 {
            Option::Some(PosixError::PROTOTYPE)
        } else if code == 92 {
            Option::Some(PosixError::NOPROTOOPT)
        } else if code == 93 {
            Option::Some(PosixError::PROTONOSUPPORT)
        } else if code == 94 {
            Option::Some(PosixError::SOCKTNOSUPPORT)
        } else if code == 95 {
            Option::Some(PosixError::OPNOTSUPP)
        } else if code == 96 {
            Option::Some(PosixError::PFNOSUPPORT)
        } else if code == 97 {
            Option::Some(PosixError::AFNOSUPPORT)
        } else if code == 98 {
            Option::Some(PosixError::ADDRINUSE)
        } else if code == 99 {
            Option::Some(PosixError::ADDRNOTAVAIL)
        } else if code == 100 {
            Option::Some(PosixError::NETDOWN)
        } else if code == 101 {
            Option::Some(PosixError::NETUNREACH)
        } else if code == 102 {
            Option::Some(PosixError::NETRESET)
        } else if code == 103 {
            Option::Some(PosixError::CONNABORTED)
        } else if code == 104 {
            Option::Some(PosixError::CONNRESET)
        } else if code == 105 {
            Option::Some(PosixError::NOBUFS)
        } else if code == 106 {
            Option::Some(PosixError::ISCONN)
        } else if code == 107 {
            Option::Some(PosixError::NOTCONN)
        } else if code == 108 {
            Option::Some(PosixError::SHUTDOWN)
        } else if code == 109 {
            Option::Some(PosixError::TOOMANYREFS)
        } else if code == 110 {
            Option::Some(PosixError::TIMEDOUT)
        } else if code == 111 {
            Option::Some(PosixError::CONNREFUSED)
        } else if code == 112 {
            Option::Some(PosixError::HOSTDOWN)
        } else if code == 113 {
            Option::Some(PosixError::HOSTUNREACH)
        } else if code == 114 {
            Option::Some(PosixError::ALREADY)
        } else if code == 115 {
            Option::Some(PosixError::INPROGRESS)
        } else if code == 116 {
            Option::Some(PosixError::STALE)
        } else if code == 117 {
            Option::Some(PosixError::UCLEAN)
        } else if code == 118 {
            Option::Some(PosixError::NOTNAM)
        } else if code == 119 {
            Option::Some(PosixError::NAVAIL)
        } else if code == 120 {
            Option::Some(PosixError::ISNAM)
        } else if code == 121 {
            Option::Some(PosixError::REMOTEIO)
        } else if code == 122 {
            Option::Some(PosixError::DQUOT)
        } else if code == 123 {
            Option::Some(PosixError::NOMEDIUM)
        } else if code == 124 {
            Option::Some(PosixError::MEDIUMTYPE)
        } else if code == 125 {
            Option::Some(PosixError::CANCELED)
        } else if code == 126 {
            Option::Some(PosixError::NOKEY)
        } else if code == 127 {
            Option::Some(PosixError::KEYEXPIRED)
        } else if code == 128 {
            Option::Some(PosixError::KEYREVOKED)
        } else if code == 129 {
            Option::Some(PosixError::KEYREJECTED)
        } else if code == 130 {
            Option::Some(PosixError::OWNERDEAD)
        } else if code == 131 {
            Option::Some(PosixError::NOTRECOVERABLE)
        } else if code == 132 {
            Option::Some(PosixError::RFKILL)
        } else if code == 133 {
            Option::Some(PosixError::HWPOISON)
        } else {
            Option::None
        }
    }

    /// The numeric errno of this error, as stored into `errno` by the shim.
    pub fn code(self) -> (r: i32)
        ensures
            r == self.spec_code(),
    {
        match self {
            PosixError::PERM => 1,
            PosixError::NOENT => 2,
            PosixError::SRCH => 3,
            PosixError::INTR => 4,
            PosixError::IO => 5,
            PosixError::NXIO => 6,
            PosixError::TooBIG => 7,
            PosixError::NOEXEC => 8,
            PosixError::BADF => 9,
            PosixError::CHILD => 10,
            PosixError::NOMEM => 12,
            PosixError::ACCES => 13,
            PosixError::FAULT => 14,
            PosixError::NOTBLK => 15,
            PosixError::BUSY => 16,
            PosixError::EXIST => 17,
            PosixError::XDEV => 18,
            PosixError::NODEV => 19,
            PosixError::NOTDIR => 20,
            PosixError::ISDIR => 21,
            PosixError::INVAL => 22,
            PosixError::NFILE => 23,
            PosixError::MFILE => 24,
            PosixError::NOTTY => 25,
            PosixError::TXTBSY => 26,
            PosixError::FBIG => 27,
            PosixError::NOSPC => 28,
            PosixError::SPIPE => 29,
            PosixError::ROFS => 30,
            PosixError::MLINK => 31,
            PosixError::PIPE => 32,
            PosixError::DOM => 33,
            PosixError::RANGE => 34,
            PosixError::NAMETOOLONG => 36,
            PosixError::NOLCK => 37,
            PosixError::NOSYS => 38,
            PosixError::NOTEMPTY => 39,
            PosixError::LOOP => 40,
            PosixError::WOULDBLOCK => 11,
            PosixError::NOMSG => 42,
            PosixError::IDRM => 43,
            PosixError::CHRNG => 44,
            PosixError::L2NSYNC => 45,
            PosixError::L3HLT => 46,
            PosixError::L3RST => 47,
            PosixError::LNRNG => 48,
            PosixError::UNATCH => 49,
            PosixError::NOCSI => 50,
            PosixError::L2HLT => 51,
            PosixError::BADE => 52,
            PosixError::BADR => 53,
            PosixError::XFULL => 54,
            PosixError::NOANO => 55,
            PosixError::BADRQC => 56,
            PosixError::BADSLT => 57,
            PosixError::DEADLOCK => 35,
            PosixError::BFONT => 59,
            PosixError::NOSTR => 60,
            PosixError::NODATA => 61,
            PosixError::TIME => 62,
            PosixError::NOSR => 63,
            PosixError::NONET => 64,
            PosixError::NOPKG => 65,
            PosixError::REMOTE => 66,
            PosixError::NOLINK => 67,
            PosixError::ADV => 68,
            PosixError::SRMNT => 69,
            PosixError::COMM => 70,
            PosixError::PROTO => 71,
            PosixError::MULTIHOP => 72,
            PosixError::DOTDOT => 73,
            PosixError::BADMSG => 74,
            PosixError::OVERFLOW => 75,
            PosixError::NOTUNIQ => 76,
            PosixError::BADFD => 77,
            PosixError::REMCHG => 78,
            PosixError::LIBACC => 79,
            PosixError::LIBBAD => 80,
            PosixError::LIBSCN => 81,
            PosixError::LIBMAX => 82,
            PosixError::LIBEXEC => 83,
            PosixError::ILSEQ => 84,
            PosixError::RESTART => 85,
            PosixError::STRPIPE => 86,
            PosixError::USERS => 87,
            PosixError::NOTSOCK => 88,
            PosixError::DESTADDRREQ => 89,
            PosixError::MSGSIZE => 90,
            PosixError::PROTOTYPE => 91,
            PosixError::NOPROTOOPT => 92,
            PosixError::PROTONOSUPPORT => 93,
            PosixError::SOCKTNOSUPPORT => 94,
            PosixError::OPNOTSUPP => 95,
            PosixError::PFNOSUPPORT => 96,
            PosixError::AFNOSUPPORT => 97,
            PosixError::ADDRINUSE => 98,
            PosixError::ADDRNOTAVAIL => 99,
            PosixError::NETDOWN => 100,
            PosixError::NETUNREACH => 101,
            PosixError::NETRESET => 102,
            PosixError::CONNABORTED => 103,
            PosixError::CONNRESET => 104,
            PosixError::NOBUFS => 105,
            PosixError::ISCONN => 106,
            PosixError::NOTCONN => 107,
            PosixError::SHUTDOWN => 108,
            PosixError::TOOMANYREFS => 109,
            PosixError::TIMEDOUT => 110,
            PosixError::CONNREFUSED => 111,
            PosixError::HOSTDOWN => 112,
            PosixError::HOSTUNREACH => 113,
            PosixError::ALREADY => 114,
            PosixError::INPROGRESS => 115,
            PosixError::STALE => 116,
            PosixError::UCLEAN => 117,
            PosixError::NOTNAM => 118,
            PosixError::NAVAIL => 119,
            PosixError::ISNAM => 120,
            PosixError::REMOTEIO => 121,
            PosixError::DQUOT => 122,
            PosixError::NOMEDIUM => 123,
            PosixError::MEDIUMTYPE => 124,
            PosixError::CANCELED => 125,
            PosixError::NOKEY => 126,
            PosixError::KEYEXPIRED => 127,
            PosixError::KEYREVOKED => 128,
            PosixError::KEYREJECTED => 129,
            PosixError::OWNERDEAD => 130,
            PosixError::NOTRECOVERABLE => 131,
            PosixError::RFKILL => 132,
            PosixError::HWPOISON => 133,
        }
    }

    /// Whether `from_error_code` accepts this code: zero (success) or an
    /// assigned errno value.
    pub fn errno_known(code: i32) -> (r: bool)
        ensures
            r == (code == 0 || PosixError::spec_of_code(code as int) is Some),
    {
        if code == 0 {
            return true;
        }
        match PosixError::try_from_error_code(code) {
            Some(_) => true,
            None => false,
        }
    }

    /// Total form of `from_error_code`: `None` where the code is neither
    /// zero nor an assigned errno value.
    pub fn try_from_error_code(code: i32) -> (r: Option<Result<(), PosixError>>)
        ensures
            match r {
                Option::Some(Result::Ok(())) => code == 0,
                Option::Some(Result::Err(e)) => code != 0 && PosixError::spec_of_code(
                    code as int,
                ) == Option::Some(e),
                Option::None => code != 0 && PosixError::spec_of_code(code as int) is None,
            },
    {
        match code {
            0 => Some(Ok(())),
            1 => Some(Err(PosixError::PERM)),
            2 => Some(Err(PosixError::NOENT)),
            3 => Some(Err(PosixError::SRCH)),
            4 => Some(Err(PosixError::INTR)),
            5 => Some(Err(PosixError::IO)),
            6 => Some(Err(PosixError::NXIO)),
            7 => Some(Err(PosixError::TooBIG)),
            8 => Some(Err(PosixError::NOEXEC)),
            9 => Some(Err(PosixError::BADF)),
            10 => Some(Err(PosixError::CHILD)),
            12 => Some(Err(PosixError::NOMEM)),
            13 => Some(Err(PosixError::ACCES)),
            14 => Some(Err(PosixError::FAULT)),
            15 => Some(Err(PosixError::NOTBLK)),
            16 => Some(Err(PosixError::BUSY)),
            17 => Some(Err(PosixError::EXIST)),
            18 => Some(Err(PosixError::XDEV)),
            19 => Some(Err(PosixError::NODEV)),
            20 => Some(Err(PosixError::NOTDIR)),
            21 => Some(Err(PosixError::ISDIR)),
            22 => Some(Err(PosixError::INVAL)),
            23 => Some(Err(PosixError::NFILE)),
            24 => Some(Err(PosixError::MFILE)),
            25 => Some(Err(PosixError::NOTTY)),
            26 => Some(Err(PosixError::TXTBSY)),
            27 => Some(Err(PosixError::FBIG)),
            28 => Some(Err(PosixError::NOSPC)),
            29 => Some(Err(PosixError::SPIPE)),
            30 => Some(Err(PosixError::ROFS)),
            31 => Some(Err(PosixError::MLINK)),
            32 => Some(Err(PosixError::PIPE)),
            33 => Some(Err(PosixError::DOM)),
            34 => Some(Err(PosixError::RANGE)),
            36 => Some(Err(PosixError::NAMETOOLONG)),
            37 => Some(Err(PosixError::NOLCK)),
            38 => Some(Err(PosixError::NOSYS)),
            39 => Some(Err(PosixError::NOTEMPTY)),
            40 => Some(Err(PosixError::LOOP)),
            11 => Some(Err(PosixError::WOULDBLOCK)),
            42 => Some(Err(PosixError::NOMSG)),
            43 => Some(Err(PosixError::IDRM)),
            44 => Some(Err(PosixError::CHRNG)),
            45 => Some(Err(PosixError::L2NSYNC)),
            46 => Some(Err(PosixError::L3HLT)),
            47 => Some(Err(PosixError::L3RST)),
            48 => Some(Err(PosixError::LNRNG)),
            49 => Some(Err(PosixError::UNATCH)),
            50 => Some(Err(PosixError::NOCSI)),
            51 => Some(Err(PosixError::L2HLT)),
            52 => Some(Err(PosixError::BADE)),
            53 => Some(Err(PosixError::BADR)),
            54 => Some(Err(PosixError::XFULL)),
            55 => Some(Err(PosixError::NOANO)),
            56 => Some(Err(PosixError::BADRQC)),
            57 => Some(Err(PosixError::BADSLT)),
            35 => Some(Err(PosixError::DEADLOCK)),
            59 => Some(Err(PosixError::BFONT)),
            60 => Some(Err(PosixError::NOSTR)),
            61 => Some(Err(PosixError::NODATA)),
            62 => Some(Err(PosixError::TIME)),
            63 => Some(Err(PosixError::NOSR)),
            64 => Some(Err(PosixError::NONET)),
            65 => Some(Err(PosixError::NOPKG)),
            66 => Some(Err(PosixError::REMOTE)),
            67 => Some(Err(PosixError::NOLINK)),
            68 => Some(Err(PosixError::ADV)),
            69 => Some(Err(PosixError::SRMNT)),
            70 => Some(Err(PosixError::COMM)),
            71 => Some(Err(PosixError::PROTO)),
            72 => Some(Err(PosixError::MULTIHOP)),
            73 => Some(Err(PosixError::DOTDOT)),
            74 => Some(Err(PosixError::BADMSG)),
            75 => Some(Err(PosixError::OVERFLOW)),
            76 => Some(Err(PosixError::NOTUNIQ)),
            77 => Some(Err(PosixError::BADFD)),
            78 => Some(Err(PosixError::REMCHG)),
            79 => Some(Err(PosixError::LIBACC)),
            80 => Some(Err(PosixError::LIBBAD)),
            81 => Some(Err(PosixError::LIBSCN)),
            82 => Some(Err(PosixError::LIBMAX)),
            83 => Some(Err(PosixError::LIBEXEC)),
            84 => Some(Err(PosixError::ILSEQ)),
            85 => Some(Err(PosixError::RESTART)),
            86 => Some(Err(PosixError::STRPIPE)),
            87 => Some(Err(PosixError::USERS)),
            88 => Some(Err(PosixError::NOTSOCK)),
            89 => Some(Err(PosixError::DESTADDRREQ)),
            90 => Some(Err(PosixError::MSGSIZE)),
            91 => Some(Err(PosixError::PROTOTYPE)),
            92 => Some(Err(PosixError::NOPROTOOPT)),
            93 => Some(Err(PosixError::PROTONOSUPPORT)),
            94 => Some(Err(PosixError::SOCKTNOSUPPORT)),
            95 => Some(Err(PosixError::OPNOTSUPP)),
            96 => Some(Err(PosixError::PFNOSUPPORT)),
            97 => Some(Err(PosixError::AFNOSUPPORT)),
            98 => Some(Err(PosixError::ADDRINUSE)),
            99 => Some(Err(PosixError::ADDRNOTAVAIL)),
            100 => Some(Err(PosixError::NETDOWN)),
            101 => Some(Err(PosixError::NETUNREACH)),
            102 => Some(Err(PosixError::NETRESET)),
            103 => Some(Err(PosixError::CONNABORTED)),
            104 => Some(Err(PosixError::CONNRESET)),
            105 => Some(Err(PosixError::NOBUFS)),
            106 => Some(Err(PosixError::ISCONN)),
            107 => Some(Err(PosixError::NOTCONN)),
            108 => Some(Err(PosixError::SHUTDOWN)),
            109 => Some(Err(PosixError::TOOMANYREFS)),
            110 => Some(Err(PosixError::TIMEDOUT)),
            111 => Some(Err(PosixError::CONNREFUSED)),
            112 => Some(Err(PosixError::HOSTDOWN)),
            113 => Some(Err(PosixError::HOSTUNREACH)),
            114 => Some(Err(PosixError::ALREADY)),
            115 => Some(Err(PosixError::INPROGRESS)),
            116 => Some(Err(PosixError::STALE)),
            117 => Some(Err(PosixError::UCLEAN)),
            118 => Some(Err(PosixError::NOTNAM)),
            119 => Some(Err(PosixError::NAVAIL)),
            120 => Some(Err(PosixError::ISNAM)),
            121 => Some(Err(PosixError::REMOTEIO)),
            122 => Some(Err(PosixError::DQUOT)),
            123 => Some(Err(PosixError::NOMEDIUM)),
            124 => Some(Err(PosixError::MEDIUMTYPE)),
            125 => Some(Err(PosixError::CANCELED)),
            126 => Some(Err(PosixError::NOKEY)),
            127 => Some(Err(PosixError::KEYEXPIRED)),
            128 => Some(Err(PosixError::KEYREVOKED)),
            129 => Some(Err(PosixError::KEYREJECTED)),
            130 => Some(Err(PosixError::OWNERDEAD)),
            131 => Some(Err(PosixError::NOTRECOVERABLE)),
            132 => Some(Err(PosixError::RFKILL)),
            133 => Some(Err(PosixError::HWPOISON)),
            _ => None,
        }
    }

    /// Maps a return code of the engine or the kernel onto a result:
    /// zero is success, every assigned errno value the matching error.
    pub fn from_error_code(code: i32) -> (r: Result<(), PosixError>)
        requires
            code == 0 || PosixError::spec_of_code(code as int) is Some,
        ensures
            match r {
                Result::Ok(()) => code == 0,
                Result::Err(e) => code != 0 && PosixError::spec_of_code(code as int)
                    == Option::Some(e),
            },
    {
        match PosixError::try_from_error_code(code) {
            Some(r) => r,
            None => vstd::pervasive::unreached(),
        }
    }
}

} // verus!
