//! What the client knows of the server's entries, and how its operations fail.

use vstd::prelude::*;
use vstd::string::*;

use crate::errno::Errno;
use crate::http::NetworkFault;
use crate::numeral::render_decimal;
use crate::text::{owned, same_text};

verus! {

/// An entry of a directory listing. The times are the bit patterns of the
/// floating-point seconds that the server sends: they are carried, never
/// computed with.
#[derive(Debug)]
pub struct FileEntry {
    pub name: String,
    pub is_dir: bool,
    pub size: u64,
    pub mtime: u64,
    pub ctime: u64,
    pub mode: u32,
}

impl Clone for FileEntry {
    fn clone(&self) -> (r: Self)
        ensures
            r == *self,
    {
        FileEntry {
            name: self.name.clone(),
            is_dir: self.is_dir,
            size: self.size,
            mtime: self.mtime,
            ctime: self.ctime,
            mode: self.mode,
        }
    }
}

/// A copy of a listing.
pub fn copy_entries(entries: &Vec<FileEntry>) -> (r: Vec<FileEntry>)
    ensures
        r@ == entries@,
{
    let mut r: Vec<FileEntry> = Vec::new();
    for i in 0..entries.len()
        invariant
            r@ == entries@.take(i as int),
    {
        r.push(entries[i].clone());
        assert(r@ =~= entries@.take(i as int + 1));
    }
    assert(entries@.take(entries@.len() as int) =~= entries@);
    r
}

/// Why an operation failed.
#[derive(Debug)]
pub struct ApiError {
    pub errno: Errno,
    pub message: String,
}

/// `label: detail`.
pub open spec fn labelled_text(label: Seq<char>, detail: Seq<char>) -> Seq<char> {
    label + ": "@ + detail
}

/// `label: detail`.
pub fn labelled(label: &str, detail: &str) -> (s: String)
    ensures
        s@ == labelled_text(label@, detail@),
        s@ == label@ + ": "@ + detail@,
{
    let mut s = owned(label);
    s.append(": ");
    s.append(detail);
    s
}

/// The condition that an unsuccessful status stands for. A conflict means a
/// directory that still has entries when it is met by a deletion.
pub open spec fn status_errno(status: u16, operation: Seq<char>) -> Errno {
    if status == 400 || status == 415 {
        Errno::Inval
    } else if status == 401 || status == 403 {
        Errno::Acces
    } else if status == 404 {
        Errno::NoEnt
    } else if status == 405 || status == 501 {
        Errno::NoSys
    } else if status == 408 || status == 504 {
        Errno::TimedOut
    } else if status == 409 {
        if operation == "delete"@ {
            Errno::NotEmpty
        } else {
            Errno::Exist
        }
    } else if status == 413 {
        Errno::FBig
    } else if status == 429 || status == 502 || status == 503 {
        Errno::Again
    } else if status == 507 {
        Errno::NoSpc
    } else {
        Errno::Io
    }
}

/// The words for an unsuccessful status.
pub open spec fn status_words(status: u16, operation: Seq<char>) -> Seq<char> {
    if status == 400 {
        "Bad request"@
    } else if status == 401 || status == 403 {
        "Permission denied"@
    } else if status == 404 {
        "File or directory not found"@
    } else if status == 405 {
        "Operation not supported"@
    } else if status == 408 {
        "Request timeout"@
    } else if status == 409 {
        if operation == "delete"@ {
            "Directory not empty"@
        } else {
            "Resource already exists"@
        }
    } else if status == 413 {
        "File too large"@
    } else if status == 415 {
        "Unsupported media type"@
    } else if status == 429 {
        "Too many requests"@
    } else if status == 500 {
        "Internal server error"@
    } else if status == 501 {
        "Not implemented"@
    } else if status == 502 || status == 503 {
        "Service unavailable"@
    } else if status == 504 {
        "Gateway timeout"@
    } else if status == 507 {
        "Insufficient storage"@
    } else {
        "HTTP error "@ + crate::numeral::decimal(status as nat)
    }
}

/// The condition that a missing answer stands for.
pub open spec fn fault_errno(fault: NetworkFault) -> Errno {
    match fault {
        NetworkFault::Timeout => Errno::TimedOut,
        NetworkFault::Connect => Errno::HostUnreach,
        NetworkFault::Other(_) => Errno::Io,
    }
}

/// The words for a missing answer.
pub open spec fn fault_words(fault: NetworkFault) -> Seq<char> {
    match fault {
        NetworkFault::Timeout => "Connection timeout"@,
        NetworkFault::Connect => "Cannot connect to server"@,
        NetworkFault::Other(detail) => "Network error: "@ + detail@,
    }
}

/// `-n` for a negative number, its digits otherwise.
pub open spec fn signed_decimal(n: int) -> Seq<char> {
    if n < 0 {
        "-"@ + crate::numeral::decimal((-n) as nat)
    } else {
        crate::numeral::decimal(n as nat)
    }
}

impl ApiError {
    /// The error is `errno` with the message `operation: words`.
    pub open spec fn is(&self, errno: Errno, operation: Seq<char>, words: Seq<char>) -> bool {
        &&& self.errno == errno
        &&& self.message@ == labelled_text(operation, words)
    }

    /// The error for an unsuccessful status.
    pub fn from_status(status: u16, operation: &str) -> (e: Self)
        ensures
            e.is(
                status_errno(status, operation@),
                operation@,
                status_words(status, operation@),
            ),
            status == 400 ==> e.message@ == operation@ + ": "@ + "Bad request"@,
            status == 401 ==> e.message@ == operation@ + ": "@ + "Permission denied"@,
            status == 403 ==> e.message@ == operation@ + ": "@ + "Permission denied"@,
            status == 404 ==> e.message@ == operation@ + ": "@ + "File or directory not found"@,
            status == 405 ==> e.message@ == operation@ + ": "@ + "Operation not supported"@,
            status == 408 ==> e.message@ == operation@ + ": "@ + "Request timeout"@,
            status == 413 ==> e.message@ == operation@ + ": "@ + "File too large"@,
            status == 415 ==> e.message@ == operation@ + ": "@ + "Unsupported media type"@,
            status == 429 ==> e.message@ == operation@ + ": "@ + "Too many requests"@,
            status == 500 ==> e.message@ == operation@ + ": "@ + "Internal server error"@,
            status == 501 ==> e.message@ == operation@ + ": "@ + "Not implemented"@,
            status == 502 ==> e.message@ == operation@ + ": "@ + "Service unavailable"@,
            status == 503 ==> e.message@ == operation@ + ": "@ + "Service unavailable"@,
            status == 504 ==> e.message@ == operation@ + ": "@ + "Gateway timeout"@,
            status == 507 ==> e.message@ == operation@ + ": "@ + "Insufficient storage"@,
            status == 409 && operation@ == "delete"@ ==> e.errno == Errno::NotEmpty && e.message@
                == operation@ + ": "@ + "Directory not empty"@,
            status == 409 && operation@ != "delete"@ ==> e.errno == Errno::Exist && e.message@
                == operation@ + ": "@ + "Resource already exists"@,
            status == 404 <==> e.errno == Errno::NoEnt,
            status == 401 || status == 403 <==> e.errno == Errno::Acces,
            status == 507 <==> e.errno == Errno::NoSpc,
            status == 413 <==> e.errno == Errno::FBig,
            status == 500 ==> e.errno == Errno::Io,
    {
        let deletes = same_text(operation, "delete");
        let errno = if status == 400 || status == 415 {
            Errno::Inval
        } else if status == 401 || status == 403 {
            Errno::Acces
        } else if status == 404 {
            Errno::NoEnt
        } else if status == 405 || status == 501 {
            Errno::NoSys
        } else if status == 408 || status == 504 {
            Errno::TimedOut
        } else if status == 409 {
            if deletes {
                Errno::NotEmpty
            } else {
                Errno::Exist
            }
        } else if status == 413 {
            Errno::FBig
        } else if status == 429 || status == 502 || status == 503 {
            Errno::Again
        } else if status == 507 {
            Errno::NoSpc
        } else {
            Errno::Io
        };
        let message = if status == 400 {
            labelled(operation, "Bad request")
        } else if status == 401 || status == 403 {
            labelled(operation, "Permission denied")
        } else if status == 404 {
            labelled(operation, "File or directory not found")
        } else if status == 405 {
            labelled(operation, "Operation not supported")
        } else if status == 408 {
            labelled(operation, "Request timeout")
        } else if status == 409 {
            if deletes {
                labelled(operation, "Directory not empty")
            } else {
                labelled(operation, "Resource already exists")
            }
        } else if status == 413 {
            labelled(operation, "File too large")
        } else if status == 415 {
            labelled(operation, "Unsupported media type")
        } else if status == 429 {
            labelled(operation, "Too many requests")
        } else if status == 500 {
            labelled(operation, "Internal server error")
        } else if status == 501 {
            labelled(operation, "Not implemented")
        } else if status == 502 || status == 503 {
            labelled(operation, "Service unavailable")
        } else if status == 504 {
            labelled(operation, "Gateway timeout")
        } else if status == 507 {
            labelled(operation, "Insufficient storage")
        } else {
            let mut words = owned("HTTP error ");
            words.append(render_decimal(status as u64).as_str());
            labelled(operation, words.as_str())
        };
        ApiError { errno, message }
    }

    /// The error for a missing answer.
    pub fn from_network_error(operation: &str, fault: &NetworkFault) -> (e: Self)
        ensures
            e.is(fault_errno(*fault), operation@, fault_words(*fault)),
            fault is Timeout <==> e.errno == Errno::TimedOut,
            fault is Connect <==> e.errno == Errno::HostUnreach,
            fault is Other <==> e.errno == Errno::Io,
    {
        match fault {
            NetworkFault::Timeout => ApiError {
                errno: Errno::TimedOut,
                message: labelled(operation, "Connection timeout"),
            },
            NetworkFault::Connect => ApiError {
                errno: Errno::HostUnreach,
                message: labelled(operation, "Cannot connect to server"),
            },
            NetworkFault::Other(detail) => {
                let mut words = owned("Network error: ");
                words.append(detail.as_str());
                ApiError { errno: Errno::Io, message: labelled(operation, words.as_str()) }
            },
        }
    }

    /// An input/output error with the given detail.
    pub fn io_error(operation: &str, detail: &str) -> (e: Self)
        ensures
            e.is(Errno::Io, operation@, detail@),
            e.errno == Errno::Io,
            e.message@ == operation@ + ": "@ + detail@,
    {
        ApiError { errno: Errno::Io, message: labelled(operation, detail) }
    }

    /// The message followed by a number in the form `message (errno: n)`.
    pub fn with_number(message: &str, n: i32) -> (s: String)
        ensures
            s@ == message@ + " (errno: "@ + signed_decimal(n as int) + ")"@,
    {
        let mut s = owned(message);
        s.append(" (errno: ");
        let ghost head = s@;
        if n < 0 {
            s.append("-");
            s.append(render_decimal((-(n as i64)) as u64).as_str());
        } else {
            s.append(render_decimal(n as u64).as_str());
        }
        assert(s@ =~= head + signed_decimal(n as int));
        s.append(")");
        s
    }

    /// The error in words: its message and the platform's number for its
    /// condition.
    pub fn display(&self) -> (s: String)
        ensures
            exists|n: i32|
                s@ == #[trigger] (self.message@ + " (errno: "@ + signed_decimal(n as int) + ")"@)
                    && (crate::errno::shared_number(self.errno) matches Some(k) ==> n == k),
    {
        let n: i32 = self.errno.code();
        ApiError::with_number(self.message.as_str(), n)
    }
}

/// Which statuses stand for which condition: each condition for just these, and
/// every other status for an input/output error. Only the deletion of a directory
/// meets entries that are still in it.
pub proof fn law_status_errno(status: u16, operation: Seq<char>)
    ensures
        status_errno(status, operation) == Errno::NoEnt <==> status == 404,
        status_errno(status, operation) == Errno::Acces <==> status == 401 || status == 403,
        status_errno(status, operation) == Errno::Inval <==> status == 400 || status == 415,
        status_errno(status, operation) == Errno::NoSys <==> status == 405 || status == 501,
        status_errno(status, operation) == Errno::TimedOut <==> status == 408 || status == 504,
        status_errno(status, operation) == Errno::FBig <==> status == 413,
        status_errno(status, operation) == Errno::NoSpc <==> status == 507,
        status_errno(status, operation) == Errno::Again <==> status == 429 || status == 502
            || status == 503,
        status_errno(status, operation) == Errno::NotEmpty <==> status == 409 && operation
            == "delete"@,
        status_errno(status, operation) == Errno::Exist <==> status == 409 && operation
            != "delete"@,
        status_errno(status, operation) != Errno::ConnRefused,
        status_errno(status, operation) != Errno::HostUnreach,
        status_errno(status, operation) != Errno::NotConn,
{
}

/// A status without words of its own is told by its number, so that two of them
/// are told apart; and a missing answer by what the client library said.
pub proof fn law_other_words(a: u16, b: u16, operation: Seq<char>, fault: NetworkFault)
    requires
        status_errno(a, operation) == Errno::Io,
        status_errno(b, operation) == Errno::Io,
        a != 500,
        b != 500,
    ensures
        status_words(a, operation) == status_words(b, operation) <==> a == b,
        status_words(a, operation) == "HTTP error "@ + crate::numeral::decimal(a as nat),
        fault matches NetworkFault::Other(detail) ==> exists|head: Seq<char>|
            fault_words(fault) == #[trigger] (head + detail@),
        fault_errno(fault) == Errno::TimedOut <==> fault is Timeout,
        fault_errno(fault) == Errno::HostUnreach <==> fault is Connect,
        fault_errno(fault) == Errno::Io <==> fault is Other,
{
    let x = crate::numeral::decimal(a as nat);
    let y = crate::numeral::decimal(b as nat);
    crate::numeral::law_decimal(a as nat, b as nat);
    if let NetworkFault::Other(detail) = fault {
        assert(fault_words(fault) == "Network error: "@ + detail@);
    }
    let head = "HTTP error "@;
    if head + x == head + y {
        assert((head + x).skip(head.len() as int) =~= x);
        assert((head + y).skip(head.len() as int) =~= y);
    }
}

} // verus!
