//! A plain client of the server: one request for each operation, with the path
//! encoded in the address.

use vstd::prelude::*;
use vstd::string::*;
use vstd::utf8::encode_utf8;

use crate::http::{plain_request, Body, BodyView, Method, NetworkFault, Request};
use crate::remote::Outcome;
use crate::text::{replace_char, replaced};

verus! {

/// An entry of a directory.
#[derive(Debug)]
pub struct DirEntry {
    pub name: String,
    pub is_dir: bool,
    pub size: u64,
}

impl Clone for DirEntry {
    fn clone(&self) -> (r: Self)
        ensures
            r == *self,
    {
        DirEntry { name: self.name.clone(), is_dir: self.is_dir, size: self.size }
    }
}

/// Why an operation failed.
#[derive(Debug)]
pub enum ApiFault {
    /// No answer came, or it could not be read.
    Network(NetworkFault),
    /// The answer tells of a failure.
    Status(u16),
}

/// Where an operation stands: it ended, or this has to be sent.
#[derive(Debug)]
pub enum Call<T> {
    Done(Result<T, ApiFault>),
    Send(Request),
}

/// A byte that stands for itself in an address: a letter or a digit of ASCII, or
/// one of `-`, `.`, `_` and `~`.
pub open spec fn unreserved(b: u8) -> bool {
    ||| 0x30 <= b <= 0x39
    ||| 0x41 <= b <= 0x5a
    ||| 0x61 <= b <= 0x7a
    ||| b == 0x2d
    ||| b == 0x2e
    ||| b == 0x5f
    ||| b == 0x7e
}

/// The upper-case hexadecimal digit for a number below sixteen.
pub open spec fn upper_hex(n: u8) -> char {
    if n < 10 {
        (0x30 + n) as char
    } else {
        (0x37 + n) as char
    }
}

/// The bytes as they are written in an address.
pub open spec fn percent_encoded(bytes: Seq<u8>) -> Seq<char>
    decreases bytes.len(),
{
    if bytes.len() == 0 {
        Seq::empty()
    } else {
        let before = percent_encoded(bytes.drop_last());
        let b = bytes.last();
        if unreserved(b) {
            before.push(b as char)
        } else {
            before + seq!['%', upper_hex(b / 16), upper_hex(b % 16)]
        }
    }
}

/// `urlencoding::encode`: every byte of the text's UTF-8 form stands for itself
/// if it may, and is otherwise written as a percent sign and two upper-case
/// hexadecimal digits.
#[verifier::external_body]
fn encode(text: &str) -> (r: String)
    ensures
        r@ == percent_encoded(encode_utf8(text@)),
{
    urlencoding::encode(text).into_owned()
}

/// The path that is asked for: with forward slashes, and empty where it is no
/// text.
pub open spec fn asked_path(path: Option<&str>) -> Seq<char> {
    match path {
        Some(p) => replaced(p@, '\\', '/'),
        None => Seq::empty(),
    }
}

/// The client of one server.
#[derive(Debug)]
pub struct RemoteApi {
    pub remote_url: String,
}

/// What an answer means whose status does not matter.
pub open spec fn taken<T>(call: Call<T>, answer: Outcome<T>) -> bool {
    match answer {
        Outcome::Failed(fault) => call == Call::<T>::Done(Err(ApiFault::Network(fault))),
        Outcome::Answered { body: Ok(value), .. } => call == Call::<T>::Done(Ok(value)),
        Outcome::Answered { body: Err(fault), .. } => call == Call::<T>::Done(
            Err(ApiFault::Network(fault)),
        ),
    }
}

/// What an answer means of which only the status matters: one that tells of a
/// failure, on the client's side or on the server's, is one.
pub open spec fn checked(call: Call<()>, answer: Outcome<()>) -> bool {
    match answer {
        Outcome::Failed(fault) => call == Call::<()>::Done(Err(ApiFault::Network(fault))),
        Outcome::Answered { status, .. } => if 400 <= status < 600 {
            call == Call::<()>::Done(Err(ApiFault::Status(status)))
        } else {
            call matches Call::Done(Ok(_))
        },
    }
}

/// What an answer means whose status does not matter.
fn take<T>(answer: Outcome<T>) -> (call: Call<T>)
    ensures
        taken(call, answer),
{
    match answer {
        Outcome::Failed(fault) => Call::Done(Err(ApiFault::Network(fault))),
        Outcome::Answered { body: Ok(value), .. } => Call::Done(Ok(value)),
        Outcome::Answered { body: Err(fault), .. } => Call::Done(Err(ApiFault::Network(fault))),
    }
}

/// What an answer means of which only the status matters.
fn check(answer: Outcome<()>) -> (call: Call<()>)
    ensures
        checked(call, answer),
{
    match answer {
        Outcome::Failed(fault) => Call::Done(Err(ApiFault::Network(fault))),
        Outcome::Answered { status, .. } => if 400 <= status && status < 600 {
            Call::Done(Err(ApiFault::Status(status)))
        } else {
            Call::Done(Ok(()))
        },
    }
}

impl RemoteApi {
    /// A client of the server at `remote_url`.
    pub fn new(remote_url: String) -> (api: Self)
        ensures
            api.remote_url@ == remote_url@,
    {
        RemoteApi { remote_url }
    }

    /// The address of `path` below `endpoint`.
    pub open spec fn address(&self, endpoint: Seq<char>, path: Option<&str>) -> Seq<char> {
        self.remote_url@ + endpoint + "/"@ + percent_encoded(encode_utf8(asked_path(path)))
    }

    /// The address of `path` below `endpoint`.
    pub fn build_url(&self, endpoint: &str, path: Option<&str>) -> (url: String)
        ensures
            url@ == self.address(endpoint@, path),
    {
        let asked = match path {
            Some(p) => replace_char(p, '\\', '/'),
            None => String::new(),
        };
        let mut url = self.remote_url.clone();
        url.append(endpoint);
        url.append("/");
        url.append(encode(asked.as_str()).as_str());
        url
    }

    /// A request to the address of `path` below `endpoint`.
    fn request(&self, method: Method, endpoint: &str, path: Option<&str>, body: Body) -> (r:
        Request)
        ensures
            r@ == plain_request(method, self.address(endpoint@, path), body@),
    {
        Request { method, url: self.build_url(endpoint, path), content_range: None, content_type: None, body }
    }

    /// The entries of a directory.
    pub fn list_directory(&self, path: Option<&str>, answer: Option<Outcome<Vec<DirEntry>>>) -> (
    call: Call<Vec<DirEntry>>)
        ensures
            match answer {
                None => call matches Call::Send(q) && q@ == plain_request(
                    Method::Get,
                    self.address("/list"@, path),
                    BodyView::Empty,
                ),
                Some(a) => taken(call, a),
            },
            (call matches Call::Done(Ok(_))) <==> (answer matches Some(Outcome::Answered { body: Ok(_), .. })),
            call matches Call::Done(Ok(got)) ==> (answer matches Some(Outcome::Answered { body: Ok(sent), .. })
                && got@.len() == sent@.len() && forall|i: int|
                0 <= i < sent@.len() ==> #[trigger] got@[i] == sent@[i]),
            call matches Call::Send(q) ==> q.method == Method::Get && q.body is Empty,
            call is Send <==> answer is None,
    {
        match answer {
            None => Call::Send(self.request(Method::Get, "/list", path, Body::Empty)),
            Some(a) => take(a),
        }
    }

    /// The contents of a file.
    pub fn read_file(&self, path: Option<&str>, answer: Option<Outcome<Vec<u8>>>) -> (call: Call<
        Vec<u8>,
    >)
        ensures
            match answer {
                None => call matches Call::Send(q) && q@ == plain_request(
                    Method::Get,
                    self.address("/files"@, path),
                    BodyView::Empty,
                ),
                Some(a) => taken(call, a),
            },
            (call matches Call::Done(Ok(_))) <==> (answer matches Some(Outcome::Answered { body: Ok(_), .. })),
            call matches Call::Done(Ok(got)) ==> (answer matches Some(Outcome::Answered { body: Ok(sent), .. })
                && got@.len() == sent@.len() && forall|i: int|
                0 <= i < sent@.len() ==> #[trigger] got@[i] == sent@[i]),
            call matches Call::Send(q) ==> q.method == Method::Get && q.body is Empty,
            call is Send <==> answer is None,
    {
        match answer {
            None => Call::Send(self.request(Method::Get, "/files", path, Body::Empty)),
            Some(a) => take(a),
        }
    }

    /// Makes `data` the contents of a file.
    pub fn write_file(
        &self,
        path: Option<&str>,
        data: Vec<u8>,
        answer: Option<Outcome<()>>,
    ) -> (call: Call<()>)
        ensures
            match answer {
                None => call matches Call::Send(q) && q@ == plain_request(
                    Method::Put,
                    self.address("/files"@, path),
                    BodyView::Bytes(data@),
                ),
                Some(a) => checked(call, a),
            },
            (call matches Call::Done(Ok(_))) <==> (answer matches Some(Outcome::Answered { status, .. }) && (
            status < 400 || status >= 600)),
            call matches Call::Done(Err(ApiFault::Status(s))) ==> (answer matches Some(
                Outcome::Answered { status, .. },
            ) && s == status),
            call is Send <==> answer is None,
            call matches Call::Send(q) ==> q.method == Method::Put && (q.body matches Body::Bytes(b) && b@
                == data@),
    {
        match answer {
            None => Call::Send(self.request(Method::Put, "/files", path, Body::Bytes(data))),
            Some(a) => check(a),
        }
    }

    /// Makes a directory.
    pub fn create_directory(&self, path: Option<&str>, answer: Option<Outcome<()>>) -> (call: Call<
        (),
    >)
        ensures
            match answer {
                None => call matches Call::Send(q) && q@ == plain_request(
                    Method::Post,
                    self.address("/mkdir"@, path),
                    BodyView::Empty,
                ),
                Some(a) => checked(call, a),
            },
            (call matches Call::Done(Ok(_))) <==> (answer matches Some(Outcome::Answered { status, .. }) && (
            status < 400 || status >= 600)),
            call matches Call::Done(Err(ApiFault::Status(s))) ==> (answer matches Some(
                Outcome::Answered { status, .. },
            ) && s == status),
            call is Send <==> answer is None,
            call matches Call::Send(q) ==> q.method == Method::Post && q.body is Empty,
    {
        match answer {
            None => Call::Send(self.request(Method::Post, "/mkdir", path, Body::Empty)),
            Some(a) => check(a),
        }
    }

    /// Deletes a file or a directory.
    pub fn delete_path(&self, path: Option<&str>, answer: Option<Outcome<()>>) -> (call: Call<()>)
        ensures
            match answer {
                None => call matches Call::Send(q) && q@ == plain_request(
                    Method::Delete,
                    self.address("/files"@, path),
                    BodyView::Empty,
                ),
                Some(a) => checked(call, a),
            },
            (call matches Call::Done(Ok(_))) <==> (answer matches Some(Outcome::Answered { status, .. }) && (
            status < 400 || status >= 600)),
            call matches Call::Done(Err(ApiFault::Status(s))) ==> (answer matches Some(
                Outcome::Answered { status, .. },
            ) && s == status),
            call is Send <==> answer is None,
            call matches Call::Send(q) ==> q.method == Method::Delete && q.body is Empty,
    {
        match answer {
            None => Call::Send(self.request(Method::Delete, "/files", path, Body::Empty)),
            Some(a) => check(a),
        }
    }
}

/// The position of the entry with this name: the first one.
pub open spec fn position_named(entries: Seq<DirEntry>, name: Seq<char>) -> Option<int>
    decreases entries.len(),
{
    if entries.len() == 0 {
        None
    } else {
        match position_named(entries.drop_last(), name) {
            Some(i) => Some(i),
            None => if entries.last().name@ == name {
                Some(entries.len() - 1)
            } else {
                None
            },
        }
    }
}

/// The position of the entry with this name: the first one.
pub fn find_named(entries: &Vec<DirEntry>, name: &str) -> (r: Option<usize>)
    ensures
        match r {
            Some(i) => position_named(entries@, name@) == Some(i as int) && i < entries@.len()
                && entries@[i as int].name@ == name@,
            None => position_named(entries@, name@) is None,
        },
        r matches Some(i) ==> forall|k: int| 0 <= k < i ==> (#[trigger] entries@[k]).name@ != name@,
        r is None ==> forall|k: int| 0 <= k < entries@.len() ==> (#[trigger] entries@[k]).name@ != name@,
{
    let mut found: Option<usize> = None;
    assert(entries@.take(0) =~= Seq::<DirEntry>::empty());
    for i in 0..entries.len()
        invariant
            match found {
                Some(k) => position_named(entries@.take(i as int), name@) == Some(k as int) && k
                    < entries@.len() && entries@[k as int].name@ == name@,
                None => position_named(entries@.take(i as int), name@) is None,
            },
    {
        assert(entries@.take(i as int + 1).drop_last() =~= entries@.take(i as int));
        if found.is_none() && crate::text::same_text(entries[i].name.as_str(), name) {
            found = Some(i);
        }
    }
    assert(entries@.take(entries@.len() as int) =~= entries@);
    proof {
        law_position_named(entries@, name@);
    }
    found
}

/// The position of a name is that of the first entry with it, and there is none
/// only where no entry has it.
pub proof fn law_position_named(entries: Seq<DirEntry>, name: Seq<char>)
    ensures
        match position_named(entries, name) {
            Some(i) => 0 <= i < entries.len() && entries[i].name@ == name && forall|k: int|
                0 <= k < i ==> (#[trigger] entries[k]).name@ != name,
            None => forall|k: int|
                0 <= k < entries.len() ==> (#[trigger] entries[k]).name@ != name,
        },
    decreases entries.len(),
{
    if entries.len() > 0 {
        let head = entries.drop_last();
        law_position_named(head, name);
        match position_named(head, name) {
            Some(i) => {
                assert forall|k: int| 0 <= k < i implies (#[trigger] entries[k]).name@ != name by {
                    assert(head[k] == entries[k]);
                }
            },
            None => {
                assert forall|k: int| 0 <= k < head.len() implies (#[trigger] entries[k]).name@
                    != name by {
                    assert(head[k] == entries[k]);
                }
            },
        }
    }
}

/// An answer whose status does not matter ends the operation well if and only if
/// it could be read, and then with all that it carried.
pub proof fn law_taken<T>(call: Call<T>, answer: Outcome<T>)
    requires
        taken(call, answer),
    ensures
        (call matches Call::Done(Ok(_))) <==> (answer matches Outcome::Answered { body: Ok(_), .. }),
        call matches Call::Done(Ok(got)) ==> (answer matches Outcome::Answered { body: Ok(sent), .. }
            && got == sent),
        !(call is Send),
{
}

/// An answer of which only the status matters ends the operation with a failure if
/// and only if its status is from 400 to 599, and the failure names it.
pub proof fn law_checked(call: Call<()>, answer: Outcome<()>)
    requires
        checked(call, answer),
    ensures
        (call matches Call::Done(Ok(_))) <==> (answer matches Outcome::Answered { status, .. } && !(400
            <= status <= 599)),
        call matches Call::Done(Err(ApiFault::Status(s))) ==> (answer matches Outcome::Answered {
            status,
            ..
        } && s == status && 400 <= s <= 599),
        call matches Call::Done(Err(ApiFault::Network(_))) ==> answer is Failed,
        !(call is Send),
{
}

/// The address of a path is made piece by piece: two parts are written one behind
/// the other, a byte that may stand for itself as itself, and any other as three
/// characters, the first of them a percent sign.
pub proof fn law_percent_encoded(a: Seq<u8>, b: Seq<u8>, byte: u8)
    ensures
        percent_encoded(a + b) == percent_encoded(a) + percent_encoded(b),
        unreserved(byte) ==> percent_encoded(seq![byte]) == seq![byte as char],
        !unreserved(byte) ==> percent_encoded(seq![byte]).len() == 3 && percent_encoded(
            seq![byte],
        )[0] == '%',
        !unreserved(0x25),
        !unreserved(0x2f),
        !unreserved(0x20),
    decreases b.len(),
{
    reveal_with_fuel(percent_encoded, 3);
    assert(seq![byte].drop_last() =~= Seq::<u8>::empty());
    assert(Seq::<char>::empty().push(byte as char) =~= seq![byte as char]);
    if b.len() == 0 {
        assert(a + b =~= a);
        assert(percent_encoded(a) + percent_encoded(b) =~= percent_encoded(a));
    } else {
        law_percent_encoded(a, b.drop_last(), byte);
        assert((a + b).drop_last() =~= a + b.drop_last());
        assert((a + b).last() == b.last());
        assert(percent_encoded(a + b) =~= percent_encoded(a) + percent_encoded(b));
    }
}

/// A path is asked for with forward slashes only, and otherwise as it is.
pub proof fn law_asked_path(p: &str)
    ensures
        asked_path(None).len() == 0,
        asked_path(Some(p)).len() == p@.len(),
        !asked_path(Some(p)).contains('\\'),
        !p@.contains('\\') ==> asked_path(Some(p)) == p@,
{
    crate::text::law_replaced(p@, '\\', '/');
}

} // verus!
