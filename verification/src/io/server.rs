//! The decisions of the table service.
use crate::jobservice::server::{RpcStatus, StatusCode};
use crate::named::texts;
use crate::shared::{new_queries, queries_in, query_get, query_insert};
use dashmap::DashMap;
use vstd::prelude::*;
use vstd::string::*;

verus! {

/// `uuid::Uuid::new_v4` and its bytes: a random handle of sixteen bytes.
#[verifier::external_body]
fn random_handle() -> (r: Vec<u8>)
    ensures
        r@.len() == 16,
{
    uuid::Uuid::new_v4().as_bytes().to_vec()
}

/// Whether a character is white space.
pub open spec fn is_white_space(c: char) -> bool {
    let code = c as u32;
    ||| 0x9 <= code <= 0xd
    ||| code == 0x20
    ||| code == 0x85
    ||| code == 0xa0
    ||| code == 0x1680
    ||| 0x2000 <= code <= 0x200a
    ||| code == 0x2028
    ||| code == 0x2029
    ||| code == 0x202f
    ||| code == 0x205f
    ||| code == 0x3000
}

/// Whether a character is white space.
pub fn white_space(c: char) -> (r: bool)
    ensures
        r == is_white_space(c),
{
    let code: u32 = c as u32;
    (0x9 <= code && code <= 0xd) || code == 0x20 || code == 0x85 || code == 0xa0 || code == 0x1680
        || (0x2000 <= code && code <= 0x200a) || code == 0x2028 || code == 0x2029 || code == 0x202f
        || code == 0x205f || code == 0x3000
}

/// Whether `t` is a text without the white space around it.
pub open spec fn is_trimmed(s: Seq<char>, t: Seq<char>) -> bool {
    exists|a: int, b: int| #[trigger] is_trim_at(s, t, a, b)
}

/// Whether `t` stands in a text between two places, with nothing but white space
/// around it and none at its ends.
pub open spec fn is_trim_at(s: Seq<char>, t: Seq<char>, a: int, b: int) -> bool {
    &&& 0 <= a <= b <= s.len()
    &&& t == s.subrange(a, b)
    &&& forall|i: int| 0 <= i < a ==> is_white_space(#[trigger] s[i])
    &&& forall|i: int| b <= i < s.len() ==> is_white_space(#[trigger] s[i])
    &&& t.len() > 0 ==> !is_white_space(t[0]) && !is_white_space(t.last())
}

/// The text without the white space around it.
pub fn trim(s: &str) -> (r: String)
    ensures
        is_trimmed(s@, r@),
{
    let n: usize = s.unicode_len();
    let mut a: usize = 0;
    while a < n && white_space(s.get_char(a))
        invariant
            n == s@.len(),
            a <= n,
            forall|i: int| 0 <= i < a ==> is_white_space(#[trigger] s@[i]),
        decreases n - a,
    {
        a = a + 1;
    }
    let mut b: usize = n;
    while b > a && white_space(s.get_char(b - 1))
        invariant
            n == s@.len(),
            a <= b <= n,
            forall|i: int| b <= i < n ==> is_white_space(#[trigger] s@[i]),
        decreases b,
    {
        b = b - 1;
    }
    let t = s.substring_char(a, b);
    assert(is_trim_at(s@, t@, a as int, b as int));
    t.to_string()
}

/// Whether `t` is what stands behind the last dot of a text.
pub open spec fn is_last_segment(s: Seq<char>, t: Seq<char>) -> bool {
    exists|a: int| #[trigger] is_segment_at(s, t, a)
}

/// Whether `t` is the rest of a text from a place, which starts the text or
/// follows a dot, and holds no dot.
pub open spec fn is_segment_at(s: Seq<char>, t: Seq<char>, a: int) -> bool {
    &&& 0 <= a <= s.len()
    &&& t == s.subrange(a, s.len() as int)
    &&& a > 0 ==> s[a - 1] == '.'
    &&& forall|i: int| a <= i < s.len() ==> #[trigger] s[i] != '.'
}

/// What stands behind the last dot of a text.
pub fn last_segment(s: &str) -> (r: String)
    ensures
        is_last_segment(s@, r@),
{
    let n: usize = s.unicode_len();
    let mut a: usize = n;
    while a > 0 && s.get_char(a - 1) != '.'
        invariant
            n == s@.len(),
            a <= n,
            forall|i: int| a <= i < n ==> #[trigger] s@[i] != '.',
        decreases a,
    {
        a = a - 1;
    }
    let t = s.substring_char(a, n);
    assert(is_segment_at(s@, t@, a as int));
    t.to_string()
}

/// Whether `name` is the table that a dotted reference names: its last part,
/// without the white space around it.
pub open spec fn is_table_name(reference: Seq<char>, name: Seq<char>) -> bool {
    exists|whole: Seq<char>, part: Seq<char>|
        #[trigger] is_trimmed(reference, whole) && #[trigger] is_last_segment(whole, part)
            && is_trimmed(part, name)
}

/// The table that a dotted reference names.
pub fn parse_table_name(reference: &str) -> (r: Result<String, RpcStatus>)
    ensures
        match r {
            Ok(name) => is_table_name(reference@, name@) && name@.len() > 0,
            Err(e) => {
                &&& is_table_name(reference@, Seq::empty())
                &&& e.code == StatusCode::InvalidArgument
                &&& e.message@
                    == "Cannot derive a destination table name from the update statement"@
            },
        },
{
    let whole = trim(reference);
    let part = last_segment(whole.as_str());
    let name = trim(part.as_str());
    if name.as_str().unicode_len() == 0 {
        assert(name@ =~= Seq::<char>::empty());
        Err(
            RpcStatus::invalid_argument(
                "Cannot derive a destination table name from the update statement".to_string(),
            ),
        )
    } else {
        Ok(name)
    }
}

/// Names with dots between them.
pub open spec fn dotted(names: Seq<Seq<char>>) -> Seq<char>
    decreases names.len(),
{
    if names.len() == 0 {
        Seq::empty()
    } else if names.len() == 1 {
        names[0]
    } else {
        dotted(names.drop_last()) + "."@ + names.last()
    }
}

/// The reference that the path of a descriptor makes; an empty one where there is none.
pub fn put_reference(path: &Option<Vec<String>>) -> (r: String)
    ensures
        r@ == match path {
            Some(names) => dotted(texts(names@)),
            None => Seq::empty(),
        },
{
    let mut out = String::new();
    match path {
        Some(names) => {
            let n: usize = names.len();
            let mut i: usize = 0;
            assert(texts(names@).take(0) =~= Seq::empty());
            while i < n
                invariant
                    n == names@.len(),
                    i <= n,
                    out@ == dotted(texts(names@).take(i as int)),
                decreases n - i,
            {
                if i > 0 {
                    out.append(".");
                }
                out.append(names[i].as_str());
                proof {
                    let more = texts(names@).take(i + 1);
                    assert(more.drop_last() =~= texts(names@).take(i as int));
                    assert(more.last() == names@[i as int]@);
                    if i == 0 {
                        assert(out@ =~= more[0]);
                    }
                }
                i = i + 1;
            }
            assert(texts(names@).take(n as int) =~= texts(names@));
        },
        None => {},
    }
    out
}

/// What the first message of an upload says.
#[derive(Debug)]
pub enum PutStart {
    /// A message, with the path of its descriptor where it has one.
    Message(Option<Vec<String>>),
    /// There is no message.
    Missing,
}

/// The table that an upload goes to.
pub fn put_destination(start: PutStart) -> (r: Result<String, RpcStatus>)
    ensures
        match start {
            PutStart::Message(path) => {
                let reference = match path {
                    Some(names) => dotted(texts(names@)),
                    None => Seq::empty(),
                };
                match r {
                    Ok(name) => is_table_name(reference, name@) && name@.len() > 0,
                    Err(e) => {
                        &&& is_table_name(reference, Seq::empty())
                        &&& e.code == StatusCode::InvalidArgument
                        &&& e.message@
                            == "Cannot derive a destination table name from the update statement"@
                    },
                }
            },
            PutStart::Missing => {
                &&& r matches Err(e)
                &&& e.code == StatusCode::InvalidArgument
                &&& e.message@ == "DoPut stream is missing its FlightData descriptor"@
            },
        },
{
    match start {
        PutStart::Message(path) => {
            let reference = put_reference(&path);
            parse_table_name(reference.as_str())
        },
        PutStart::Missing => Err(
            RpcStatus::invalid_argument(
                "DoPut stream is missing its FlightData descriptor".to_string(),
            ),
        ),
    }
}

/// The statements that were prepared, by their handles.
pub struct Statements {
    queries: DashMap<Vec<u8>, String>,
}

impl Statements {
    pub closed spec fn model(self) -> Map<Seq<u8>, Seq<char>> {
        queries_in(self.queries)
    }

    pub fn new() -> (r: Statements)
        ensures
            r.model() == Map::<Seq<u8>, Seq<char>>::empty(),
    {
        Statements { queries: new_queries() }
    }

    /// Keeps a statement under a new handle.
    pub fn prepare(&mut self, query: String) -> (handle: Vec<u8>)
        ensures
            handle@.len() == 16,
            final(self).model() == old(self).model().insert(handle@, query@),
    {
        let handle = random_handle();
        let mut kept: Vec<u8> = Vec::new();
        kept.extend_from_slice(handle.as_slice());
        assert(kept@ =~= handle@);
        query_insert(&mut self.queries, kept, query);
        handle
    }

    /// The statement under a handle.
    pub fn resolve(&self, handle: &[u8]) -> (r: Result<String, RpcStatus>)
        ensures
            match r {
                Ok(query) => self.model().contains_key(handle@) && query@ == self.model()[handle@],
                Err(e) => {
                    &&& !self.model().contains_key(handle@)
                    &&& e.code == StatusCode::NotFound
                    &&& e.message@ == "Statement handle not found"@
                },
            },
    {
        match query_get(&self.queries, handle) {
            Some(query) => Ok(query),
            None => Err(RpcStatus::not_found("Statement handle not found".to_string())),
        }
    }
}

/// A reference names one table.
pub proof fn one_table_name(reference: Seq<char>, a: Seq<char>, b: Seq<char>)
    requires
        is_table_name(reference, a),
        is_table_name(reference, b),
    ensures
        a == b,
{
    let (w1, p1) = choose|whole: Seq<char>, part: Seq<char>|
        #[trigger] is_trimmed(reference, whole) && #[trigger] is_last_segment(whole, part)
            && is_trimmed(part, a);
    let (w2, p2) = choose|whole: Seq<char>, part: Seq<char>|
        #[trigger] is_trimmed(reference, whole) && #[trigger] is_last_segment(whole, part)
            && is_trimmed(part, b);
    one_trim(reference, w1, w2);
    one_segment(w1, p1, p2);
    one_trim(p1, a, b);
}

proof fn one_trim(s: Seq<char>, t: Seq<char>, u: Seq<char>)
    requires
        is_trimmed(s, t),
        is_trimmed(s, u),
    ensures
        t == u,
{
    let (a, b) = choose|a: int, b: int| #[trigger] is_trim_at(s, t, a, b);
    let (c, d) = choose|c: int, d: int| #[trigger] is_trim_at(s, u, c, d);
    if t.len() > 0 {
        assert(t[0] == s[a]);
        assert(t.last() == s[b - 1]);
    }
    if u.len() > 0 {
        assert(u[0] == s[c]);
        assert(u.last() == s[d - 1]);
    }
    if t.len() > 0 && u.len() > 0 {
        assert(a == c);
        assert(b == d);
    }
    assert(t =~= u);
}

proof fn one_segment(s: Seq<char>, t: Seq<char>, u: Seq<char>)
    requires
        is_last_segment(s, t),
        is_last_segment(s, u),
    ensures
        t == u,
{
    let a = choose|a: int| #[trigger] is_segment_at(s, t, a);
    let b = choose|b: int| #[trigger] is_segment_at(s, u, b);
    if a < b {
        assert(s[b - 1] != '.');
    }
    if b < a {
        assert(s[a - 1] != '.');
    }
}

} // verus!
