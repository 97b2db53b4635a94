//! Plain data of the engine's listing API: image references, content
//! addresses, published ports, and the `first:rest` splitting their textual
//! form uses.

use vstd::prelude::*;
use vstd::string::StrSliceExecFns;
use vstd::string::StringExecFns;

verus! {

/// An image reference of the form `repository:tag`.
pub struct Tag {
    pub repository: String,
    pub tag: String,
}

/// A content address of the form `encoding:hash`.
pub struct Id {
    pub encoding: String,
    pub hash: String,
}

/// One published port in a container listing.
#[allow(non_snake_case)]
pub struct Port {
    pub IP: Option<String>,
    pub PrivatePort: u64,
    pub PublicPort: Option<u64>,
    pub Type: String,
}

/// First position at or after `i` holding a colon, or the length.
pub open spec fn colon_at(s: Seq<char>, i: int) -> int
    decreases s.len() - i,
{
    if 0 <= i < s.len() {
        if s[i] == ':' {
            i
        } else {
            colon_at(s, i + 1)
        }
    } else {
        i
    }
}

/// Splits `first:rest` at its first colon: the text before it and the text
/// after it. A string without a colon splits into two empty strings; one
/// whose first colon is its last character splits into the prefix and an
/// empty rest. No input is refused.
pub fn split_at_colon(s: &str) -> (r: Result<(String, String), ()>)
    ensures
        ({
            let c = colon_at(s@, 0);
            &&& r is Ok
            &&& (c < s@.len() ==> (r matches Ok(p) && p.0@ == s@.subrange(0, c) && p.1@
                == s@.subrange(c + 1, s@.len() as int)))
            &&& (c >= s@.len() ==> (r matches Ok(p) && p.0@ == Seq::<char>::empty() && p.1@
                == Seq::<char>::empty()))
        }),
{
    let n = s.unicode_len();
    let mut i: usize = 0;
    while i < n && s.get_char(i) != ':'
        invariant
            i <= n,
            n == s@.len(),
            colon_at(s@, 0) == colon_at(s@, i as int),
        decreases n - i,
    {
        assert(colon_at(s@, i as int) == colon_at(s@, i + 1 as int));
        i = i + 1;
    }
    assert(colon_at(s@, i as int) == i);
    if i == n {
        Ok((String::new(), String::new()))
    } else {
        let a = s.substring_char(0, i).to_owned();
        let b = s.substring_char(i + 1, n).to_owned();
        Ok((a, b))
    }
}

impl Tag {
    /// An image reference from its two parts.
    pub fn from(t: (&str, &str)) -> (r: Tag)
        ensures
            r.repository@ == t.0@,
            r.tag@ == t.1@,
    {
        Tag { repository: t.0.to_owned(), tag: t.1.to_owned() }
    }

    /// The textual form the engine uses: `repository:tag`, or nothing when
    /// both parts are empty.
    pub fn joined(&self) -> (r: String)
        ensures
            r@ == (if self.repository@.len() == 0 && self.tag@.len() == 0 {
                Seq::<char>::empty()
            } else {
                self.repository@ + seq![':'] + self.tag@
            }),
    {
        joined_parts(self.repository.as_str(), self.tag.as_str())
    }
}

impl Id {
    /// A content address from its two parts.
    pub fn from(t: (&str, &str)) -> (r: Id)
        ensures
            r.encoding@ == t.0@,
            r.hash@ == t.1@,
    {
        Id { encoding: t.0.to_owned(), hash: t.1.to_owned() }
    }

    /// The textual form the engine uses: `encoding:hash`, or nothing when
    /// both parts are empty.
    pub fn joined(&self) -> (r: String)
        ensures
            r@ == (if self.encoding@.len() == 0 && self.hash@.len() == 0 {
                Seq::<char>::empty()
            } else {
                self.encoding@ + seq![':'] + self.hash@
            }),
    {
        joined_parts(self.encoding.as_str(), self.hash.as_str())
    }
}

/// `a:b`, or nothing when both parts are empty.
fn joined_parts(a: &str, b: &str) -> (r: String)
    ensures
        r@ == (if a@.len() == 0 && b@.len() == 0 {
            Seq::<char>::empty()
        } else {
            a@ + seq![':'] + b@
        }),
{
    if a.is_empty() && b.is_empty() {
        let r = String::new();
        return r;
    }
    let mut out = String::new();
    out.append(a);
    let colon: &str = ":";
    proof {
        reveal_strlit(":");
        assert(colon@ =~= seq![':']);
    }
    out.append(colon);
    out.append(b);
    assert(out@ =~= a@ + seq![':'] + b@);
    out
}

} // verus!
