//! Splitting of `http://host[:port][/path[?search]]` locations.

use vstd::prelude::*;
use crate::text::{chars_of, find_char, index_of, string_of};

verus! {

/// Whether `s` holds the scheme marker `http://` at index `i`.
pub open spec fn scheme_at(s: Seq<char>, i: int) -> bool {
    &&& 0 <= i
    &&& i + 7 <= s.len()
    &&& s[i] == 'h'
    &&& s[i + 1] == 't'
    &&& s[i + 2] == 't'
    &&& s[i + 3] == 'p'
    &&& s[i + 4] == ':'
    &&& s[i + 5] == '/'
    &&& s[i + 6] == '/'
}

/// Whether the scheme marker occurs anywhere in `s`.
pub open spec fn has_scheme(s: Seq<char>) -> bool {
    exists|i: int| scheme_at(s, i)
}

/// The index behind every leading repetition of the scheme marker, counted
/// from `from`.
pub open spec fn authority_start(s: Seq<char>, from: int) -> int
    decreases s.len() - from,
{
    if scheme_at(s, from) {
        authority_start(s, from + 7)
    } else {
        from
    }
}

/// The index of the first `/` behind the scheme, or the length.
pub open spec fn authority_end(s: Seq<char>) -> int {
    index_of(s, '/', authority_start(s, 0))
}

/// The index of the first `:` of the authority, or its end.
pub open spec fn host_end(s: Seq<char>) -> int {
    let colon = index_of(s, ':', authority_start(s, 0));
    if colon < authority_end(s) {
        colon
    } else {
        authority_end(s)
    }
}

/// The host: the authority up to its first `:`.
pub open spec fn host_of(s: Seq<char>) -> Seq<char> {
    s.subrange(authority_start(s, 0), host_end(s))
}

/// The port: what follows the first `:` of the authority, or `80`.
pub open spec fn port_of(s: Seq<char>) -> Seq<char> {
    if host_end(s) < authority_end(s) {
        s.subrange(host_end(s) + 1, authority_end(s))
    } else {
        seq!['8', '0']
    }
}

/// The index of the first `?` behind the first `/`, or the length.
pub open spec fn path_end(s: Seq<char>) -> int {
    index_of(s, '?', authority_end(s) + 1)
}

/// The path: what stands between the first `/` and the first `?` behind it.
pub open spec fn path_of(s: Seq<char>) -> Seq<char> {
    if authority_end(s) < s.len() {
        s.subrange(authority_end(s) + 1, path_end(s))
    } else {
        Seq::empty()
    }
}

/// The search part: what follows the first `?` of the part behind the first `/`.
pub open spec fn search_part_of(s: Seq<char>) -> Seq<char> {
    if authority_end(s) < s.len() && path_end(s) < s.len() {
        s.subrange(path_end(s) + 1, s.len() as int)
    } else {
        Seq::empty()
    }
}

/// The message of the one error that `parse` reports.
pub open spec fn scheme_error() -> Seq<char> {
    "Only HTTP scheme is supported."@
}

/// A location and the parts that `parse` found in it.
#[derive(Debug, Clone, PartialEq)]
pub struct Url {
    url: String,
    host: String,
    port: String,
    path: String,
    search_part: String,
}

/// The five texts of a `Url`.
pub struct UrlView {
    pub url: Seq<char>,
    pub host: Seq<char>,
    pub port: Seq<char>,
    pub path: Seq<char>,
    pub search_part: Seq<char>,
}

impl View for Url {
    type V = UrlView;

    closed spec fn view(&self) -> UrlView {
        UrlView {
            url: self.url@,
            host: self.host@,
            port: self.port@,
            path: self.path@,
            search_part: self.search_part@,
        }
    }
}

fn scheme_at_exec(v: &Vec<char>, i: usize) -> (b: bool)
    requires
        i <= v@.len(),
    ensures
        b == scheme_at(v@, i as int),
{
    v.len() - i >= 7 && v[i] == 'h' && v[i + 1] == 't' && v[i + 2] == 't' && v[i + 3] == 'p'
        && v[i + 4] == ':' && v[i + 5] == '/' && v[i + 6] == '/'
}

fn authority_start_exec(v: &Vec<char>) -> (i: usize)
    ensures
        i == authority_start(v@, 0),
        i <= v@.len(),
{
    let n: usize = v.len();
    let mut i: usize = 0;
    loop
        invariant
            n == v@.len(),
            i <= v@.len(),
            authority_start(v@, 0) == authority_start(v@, i as int),
        ensures
            !scheme_at(v@, i as int),
        decreases v@.len() - i,
    {
        if !scheme_at_exec(v, i) {
            break;
        }
        i += 7;
    }
    i
}

impl Url {
    /// A location that has not been parsed: all four parts are empty.
    pub fn new(url: String) -> (r: Self)
        ensures
            r@ == (UrlView {
                url: url@,
                host: Seq::empty(),
                port: Seq::empty(),
                path: Seq::empty(),
                search_part: Seq::empty(),
            }),
    {
        Self {
            url,
            host: String::new(),
            port: String::new(),
            path: String::new(),
            search_part: String::new(),
        }
    }

    /// Splits the location. It is refused exactly when the scheme marker
    /// occurs nowhere in it, and then nothing is changed; else the four parts
    /// are set and a copy of the whole is returned.
    pub fn parse(&mut self) -> (r: Result<Self, String>)
        ensures
            r is Err <==> !has_scheme(old(self)@.url),
            r is Err ==> r->Err_0@ == scheme_error() && final(self)@ == old(self)@,
            r is Ok ==> r->Ok_0@ == final(self)@ && final(self)@ == (UrlView {
                url: old(self)@.url,
                host: host_of(old(self)@.url),
                port: port_of(old(self)@.url),
                path: path_of(old(self)@.url),
                search_part: search_part_of(old(self)@.url),
            }),
    {
        if !self.is_http() {
            return Err("Only HTTP scheme is supported.".to_owned());
        }
        self.host = self.extract_host();
        self.port = self.extract_port();
        self.path = self.extract_path();
        self.search_part = self.extract_searchpart();
        Ok(
            Self {
                url: self.url.clone(),
                host: self.host.clone(),
                port: self.port.clone(),
                path: self.path.clone(),
                search_part: self.search_part.clone(),
            },
        )
    }

    fn is_http(&self) -> (b: bool)
        ensures
            b == has_scheme(self@.url),
    {
        let v = chars_of(self.url.as_str());
        let mut i: usize = 0;
        while i < v.len()
            invariant
                i <= v@.len(),
                v@ == self.url@,
                forall|j: int| 0 <= j < i ==> !scheme_at(v@, j),
            decreases v@.len() - i,
        {
            if scheme_at_exec(&v, i) {
                return true;
            }
            i += 1;
        }
        false
    }

    /// The host that `parse` found.
    pub fn host(&self) -> (r: String)
        ensures
            r@ == self@.host,
    {
        self.host.clone()
    }

    fn extract_host(&self) -> (r: String)
        ensures
            r@ == host_of(self@.url),
    {
        let v = chars_of(self.url.as_str());
        let start = authority_start_exec(&v);
        let end = find_char(&v, '/', start);
        let colon = find_char(&v, ':', start);
        if colon < end {
            string_of(&v, start, colon)
        } else {
            string_of(&v, start, end)
        }
    }

    /// The port that `parse` found.
    pub fn port(&self) -> (r: String)
        ensures
            r@ == self@.port,
    {
        self.port.clone()
    }

    fn extract_port(&self) -> (r: String)
        ensures
            r@ == port_of(self@.url),
    {
        let v = chars_of(self.url.as_str());
        let start = authority_start_exec(&v);
        let end = find_char(&v, '/', start);
        let colon = find_char(&v, ':', start);
        if colon < end {
            string_of(&v, colon + 1, end)
        } else {
            let r = "80".to_owned();
            proof {
                reveal_strlit("80");
                assert(r@ =~= seq!['8', '0']);
            }
            r
        }
    }

    /// The path that `parse` found.
    pub fn path(&self) -> (r: String)
        ensures
            r@ == self@.path,
    {
        self.path.clone()
    }

    fn extract_path(&self) -> (r: String)
        ensures
            r@ == path_of(self@.url),
    {
        let v = chars_of(self.url.as_str());
        let start = authority_start_exec(&v);
        let end = find_char(&v, '/', start);
        if end >= v.len() {
            return String::new();
        }
        let mark = find_char(&v, '?', end + 1);
        string_of(&v, end + 1, mark)
    }

    /// The search part that `parse` found.
    pub fn search_part(&self) -> (r: String)
        ensures
            r@ == self@.search_part,
    {
        self.search_part.clone()
    }

    fn extract_searchpart(&self) -> (r: String)
        ensures
            r@ == search_part_of(self@.url),
    {
        let v = chars_of(self.url.as_str());
        let start = authority_start_exec(&v);
        let end = find_char(&v, '/', start);
        if end >= v.len() {
            return String::new();
        }
        let mark = find_char(&v, '?', end + 1);
        if mark >= v.len() {
            String::new()
        } else {
            string_of(&v, mark + 1, v.len())
        }
    }
}

} // verus!
