use vstd::prelude::*;

use crate::eq_ignore_ascii_case;
use crate::bytes_eq_ignore_case;

verus! {

/// One header field of a request or a response.
#[derive(Clone, Debug)]
pub struct HeaderField {
    pub name: Vec<u8>,
    pub value: Vec<u8>,
}

/// What the routing engine reads of an inbound request: method, path and
/// headers, as the proxy runtime handed them over.
#[derive(Clone, Debug)]
pub struct RequestView {
    pub method: Vec<u8>,
    pub path: Vec<u8>,
    pub headers: Vec<HeaderField>,
}

/// What the pipeline touches of an upstream response before relaying it.
#[derive(Clone, Debug)]
pub struct ResponseView {
    pub status: u16,
    pub headers: Vec<HeaderField>,
}

/// The mathematical image of one header field.
pub struct HeaderModel {
    pub name: Seq<u8>,
    pub value: Seq<u8>,
}

/// The mathematical image of a request: what contracts speak of.
pub struct ReqModel {
    pub method: Seq<u8>,
    pub path: Seq<u8>,
    pub headers: Seq<HeaderModel>,
}

/// The mathematical image of a response.
pub struct RespModel {
    pub status: u16,
    pub headers: Seq<HeaderModel>,
}

/// The image of one header field.
pub open spec fn header_model(h: HeaderField) -> HeaderModel {
    HeaderModel { name: h.name@, value: h.value@ }
}

impl HeaderField {
    /// A copy of this header field.
    pub fn duplicate(&self) -> (r: HeaderField)
        ensures
            r.name@ == self.name@,
            r.value@ == self.value@,
    {
        HeaderField { name: self.name.clone(), value: self.value.clone() }
    }
}

impl RequestView {
    /// The request as mathematics: method, path and headers as sequences.
    pub open spec fn model(&self) -> ReqModel {
        ReqModel {
            method: self.method@,
            path: self.path@,
            headers: self.headers@.map_values(|h: HeaderField| header_model(h)),
        }
    }
}

impl ResponseView {
    /// The response as mathematics.
    pub open spec fn model(&self) -> RespModel {
        RespModel {
            status: self.status,
            headers: self.headers@.map_values(|h: HeaderField| header_model(h)),
        }
    }
}

/// The value of the first header whose name matches case-insensitively, if
/// any: first occurrence wins when a header is repeated.
pub open spec fn header_lookup(hs: Seq<HeaderField>, name: Seq<u8>) -> Option<Seq<u8>>
    decreases hs.len(),
{
    if hs.len() == 0 {
        None
    } else if eq_ignore_ascii_case(hs[0].name@, name) {
        Some(hs[0].value@)
    } else {
        header_lookup(hs.skip(1), name)
    }
}

/// Skipping a prefix free of matches leaves the lookup unchanged.
pub proof fn lemma_header_lookup_skip(hs: Seq<HeaderField>, name: Seq<u8>, i: int)
    requires
        0 <= i <= hs.len(),
        forall|j: int| 0 <= j < i ==> !eq_ignore_ascii_case(hs[j].name@, name),
    ensures
        header_lookup(hs, name) == header_lookup(hs.skip(i), name),
    decreases i,
{
    if i > 0 {
        assert(hs.skip(1).skip(i - 1) =~= hs.skip(i));
        lemma_header_lookup_skip(hs.skip(1), name, i - 1);
    } else {
        assert(hs.skip(0) =~= hs);
    }
}

impl RequestView {
    /// Finds the first header with the given name, comparing names
    /// case-insensitively.
    pub fn lookup_header<'a>(&'a self, name: &[u8]) -> (r: Option<&'a Vec<u8>>)
        ensures
            match r {
                Some(v) => header_lookup(self.headers@, name@) == Some(v@),
                None => header_lookup(self.headers@, name@) is None,
            },
    {
        let n = self.headers.len();
        let mut i: usize = 0;
        while i < n
            invariant
                0 <= i <= n,
                n == self.headers@.len(),
                forall|j: int| 0 <= j < i ==> !eq_ignore_ascii_case(self.headers@[j].name@, name@),
            decreases n - i,
        {
            if bytes_eq_ignore_case(self.headers[i].name.as_slice(), name) {
                proof {
                    lemma_header_lookup_skip(self.headers@, name@, i as int);
                    assert(self.headers@.skip(i as int)[0] == self.headers@[i as int]);
                }
                return Some(&self.headers[i].value);
            }
            i = i + 1;
        }
        proof {
            lemma_header_lookup_skip(self.headers@, name@, n as int);
        }
        None
    }
}

} // verus!
