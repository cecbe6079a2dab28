use vstd::prelude::*;

use crate::bytes_is_prefix;
use crate::eq_ignore_ascii_case;
use crate::request::HeaderField;
use crate::request::HeaderModel;
use crate::request::ReqModel;
use crate::request::RequestView;
use crate::request::RespModel;
use crate::request::ResponseView;

verus! {

/// One rewrite applied while a matched request is forwarded or its response
/// relayed.
#[derive(Debug)]
pub enum Transform {
    /// Prepend a request header; with first-occurrence-wins lookup this
    /// overrides any same-named header already present.
    SetRequestHeader(Vec<u8>, Vec<u8>),
    /// Drop every request header with this name, compared
    /// case-insensitively.
    RemoveRequestHeader(Vec<u8>),
    /// If the path starts with the first byte string, replace that prefix
    /// with the second; otherwise leave the path alone.
    ReplacePathPrefix(Vec<u8>, Vec<u8>),
    /// Prepend a response header on the way back.
    SetResponseHeader(Vec<u8>, Vec<u8>),
}

/// The headers with every field of the given name removed, name compared
/// case-insensitively.
pub open spec fn headers_without(hs: Seq<HeaderModel>, name: Seq<u8>) -> Seq<HeaderModel>
    decreases hs.len(),
{
    if hs.len() == 0 {
        Seq::empty()
    } else if eq_ignore_ascii_case(hs[0].name, name) {
        headers_without(hs.skip(1), name)
    } else {
        seq![hs[0]] + headers_without(hs.skip(1), name)
    }
}

/// What one transform does to a request.
pub open spec fn apply_to_request_spec(t: Transform, m: ReqModel) -> ReqModel {
    match t {
        Transform::SetRequestHeader(n, v) => ReqModel {
            method: m.method,
            path: m.path,
            headers: seq![HeaderModel { name: n@, value: v@ }] + m.headers,
        },
        Transform::RemoveRequestHeader(n) => ReqModel {
            method: m.method,
            path: m.path,
            headers: headers_without(m.headers, n@),
        },
        Transform::ReplacePathPrefix(from, to) => if from@.is_prefix_of(m.path) {
            ReqModel {
                method: m.method,
                path: to@ + m.path.skip(from@.len() as int),
                headers: m.headers,
            }
        } else {
            m
        },
        Transform::SetResponseHeader(_, _) => m,
    }
}

/// What one transform does to a response.
pub open spec fn apply_to_response_spec(t: Transform, m: RespModel) -> RespModel {
    match t {
        Transform::SetResponseHeader(n, v) => RespModel {
            status: m.status,
            headers: seq![HeaderModel { name: n@, value: v@ }] + m.headers,
        },
        _ => m,
    }
}

/// What a whole transform chain does to a request, applied in order.
pub open spec fn apply_chain_to_request(ts: Seq<Transform>, m: ReqModel) -> ReqModel
    decreases ts.len(),
{
    if ts.len() == 0 {
        m
    } else {
        apply_chain_to_request(ts.skip(1), apply_to_request_spec(ts[0], m))
    }
}

/// What a whole transform chain does to a response, applied in order.
pub open spec fn apply_chain_to_response(ts: Seq<Transform>, m: RespModel) -> RespModel
    decreases ts.len(),
{
    if ts.len() == 0 {
        m
    } else {
        apply_chain_to_response(ts.skip(1), apply_to_response_spec(ts[0], m))
    }
}

/// Drops every header field with the given name, keeping the others in
/// order.
fn remove_headers(hs: &mut Vec<HeaderField>, name: &[u8])
    ensures
        final(hs)@.map_values(|h: HeaderField| crate::request::header_model(h))
            == headers_without(
                old(hs)@.map_values(|h: HeaderField| crate::request::header_model(h)),
                name@,
            ),
{
    let ghost orig = hs@.map_values(|h: HeaderField| crate::request::header_model(h));
    let n = hs.len();
    let mut out: Vec<HeaderField> = Vec::new();
    proof {
        assert(orig.skip(0) =~= orig);
        assert(out@.map_values(|h: HeaderField| crate::request::header_model(h)) =~= Seq::<
            HeaderModel,
        >::empty());
        assert(Seq::<HeaderModel>::empty() + headers_without(orig, name@) =~= headers_without(
            orig,
            name@,
        ));
    }
    let mut i: usize = 0;
    while i < n
        invariant
            0 <= i <= n,
            n == hs@.len(),
            orig == hs@.map_values(|h: HeaderField| crate::request::header_model(h)),
            headers_without(orig, name@) == out@.map_values(
                |h: HeaderField| crate::request::header_model(h),
            ) + headers_without(orig.skip(i as int), name@),
        decreases n - i,
    {
        proof {
            assert(orig.skip(i as int)[0] == orig[i as int]);
            assert(orig.skip(i as int).skip(1) =~= orig.skip(i as int + 1));
            assert(orig[i as int] == crate::request::header_model(hs@[i as int]));
        }
        if !crate::bytes_eq_ignore_case(hs[i].name.as_slice(), name) {
            let ghost out_before = out@.map_values(|h: HeaderField| crate::request::header_model(h));
            out.push(hs[i].duplicate());
            proof {
                assert(out@.map_values(|h: HeaderField| crate::request::header_model(h)) =~= out_before
                    + seq![orig[i as int]]);
                assert(out_before + seq![orig[i as int]] + headers_without(
                    orig.skip(i as int + 1),
                    name@,
                ) =~= out_before + (seq![orig[i as int]] + headers_without(
                    orig.skip(i as int + 1),
                    name@,
                )));
            }
        }
        i = i + 1;
    }
    proof {
        assert(orig.skip(n as int) =~= Seq::empty());
        assert(out@.map_values(|h: HeaderField| crate::request::header_model(h)) + Seq::<
            HeaderModel,
        >::empty() =~= out@.map_values(|h: HeaderField| crate::request::header_model(h)));
    }
    *hs = out;
}

impl Transform {
    /// Applies this transform's request side; the response side leaves the
    /// request alone.
    pub fn apply_to_request(&self, req: &mut RequestView)
        ensures
            final(req).model() == apply_to_request_spec(*self, old(req).model()),
    {
        match self {
            Transform::SetRequestHeader(n, v) => {
                let h = HeaderField { name: n.clone(), value: v.clone() };
                proof {
                    assert(h.name@ =~= n@);
                    assert(h.value@ =~= v@);
                }
                req.headers.insert(0, h);
                proof {
                    assert(final(req).model().headers =~= seq![
                        HeaderModel { name: n@, value: v@ },
                    ] + old(req).model().headers);
                }
            },
            Transform::RemoveRequestHeader(n) => {
                remove_headers(&mut req.headers, n.as_slice());
            },
            Transform::ReplacePathPrefix(from, to) => {
                if bytes_is_prefix(from.as_slice(), req.path.as_slice()) {
                    let mut out: Vec<u8> = Vec::new();
                    out.extend_from_slice(to.as_slice());
                    proof {
                        assert(out@ =~= to@);
                    }
                    let mut j: usize = from.len();
                    while j < req.path.len()
                        invariant
                            from@.len() <= j <= req.path@.len(),
                            out@ == to@ + req.path@.subrange(from@.len() as int, j as int),
                        decreases req.path@.len() - j,
                    {
                        let b = req.path[j];
                        out.push(b);
                        proof {
                            assert(out@ =~= to@ + req.path@.subrange(
                                from@.len() as int,
                                j as int + 1,
                            ));
                        }
                        j = j + 1;
                    }
                    proof {
                        assert(req.path@.subrange(from@.len() as int, req.path@.len() as int)
                            =~= req.path@.skip(from@.len() as int));
                    }
                    req.path = out;
                }
            },
            Transform::SetResponseHeader(_, _) => {},
        }
    }

    /// Applies this transform's response side; request-side transforms leave
    /// the response alone.
    pub fn apply_to_response(&self, resp: &mut ResponseView)
        ensures
            final(resp).model() == apply_to_response_spec(*self, old(resp).model()),
    {
        match self {
            Transform::SetResponseHeader(n, v) => {
                let h = HeaderField { name: n.clone(), value: v.clone() };
                proof {
                    assert(h.name@ =~= n@);
                    assert(h.value@ =~= v@);
                }
                resp.headers.insert(0, h);
                proof {
                    assert(final(resp).model().headers =~= seq![
                        HeaderModel { name: n@, value: v@ },
                    ] + old(resp).model().headers);
                }
            },
            _ => {},
        }
    }
}

/// Applies a whole transform chain to an outbound request, in order.
pub fn apply_request_transforms(ts: &Vec<Transform>, req: &mut RequestView)
    ensures
        final(req).model() == apply_chain_to_request(ts@, old(req).model()),
{
    let ghost m0 = req.model();
    proof {
        assert(ts@.skip(0) =~= ts@);
    }
    let mut i: usize = 0;
    while i < ts.len()
        invariant
            0 <= i <= ts@.len(),
            apply_chain_to_request(ts@, m0) == apply_chain_to_request(
                ts@.skip(i as int),
                req.model(),
            ),
        decreases ts@.len() - i,
    {
        proof {
            assert(ts@.skip(i as int)[0] == ts@[i as int]);
            assert(ts@.skip(i as int).skip(1) =~= ts@.skip(i as int + 1));
        }
        ts[i].apply_to_request(req);
        i = i + 1;
    }
    proof {
        assert(ts@.skip(ts@.len() as int).len() == 0);
    }
}

/// Applies a whole transform chain to an upstream response, in order.
pub fn apply_response_transforms(ts: &Vec<Transform>, resp: &mut ResponseView)
    ensures
        final(resp).model() == apply_chain_to_response(ts@, old(resp).model()),
{
    let ghost m0 = resp.model();
    proof {
        assert(ts@.skip(0) =~= ts@);
    }
    let mut i: usize = 0;
    while i < ts.len()
        invariant
            0 <= i <= ts@.len(),
            apply_chain_to_response(ts@, m0) == apply_chain_to_response(
                ts@.skip(i as int),
                resp.model(),
            ),
        decreases ts@.len() - i,
    {
        proof {
            assert(ts@.skip(i as int)[0] == ts@[i as int]);
            assert(ts@.skip(i as int).skip(1) =~= ts@.skip(i as int + 1));
        }
        ts[i].apply_to_response(resp);
        i = i + 1;
    }
    proof {
        assert(ts@.skip(ts@.len() as int).len() == 0);
    }
}

} // verus!
