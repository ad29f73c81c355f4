//! Small helpers around htmx request/response headers.

use vstd::prelude::*;

verus! {

broadcast use vstd::seq_lib::group_seq_properties;

/// `true` when the request was issued by htmx (carries `HX-Request: true`).
/// Handlers use this to return a fragment instead of a full page.
#[derive(Clone, Copy, Debug)]
pub struct HxRequest(pub bool);

/// The bytes of the header value that marks an htmx request.
pub open spec fn hx_true() -> Seq<u8> {
    seq![0x74u8, 0x72u8, 0x75u8, 0x65u8]
}

impl HxRequest {
    /// Reads the value of the `HX-Request` header, if the request has one.
    pub fn from_header(value: Option<&[u8]>) -> (r: HxRequest)
        ensures
            r.0 == (value matches Some(v) && v@ == hx_true()),
    {
        match value {
            Some(v) => {
                let is_hx = v.len() == 4 && v[0] == 0x74u8 && v[1] == 0x72u8 && v[2] == 0x75u8
                    && v[3] == 0x65u8;
                proof {
                    if is_hx {
                        assert(v@ =~= hx_true());
                    } else if v@ == hx_true() {
                        assert(v@[0] == hx_true()[0]);
                        assert(v@[1] == hx_true()[1]);
                        assert(v@[2] == hx_true()[2]);
                        assert(v@[3] == hx_true()[3]);
                    }
                }
                HxRequest(is_hx)
            },
            None => HxRequest(false),
        }
    }
}

/// The text of the rendered fragments, one after another (a failed one adds nothing).
pub open spec fn joined<E>(parts: Seq<Result<String, E>>) -> Seq<char>
    decreases parts.len(),
{
    if parts.len() == 0 {
        Seq::empty()
    } else {
        joined(parts.drop_last()) + match parts.last() {
            Ok(s) => s@,
            Err(_) => Seq::empty(),
        }
    }
}

/// Concatenate several rendered fragments into one body (main swap +
/// out-of-band swaps). The first failure, if any, is returned instead.
pub fn join_fragments<E>(parts: Vec<Result<String, E>>) -> (r: Result<String, E>)
    ensures
        r is Ok <==> forall|i: int| 0 <= i < parts@.len() ==> #[trigger] parts@[i] is Ok,
        r matches Ok(body) ==> body@ == joined(parts@),
        r matches Err(e) ==> exists|i: int|
            0 <= i < parts@.len() && #[trigger] parts@[i] == Err::<String, E>(e) && forall|j: int|
                0 <= j < i ==> #[trigger] parts@[j] is Ok,
{
    let ghost all = parts@;
    let total: usize = parts.len();
    let mut rest = parts;
    let mut body = String::new();
    let mut k: usize = 0;
    assert(all.take(0) =~= Seq::<Result<String, E>>::empty());
    while rest.len() > 0
        invariant
            all == parts@,
            k <= all.len(),
            all.len() == total,
            rest@ == all.skip(k as int),
            body@ == joined(all.take(k as int)),
            forall|j: int| 0 <= j < k ==> #[trigger] all[j] is Ok,
        decreases rest@.len(),
    {
        let p = rest.remove(0);
        assert(p == all[k as int]);
        assert(all.take(k + 1).drop_last() =~= all.take(k as int));
        match p {
            Ok(s) => {
                body.append(s.as_str());
            },
            Err(e) => {
                assert(all[k as int] == Err::<String, E>(e));
                return Err(e);
            },
        }
        k = k + 1;
        assert(rest@ =~= all.skip(k as int));
    }
    assert(all.take(k as int) =~= all);
    Ok(body)
}

} // verus!
