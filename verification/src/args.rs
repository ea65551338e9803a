//! Argument builder: the exact invocation the worker receives.
//!
//! The worker is called with `-i <source> -c copy` (read the source, copy
//! the streams without re-encoding) followed, for each destination, by
//! `-f flv <destination>` (one container-framed output per destination).

use vstd::prelude::*;
use crate::request::{RelayRequest, RequestError};

verus! {

/// The per-destination tail of the argument vector: `-f flv <destination>`
/// for each destination, in request order.
pub open spec fn dest_args(dests: Seq<Seq<char>>) -> Seq<Seq<char>>
    decreases dests.len(),
{
    if dests.len() == 0 {
        Seq::empty()
    } else {
        seq!["-f"@, "flv"@, dests[0]] + dest_args(dests.skip(1))
    }
}

/// The fixed prefix of the argument vector: input flag, source, stream-copy
/// policy.
pub open spec fn args_prefix(source: Seq<char>) -> Seq<Seq<char>> {
    seq!["-i"@, source, "-c"@, "copy"@]
}

/// The whole argument vector for one request.
pub open spec fn worker_args(source: Seq<char>, dests: Seq<Seq<char>>) -> Seq<Seq<char>> {
    args_prefix(source) + dest_args(dests)
}

/// The destination tail splits over a split of the destinations.
pub proof fn lemma_dest_args_concat(a: Seq<Seq<char>>, b: Seq<Seq<char>>)
    ensures
        dest_args(a + b) == dest_args(a) + dest_args(b),
    decreases a.len(),
{
    if a.len() == 0 {
        assert(a + b =~= b);
        assert(dest_args(a) + dest_args(b) =~= dest_args(b));
    } else {
        assert((a + b).skip(1) =~= a.skip(1) + b);
        lemma_dest_args_concat(a.skip(1), b);
        assert(seq!["-f"@, "flv"@, a[0]] + (dest_args(a.skip(1)) + dest_args(b)) =~= (seq![
            "-f"@,
            "flv"@,
            a[0],
        ] + dest_args(a.skip(1))) + dest_args(b));
    }
}

/// The destination tail holds three arguments per destination.
pub proof fn lemma_dest_args_len(dests: Seq<Seq<char>>)
    ensures
        dest_args(dests).len() == 3 * dests.len(),
    decreases dests.len(),
{
    if dests.len() > 0 {
        lemma_dest_args_len(dests.skip(1));
    }
}

/// Destinations stand in the argument vector in request order: destination
/// `i` is argument `3 i + 2` of the tail, behind its own `-f flv`.
pub proof fn lemma_dest_args_index(dests: Seq<Seq<char>>, i: int)
    requires
        0 <= i < dests.len(),
    ensures
        dest_args(dests)[3 * i] == "-f"@,
        dest_args(dests)[3 * i + 1] == "flv"@,
        dest_args(dests)[3 * i + 2] == dests[i],
    decreases i,
{
    lemma_dest_args_len(dests);
    if i == 0 {
    } else {
        lemma_dest_args_index(dests.skip(1), i - 1);
        lemma_dest_args_len(dests.skip(1));
    }
}

/// The argument vector holds `4 + 3 n` arguments for `n` destinations, and
/// the destinations appear in request order.
pub proof fn lemma_worker_args_form(source: Seq<char>, dests: Seq<Seq<char>>)
    ensures
        worker_args(source, dests).len() == 4 + 3 * dests.len(),
        forall|i: int|
            0 <= i < dests.len() ==> #[trigger] worker_args(source, dests)[4 + 3 * i + 2]
                == dests[i],
{
    lemma_dest_args_len(dests);
    assert forall|i: int| 0 <= i < dests.len() implies #[trigger] worker_args(source, dests)[4 + 3
        * i + 2] == dests[i] by {
        lemma_dest_args_index(dests, i);
    }
}

/// Builds the worker's argument vector for a request. Returns
/// `InvalidRequest`, and touches nothing, exactly when the request names no
/// destination; otherwise the result is the full argument vector.
pub fn build(req: &RelayRequest) -> (r: Result<Vec<String>, RequestError>)
    ensures
        req.valid() ==> (r matches Ok(v) && v.deep_view() == worker_args(
            req.source@,
            req.destinations.deep_view(),
        )),
        !req.valid() ==> r == Result::<Vec<String>, RequestError>::Err(
            RequestError::InvalidRequest,
        ),
{
    if req.destinations.len() == 0 {
        return Err(RequestError::InvalidRequest);
    }
    let ghost dests = req.destinations.deep_view();
    let mut out: Vec<String> = Vec::new();
    out.push("-i".to_owned());
    out.push(req.source.clone());
    out.push("-c".to_owned());
    out.push("copy".to_owned());
    proof {
        assert(out.deep_view() =~= args_prefix(req.source@));
    }
    let mut i: usize = 0;
    while i < req.destinations.len()
        invariant
            i <= req.destinations.len(),
            dests == req.destinations.deep_view(),
            out.deep_view() == args_prefix(req.source@) + dest_args(dests.take(i as int)),
        decreases req.destinations.len() - i,
    {
        let ghost before = out.deep_view();
        out.push("-f".to_owned());
        proof {
            assert(out.deep_view() =~= before.push("-f"@));
        }
        let ghost before = out.deep_view();
        out.push("flv".to_owned());
        proof {
            assert(out.deep_view() =~= before.push("flv"@));
        }
        let ghost before = out.deep_view();
        out.push(req.destinations[i].clone());
        proof {
            assert(out.deep_view() =~= before.push(dests[i as int]));
            assert(dests.take(i + 1) =~= dests.take(i as int) + seq![dests[i as int]]);
            lemma_dest_args_concat(dests.take(i as int), seq![dests[i as int]]);
            let single = seq![dests[i as int]];
            assert(single.skip(1) =~= Seq::<Seq<char>>::empty());
            assert(dest_args(Seq::<Seq<char>>::empty()) == Seq::<Seq<char>>::empty());
            assert(single[0] == dests[i as int]);
            assert(dest_args(single) =~= seq!["-f"@, "flv"@, dests[i as int]]);
            assert(out.deep_view() =~~= args_prefix(req.source@) + dest_args(dests.take(i + 1)));
        }
        i = i + 1;
    }
    proof {
        assert(dests.take(req.destinations@.len() as int) =~= dests);
    }
    Ok(out)
}

} // verus!
