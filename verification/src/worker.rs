//! The per-worker fetch discipline.
//!
//! A worker walks its chunk in order. For each segment it resolves the name
//! against the job's base URL and fetches the bytes; the fetch itself is
//! outside work, so the discipline is stated over its outcome. A successful
//! fetch is delivered to the writer as a (name, bytes) payload; any
//! per-segment failure — an unresolvable URL, a network error, a bad status,
//! an unreadable body — is reported and skipped, and never aborts the worker
//! or the run.

use vstd::prelude::*;

verus! {

/// The absolute URL that parsing `base` and resolving `name` against it
/// yields, or `None` where either step is rejected.
pub uninterp spec fn spec_resolved_url(base: Seq<char>, name: Seq<char>) -> Option<Seq<char>>;

/// Relies on url::Url::parse and url::Url::join: parsing the base URL and
/// resolving a segment name against it is a function of the two strings
/// alone, rejected inputs included.
#[verifier::external_body]
fn resolve_url(base: &str, name: &str) -> (r: Option<String>)
    ensures
        r.deep_view() == spec_resolved_url(base@, name@),
{
    match url::Url::parse(base) {
        Ok(u) => match u.join(name) {
            Ok(joined) => Some(String::from(joined.as_str())),
            Err(_) => None,
        },
        Err(_) => None,
    }
}

/// The fetch targets of a chunk: each segment name with its resolved URL,
/// in chunk order, `None` where the name does not resolve.
pub fn segment_urls(base: &str, chunk: &Vec<String>) -> (r: Vec<(String, Option<String>)>)
    ensures
        r@.len() == chunk@.len(),
        forall|k: int|
            0 <= k < r@.len() ==> (#[trigger] r.deep_view()[k]) == (
            chunk.deep_view()[k],
            spec_resolved_url(base@, chunk.deep_view()[k]),
            ),
{
    let mut r: Vec<(String, Option<String>)> = Vec::new();
    let mut i: usize = 0;
    while i < chunk.len()
        invariant
            i <= chunk@.len(),
            r@.len() == i,
            forall|k: int|
                0 <= k < i ==> (#[trigger] r.deep_view()[k]) == (
                chunk.deep_view()[k],
                spec_resolved_url(base@, chunk.deep_view()[k]),
                ),
        decreases chunk@.len() - i,
    {
        let ghost prev = r.deep_view();
        let name = chunk[i].clone();
        let target = resolve_url(base, name.as_str());
        r.push((name, target));
        proof {
            assert(forall|k: int| 0 <= k < i ==> #[trigger] r.deep_view()[k] == prev[k]);
            assert(r.deep_view()[i as int] == (
                chunk.deep_view()[i as int],
                spec_resolved_url(base@, chunk.deep_view()[i as int]),
            ));
        }
        i = i + 1;
    }
    r
}

/// The payloads a worker hands to the writer: one (name, bytes) pair per
/// segment of the chunk whose fetch succeeded, in chunk order.
pub open spec fn spec_deliveries(chunk: Seq<Seq<char>>, outcomes: Seq<Option<Seq<u8>>>) -> Seq<
    (Seq<char>, Seq<u8>),
>
    decreases chunk.len(),
{
    if chunk.len() == 0 || outcomes.len() == 0 {
        seq![]
    } else {
        let rest = spec_deliveries(chunk.drop_first(), outcomes.drop_first());
        match outcomes[0] {
            Some(body) => seq![(chunk[0], body)] + rest,
            None => rest,
        }
    }
}

/// The segments of the chunk whose fetch failed, in chunk order.
pub open spec fn spec_failures(chunk: Seq<Seq<char>>, outcomes: Seq<Option<Seq<u8>>>) -> Seq<
    Seq<char>,
>
    decreases chunk.len(),
{
    if chunk.len() == 0 || outcomes.len() == 0 {
        seq![]
    } else {
        let rest = spec_failures(chunk.drop_first(), outcomes.drop_first());
        match outcomes[0] {
            Some(body) => rest,
            None => seq![chunk[0]] + rest,
        }
    }
}

/// Splits a worker's chunk by its fetch outcomes: the payloads delivered to
/// the writer, in order, and the failed segment names, in order.
pub fn worker_deliveries(chunk: &Vec<String>, outcomes: &Vec<Option<Vec<u8>>>) -> (r: (
    Vec<(String, Vec<u8>)>,
    Vec<String>,
))
    requires
        outcomes@.len() == chunk@.len(),
    ensures
        r.0.deep_view() == spec_deliveries(chunk.deep_view(), outcomes.deep_view()),
        r.1.deep_view() == spec_failures(chunk.deep_view(), outcomes.deep_view()),
{
    let ghost all = chunk.deep_view();
    let ghost outs = outcomes.deep_view();
    let mut delivered: Vec<(String, Vec<u8>)> = Vec::new();
    let mut failed: Vec<String> = Vec::new();
    let mut i: usize = 0;
    proof {
        assert(all.skip(0) =~= all);
        assert(outs.skip(0) =~= outs);
        assert(delivered.deep_view() + spec_deliveries(all, outs) =~= spec_deliveries(all, outs));
        assert(failed.deep_view() + spec_failures(all, outs) =~= spec_failures(all, outs));
    }
    while i < chunk.len()
        invariant
            i <= chunk@.len(),
            outcomes@.len() == chunk@.len(),
            all == chunk.deep_view(),
            outs == outcomes.deep_view(),
            delivered.deep_view() + spec_deliveries(all.skip(i as int), outs.skip(i as int))
                == spec_deliveries(all, outs),
            failed.deep_view() + spec_failures(all.skip(i as int), outs.skip(i as int))
                == spec_failures(all, outs),
        decreases chunk@.len() - i,
    {
        let ghost prev_d = delivered.deep_view();
        let ghost prev_f = failed.deep_view();
        let ghost suffix = all.skip(i as int);
        let ghost osuffix = outs.skip(i as int);
        proof {
            assert(suffix.drop_first() =~= all.skip(i as int + 1));
            assert(osuffix.drop_first() =~= outs.skip(i as int + 1));
            assert(suffix[0] == all[i as int]);
            assert(osuffix[0] == outs[i as int]);
        }
        match &outcomes[i] {
            Some(body) => {
                delivered.push((chunk[i].clone(), body.clone()));
                assert(delivered.deep_view() =~= prev_d + seq![
                    (all[i as int], outs[i as int]->Some_0),
                ]);
            },
            None => {
                failed.push(chunk[i].clone());
                assert(failed.deep_view() =~= prev_f + seq![all[i as int]]);
            },
        }
        assert(delivered.deep_view() + spec_deliveries(
            all.skip(i as int + 1),
            outs.skip(i as int + 1),
        ) =~= prev_d + spec_deliveries(suffix, osuffix));
        assert(failed.deep_view() + spec_failures(
            all.skip(i as int + 1),
            outs.skip(i as int + 1),
        ) =~= prev_f + spec_failures(suffix, osuffix));
        i = i + 1;
    }
    proof {
        assert(all.skip(all.len() as int) =~= Seq::<Seq<char>>::empty());
        assert(outs.skip(outs.len() as int) =~= Seq::<Option<Seq<u8>>>::empty());
        assert(delivered.deep_view() =~= spec_deliveries(all, outs));
        assert(failed.deep_view() =~= spec_failures(all, outs));
    }
    (delivered, failed)
}

/// A failure is isolated to its own segment: a run in which the fetch of
/// segment `j` fails delivers exactly what a run over the chunk without
/// segment `j` delivers — every other segment of the chunk is handled as if
/// the failed one had never been scheduled. Chunks of other workers are
/// untouched by construction, as their deliveries are a function of their
/// own chunk and outcomes alone.
pub proof fn lemma_failure_isolation(
    chunk: Seq<Seq<char>>,
    outcomes: Seq<Option<Seq<u8>>>,
    j: int,
)
    requires
        outcomes.len() == chunk.len(),
        0 <= j < chunk.len(),
    ensures
        spec_deliveries(chunk, outcomes.update(j, None)) == spec_deliveries(
            chunk.remove(j),
            outcomes.remove(j),
        ),
    decreases chunk.len(),
{
    let failed = outcomes.update(j, None);
    if j == 0 {
        assert(failed.drop_first() =~= outcomes.drop_first());
        assert(chunk.remove(0) =~= chunk.drop_first());
        assert(outcomes.remove(0) =~= outcomes.drop_first());
    } else {
        lemma_failure_isolation(chunk.drop_first(), outcomes.drop_first(), j - 1);
        assert(failed.drop_first() =~= outcomes.drop_first().update(j - 1, None));
        assert(chunk.remove(j).drop_first() =~= chunk.drop_first().remove(j - 1));
        assert(outcomes.remove(j).drop_first() =~= outcomes.drop_first().remove(j - 1));
        assert(chunk.remove(j)[0] == chunk[0]);
        assert(outcomes.remove(j)[0] == outcomes[0]);
        assert(failed[0] == outcomes[0]);
    }
}

/// The segment names of a run of payloads, in delivery order.
pub open spec fn delivered_names(payloads: Seq<(Seq<char>, Seq<u8>)>) -> Seq<Seq<char>> {
    payloads.map_values(|p: (Seq<char>, Seq<u8>)| p.0)
}

/// A worker that encounters no failure delivers every segment of its chunk,
/// in chunk order, and reports nothing: together with the partition laws,
/// a run whose fetches all succeed persists the whole scheduled list.
pub proof fn lemma_all_success_delivers_whole_chunk(
    chunk: Seq<Seq<char>>,
    outcomes: Seq<Option<Seq<u8>>>,
)
    requires
        outcomes.len() == chunk.len(),
        forall|k: int| 0 <= k < outcomes.len() ==> (#[trigger] outcomes[k]) is Some,
    ensures
        delivered_names(spec_deliveries(chunk, outcomes)) == chunk,
        spec_failures(chunk, outcomes) == Seq::<Seq<char>>::empty(),
    decreases chunk.len(),
{
    if chunk.len() == 0 {
        assert(delivered_names(spec_deliveries(chunk, outcomes)) =~= chunk);
        assert(spec_failures(chunk, outcomes) =~= Seq::<Seq<char>>::empty());
    } else {
        assert(forall|k: int|
            0 <= k < outcomes.drop_first().len() ==> (#[trigger] outcomes.drop_first()[k])
                is Some);
        lemma_all_success_delivers_whole_chunk(chunk.drop_first(), outcomes.drop_first());
        assert(outcomes[0] is Some);
        let d = spec_deliveries(chunk, outcomes);
        let rest = spec_deliveries(chunk.drop_first(), outcomes.drop_first());
        assert(d == seq![(chunk[0], outcomes[0]->Some_0)] + rest);
        assert forall|i: int| 0 <= i < d.len() implies delivered_names(d)[i] == chunk[i] by {
            if i == 0 {
                assert(d[0] == (chunk[0], outcomes[0]->Some_0));
            } else {
                assert(d[i] == rest[i - 1]);
                assert(delivered_names(rest)[i - 1] == chunk.drop_first()[i - 1]);
            }
        }
        assert(delivered_names(d) =~= chunk);
        assert(spec_failures(chunk, outcomes) =~= Seq::<Seq<char>>::empty());
    }
}

/// With every fetch of every worker succeeding, the writer receives, worker
/// by worker, exactly the scheduled chunks: nothing is lost and nothing is
/// fabricated, so a run over a partition of the segment list persists that
/// list in full.
pub proof fn lemma_run_all_success(
    chunks: Seq<Seq<Seq<char>>>,
    outcomes: Seq<Seq<Option<Seq<u8>>>>,
)
    requires
        outcomes.len() == chunks.len(),
        forall|k: int| 0 <= k < chunks.len() ==> (#[trigger] outcomes[k]).len() == chunks[k].len(),
        forall|k: int, i: int|
            0 <= k < chunks.len() && 0 <= i < outcomes[k].len() ==> (#[trigger] outcomes[k][i])
                is Some,
    ensures
        Seq::new(chunks.len(), |k: int| delivered_names(spec_deliveries(chunks[k], outcomes[k])))
            == chunks,
{
    assert forall|k: int| 0 <= k < chunks.len() implies delivered_names(
        spec_deliveries(chunks[k], outcomes[k]),
    ) == chunks[k] by {
        lemma_all_success_delivers_whole_chunk(chunks[k], outcomes[k]);
    }
    assert(Seq::new(
        chunks.len(),
        |k: int| delivered_names(spec_deliveries(chunks[k], outcomes[k])),
    ) =~= chunks);
}

/// Every segment of a chunk ends as exactly one of a delivery or a reported
/// failure: the writer's progress count and the failure report together
/// account for the whole chunk.
pub proof fn lemma_deliveries_and_failures_cover_chunk(
    chunk: Seq<Seq<char>>,
    outcomes: Seq<Option<Seq<u8>>>,
)
    requires
        outcomes.len() == chunk.len(),
    ensures
        spec_deliveries(chunk, outcomes).len() + spec_failures(chunk, outcomes).len()
            == chunk.len(),
    decreases chunk.len(),
{
    if chunk.len() > 0 {
        lemma_deliveries_and_failures_cover_chunk(chunk.drop_first(), outcomes.drop_first());
    }
}

/// Every payload a worker delivers names a segment of its own chunk: the
/// writer is never handed a name that was not scheduled.
pub proof fn lemma_deliveries_from_chunk(chunk: Seq<Seq<char>>, outcomes: Seq<Option<Seq<u8>>>)
    ensures
        forall|p: (Seq<char>, Seq<u8>)|
            spec_deliveries(chunk, outcomes).contains(p) ==> chunk.contains(p.0),
    decreases chunk.len(),
{
    if chunk.len() == 0 || outcomes.len() == 0 {
    } else {
        lemma_deliveries_from_chunk(chunk.drop_first(), outcomes.drop_first());
        assert forall|p: (Seq<char>, Seq<u8>)|
            spec_deliveries(chunk, outcomes).contains(p) implies chunk.contains(p.0) by {
            let rest = spec_deliveries(chunk.drop_first(), outcomes.drop_first());
            if rest.contains(p) {
                let q = choose|q: int| 0 <= q < chunk.drop_first().len() && chunk.drop_first()[q]
                    == p.0;
                assert(chunk[q + 1] == p.0);
            } else {
                assert(outcomes[0] matches Some(body) && p == (chunk[0], body));
                assert(chunk[0] == p.0);
            }
        }
    }
}

} // verus!
