//! Resume filtering: dropping segments that are already on disk.
//!
//! When a run resumes, every segment whose file already exists under the
//! output directory is removed from the plan, and the relative order of the
//! remaining segments is preserved. Existence is a plain path test: a
//! partially written file counts as complete. The decision logic is a pure
//! function of the segment list and one presence flag per segment; only the
//! path test itself asks the disk.

use vstd::prelude::*;
use crate::M3U8;

verus! {

/// The names whose presence flag is false, in their original order.
pub open spec fn spec_keep_absent(names: Seq<Seq<char>>, present: Seq<bool>) -> Seq<Seq<char>>
    decreases names.len(),
{
    if names.len() == 0 {
        seq![]
    } else {
        let rest = spec_keep_absent(names.drop_first(), present.drop_first());
        if present.len() > 0 && present[0] {
            rest
        } else {
            seq![names[0]] + rest
        }
    }
}

/// Keeps, in order, exactly the names whose presence flag is false.
pub fn resume_filter(names: &Vec<String>, present: &Vec<bool>) -> (r: Vec<String>)
    requires
        present@.len() == names@.len(),
    ensures
        r.deep_view() == spec_keep_absent(names.deep_view(), present@),
{
    let ghost all = names.deep_view();
    let mut out: Vec<String> = Vec::new();
    let mut i: usize = 0;
    proof {
        assert(all.skip(0) =~= all);
        assert(present@.skip(0) =~= present@);
        assert(out.deep_view() + spec_keep_absent(all, present@) =~= spec_keep_absent(
            all,
            present@,
        ));
    }
    while i < names.len()
        invariant
            i <= names@.len(),
            present@.len() == names@.len(),
            all == names.deep_view(),
            out.deep_view() + spec_keep_absent(all.skip(i as int), present@.skip(i as int))
                == spec_keep_absent(all, present@),
        decreases names@.len() - i,
    {
        let ghost prev = out.deep_view();
        let ghost suffix = all.skip(i as int);
        let ghost flags = present@.skip(i as int);
        proof {
            assert(suffix.drop_first() =~= all.skip(i as int + 1));
            assert(flags.drop_first() =~= present@.skip(i as int + 1));
            assert(suffix[0] == all[i as int]);
        }
        if !present[i] {
            out.push(names[i].clone());
            assert(out.deep_view() =~= prev + seq![all[i as int]]);
        }
        assert(out.deep_view() + spec_keep_absent(
            all.skip(i as int + 1),
            present@.skip(i as int + 1),
        ) =~= prev + spec_keep_absent(suffix, flags));
        i = i + 1;
    }
    proof {
        assert(all.skip(all.len() as int) =~= Seq::<Seq<char>>::empty());
        assert(out.deep_view() =~= spec_keep_absent(all, present@));
    }
    out
}

/// Filtering keeps a list with no present segment unchanged: in particular,
/// filtering an already-filtered list a second time changes nothing.
pub proof fn lemma_resume_filter_none_present(names: Seq<Seq<char>>, present: Seq<bool>)
    requires
        present.len() == names.len(),
        forall|k: int| 0 <= k < present.len() ==> !present[k],
    ensures
        spec_keep_absent(names, present) == names,
    decreases names.len(),
{
    if names.len() > 0 {
        lemma_resume_filter_none_present(names.drop_first(), present.drop_first());
        assert(spec_keep_absent(names, present) =~= names);
    } else {
        assert(spec_keep_absent(names, present) =~= names);
    }
}

/// Filtering against a directory that already holds every segment leaves
/// nothing to do.
pub proof fn lemma_resume_filter_all_present(names: Seq<Seq<char>>, present: Seq<bool>)
    requires
        present.len() == names.len(),
        forall|k: int| 0 <= k < present.len() ==> present[k],
    ensures
        spec_keep_absent(names, present) == Seq::<Seq<char>>::empty(),
    decreases names.len(),
{
    if names.len() > 0 {
        lemma_resume_filter_all_present(names.drop_first(), present.drop_first());
        assert(spec_keep_absent(names, present) =~= Seq::<Seq<char>>::empty());
    } else {
        assert(spec_keep_absent(names, present) =~= Seq::<Seq<char>>::empty());
    }
}

/// Relies on std::path::Path::exists, on the path obtained by joining `dir`
/// with `name`; the answer depends on the state of the disk, so nothing is
/// promised of it.
#[verifier::external_body]
fn path_exists(dir: &str, name: &str) -> bool {
    std::path::Path::new(dir).join(name).exists()
}

impl M3U8 {
    /// Whether the file for segment `ts` already exists under the output
    /// directory. The existence test is a plain path test against the disk,
    /// so nothing is promised of the answer.
    pub fn check_exist(&self, ts: &str) -> bool {
        path_exists(self.output.as_str(), ts)
    }

    /// Drops every segment whose file already exists under the output
    /// directory, keeping the rest in order. The disk may answer the
    /// existence test either way for each segment, so the result is pinned
    /// only relative to the answers observed: it is the filtered list for
    /// some vector of presence flags.
    pub fn filter_existing(&self, names: &Vec<String>) -> (r: Vec<String>)
        ensures
            exists|present: Seq<bool>|
                present.len() == names.deep_view().len() && r.deep_view() == spec_keep_absent(
                    names.deep_view(),
                    present,
                ),
    {
        let mut present: Vec<bool> = Vec::new();
        let mut i: usize = 0;
        while i < names.len()
            invariant
                i <= names@.len(),
                present@.len() == i,
            decreases names@.len() - i,
        {
            present.push(self.check_exist(names[i].as_str()));
            i = i + 1;
        }
        let r = resume_filter(names, &present);
        proof {
            assert(present@.len() == names.deep_view().len() && r.deep_view() == spec_keep_absent(
                names.deep_view(),
                present@,
            ));
        }
        r
    }
}

} // verus!
