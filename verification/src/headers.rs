//! Loading the header set from a key/value document.
//!
//! The document is a flat JSON object mapping header names to values. Every
//! entry whose value is a string becomes a header entry, in the order the
//! parser yields the entries; entries with any other kind of value are
//! skipped. A document that does not parse is a fatal configuration error,
//! while a document that parses to something other than an object simply
//! contributes no entries.

use vstd::prelude::*;
use crate::FatalError;

verus! {

/// The top-level entries of a JSON document: `None` when the document does
/// not parse; otherwise one pair per entry of the top-level object (an empty
/// sequence for any other top-level value), each pair holding the key and,
/// for string values only, the value.
pub uninterp spec fn json_top_entries(doc: Seq<char>) -> Option<
    Seq<(Seq<char>, Option<Seq<char>>)>,
>;

/// Relies on serde_json::from_str::<serde_json::Value>: the parse is a
/// function of the text alone, and a top-level object yields its entries in
/// the parser's iteration order.
#[verifier::external_body]
fn parse_json_entries(doc: &str) -> (r: Option<Vec<(String, Option<String>)>>)
    ensures
        r.deep_view() == json_top_entries(doc@),
{
    match serde_json::from_str::<serde_json::Value>(doc) {
        Err(_) => None,
        Ok(serde_json::Value::Object(map)) => Some(
            map.into_iter().map(
                |kv: (String, serde_json::Value)|
                    match kv.1 {
                        serde_json::Value::String(s) => (kv.0, Some(s)),
                        _ => (kv.0, None),
                    },
            ).collect(),
        ),
        Ok(_) => Some(Vec::new()),
    }
}

/// The entries with a string value, in order, with the value unwrapped.
pub open spec fn spec_string_entries(entries: Seq<(Seq<char>, Option<Seq<char>>)>) -> Seq<
    (Seq<char>, Seq<char>),
>
    decreases entries.len(),
{
    if entries.len() == 0 {
        seq![]
    } else {
        let rest = spec_string_entries(entries.drop_first());
        match entries[0].1 {
            Some(v) => seq![(entries[0].0, v)] + rest,
            None => rest,
        }
    }
}

/// The header set described by a header document.
///
/// Returns one entry per string-valued entry of the document's top-level
/// object, in order, and fails exactly when the document does not parse.
pub fn header_entries(doc: &str) -> (r: Result<Vec<(String, String)>, FatalError>)
    ensures
        r is Ok <==> json_top_entries(doc@) is Some,
        r matches Ok(hs) ==> hs.deep_view() == spec_string_entries(
            json_top_entries(doc@)->Some_0,
        ),
        r matches Err(e) ==> e is MalformedHeaderDoc,
{
    match parse_json_entries(doc) {
        None => Err(FatalError::MalformedHeaderDoc),
        Some(entries) => {
            let ghost all = entries.deep_view();
            let mut out: Vec<(String, String)> = Vec::new();
            let mut i: usize = 0;
            proof {
                assert(all.skip(0) =~= all);
                assert(out.deep_view() + spec_string_entries(all) =~= spec_string_entries(all));
            }
            while i < entries.len()
                invariant
                    i <= entries.len(),
                    all == entries.deep_view(),
                    out.deep_view() + spec_string_entries(all.skip(i as int))
                        == spec_string_entries(all),
                decreases entries.len() - i,
            {
                let ghost prev = out.deep_view();
                let ghost suffix = all.skip(i as int);
                proof {
                    assert(suffix.drop_first() =~= all.skip(i as int + 1));
                    assert(suffix[0] == all[i as int]);
                }
                let (k, v) = &entries[i];
                match v {
                    Some(s) => {
                        out.push((k.clone(), s.clone()));
                        assert(out.deep_view() =~= prev + seq![(all[i as int].0, all[i as int].1->Some_0)]);
                        assert(out.deep_view() + spec_string_entries(all.skip(i as int + 1))
                            =~= prev + spec_string_entries(suffix));
                    },
                    None => {
                        assert(out.deep_view() + spec_string_entries(all.skip(i as int + 1))
                            =~= prev + spec_string_entries(suffix));
                    },
                }
                i = i + 1;
            }
            proof {
                assert(all.skip(all.len() as int) =~= Seq::<(Seq<char>, Option<Seq<char>>)>::empty());
                assert(out.deep_view() =~= spec_string_entries(all));
            }
            Ok(out)
        },
    }
}

} // verus!
