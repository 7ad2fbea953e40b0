//! The registry matcher: keys are dot-separated tuples, a pattern filters
//! them segment by segment with `*` wildcards, and a per-flow predicate
//! picks the candidates out of a snapshot of the store.

use vstd::prelude::*;

use crate::codec::{decode_validation_flow, validation_flow_bytes};
use crate::flow::ValidationFlow;
use crate::strutil::{split_chars, split_string, str_eq};

verus! {

/// Whether the pattern segments accept the key segments: segment counts
/// must agree, unless the pattern ends in a `*` that covers the whole
/// remaining suffix; a `*` segment accepts any one segment, and every other
/// pattern segment must equal its key segment.
pub open spec fn segments_match(ps: Seq<Seq<char>>, ks: Seq<Seq<char>>) -> bool {
    ||| (ps.len() == ks.len() && segments_agree(ps, ks, ps.len() as int))
    ||| (ps.len() >= 1 && ps.len() <= ks.len() && ps.last() == seq!['*'] && segments_agree(
        ps,
        ks,
        ps.len() - 1,
    ))
}

/// The first `n` pattern segments each accept their key segment.
pub open spec fn segments_agree(ps: Seq<Seq<char>>, ks: Seq<Seq<char>>, n: int) -> bool {
    forall|i: int| 0 <= i < n ==> (#[trigger] ps[i]) == seq!['*'] || ps[i] == ks[i]
}

/// Whether the dot-pattern `p` accepts the dot-key `k`.
pub open spec fn key_pattern_match(p: Seq<char>, k: Seq<char>) -> bool {
    segments_match(split_chars(p, '.'), split_chars(k, '.'))
}

/// Whether `pattern` accepts `key`, both read as dot-separated tuples.
pub fn is_matching_key(pattern: &str, key: &str) -> (r: bool)
    ensures
        r == key_pattern_match(pattern@, key@),
{
    let ps = split_string(pattern, '.');
    let ks = split_string(key, '.');
    let ghost psv = split_chars(pattern@, '.');
    let ghost ksv = split_chars(key@, '.');
    proof {
        crate::strutil::lemma_split_chars_len(pattern@, '.');
    }
    let plen = ps.len();
    let klen = ks.len();
    let trailing_wild = str_eq(ps[plen - 1].as_str(), "*");
    proof {
        reveal_strlit("*");
        assert("*"@ =~= seq!['*']);
        assert(ps@[plen - 1]@ == psv[plen - 1]);
        assert(trailing_wild == (psv.last() == seq!['*']));
    }
    let full = plen == klen;
    let covered = trailing_wild && plen <= klen;
    if !full && !covered {
        return false;
    }
    let n = if full && !(trailing_wild && plen <= klen) {
        plen
    } else {
        plen - 1
    };
    let mut i: usize = 0;
    while i < n
        invariant
            0 <= i <= n,
            n <= plen,
            plen == ps@.len(),
            klen == ks@.len(),
            plen == psv.len(),
            klen == ksv.len(),
            n <= klen,
            plen >= 1,
            psv == split_chars(pattern@, '.'),
            ksv == split_chars(key@, '.'),
            (psv.last() == seq!['*']) ==> n == plen - 1,
            n == plen || n == plen - 1,
            forall|j: int| 0 <= j < plen ==> (#[trigger] ps@[j])@ == psv[j],
            forall|j: int| 0 <= j < klen ==> (#[trigger] ks@[j])@ == ksv[j],
            forall|j: int| 0 <= j < i ==> (#[trigger] psv[j]) == seq!['*'] || psv[j] == ksv[j],
        decreases n - i,
    {
        if !str_eq(ps[i].as_str(), "*") && !str_eq(ps[i].as_str(), ks[i].as_str()) {
            proof {
                reveal_strlit("*");
                assert("*"@ =~= seq!['*']);
                assert(ps@[i as int]@ == psv[i as int]);
                assert(ks@[i as int]@ == ksv[i as int]);
                assert(psv[i as int] != seq!['*'] && psv[i as int] != ksv[i as int]);
                assert(!segments_agree(psv, ksv, psv.len() as int));
                if psv.last() == seq!['*'] {
                    assert(i < n && n == psv.len() - 1);
                    assert(!segments_agree(psv, ksv, psv.len() - 1));
                }
                assert(!segments_match(psv, ksv));
            }
            return false;
        }
        proof {
            reveal_strlit("*");
            assert("*"@ =~= seq!['*']);
            assert(ps@[i as int]@ == psv[i as int]);
            assert(ks@[i as int]@ == ksv[i as int]);
        }
        i = i + 1;
    }
    proof {
        if full && !(trailing_wild && plen <= klen) {
            assert(segments_agree(psv, ksv, psv.len() as int));
        } else {
            assert(segments_agree(psv, ksv, psv.len() - 1));
            if full {
                assert(psv.last() == seq!['*'] || psv.last() == ksv[psv.len() - 1]);
                assert(segments_agree(psv, ksv, psv.len() as int));
            }
        }
        assert(segments_match(psv, ksv));
    }
    true
}

/// The outcome of a registry scan: no flow, exactly one, or several.
pub enum FlowIdentifyResult {
    NoFlow,
    Single(ValidationFlow),
    Multiple(Vec<ValidationFlow>),
}

/// The per-candidate test an adapter supplies: a pure predicate on a flow.
pub trait IdentifiableFlow: Sized {
    /// What the predicate holds of.
    spec fn spec_identify(&self, flow: ValidationFlow) -> bool;

    /// Decides whether this flow is one of the adapter's candidates.
    fn identify(&self, flow: &ValidationFlow) -> (r: bool)
        ensures
            r == self.spec_identify(*flow),
    ;
}

/// The candidate flows of a decoded snapshot, in snapshot order: those
/// whose key the pattern accepts and whose predicate holds.
pub open spec fn matching_candidates<I: IdentifiableFlow>(
    ds: Seq<(String, ValidationFlow)>,
    pattern: Seq<char>,
    id: I,
) -> Seq<ValidationFlow>
    decreases ds.len(),
{
    if ds.len() == 0 {
        Seq::empty()
    } else {
        let rest = matching_candidates(ds.drop_first(), pattern, id);
        if key_pattern_match(pattern, ds.first().0@) && id.spec_identify(ds.first().1) {
            seq![ds.first().1] + rest
        } else {
            rest
        }
    }
}

/// How a scan outcome reflects the candidate list: empty, a sole
/// candidate, or all of them (two or more).
pub open spec fn result_matches(r: FlowIdentifyResult, cands: Seq<ValidationFlow>) -> bool {
    match r {
        FlowIdentifyResult::NoFlow => cands.len() == 0,
        FlowIdentifyResult::Single(f) => cands.len() == 1 && f == cands[0],
        FlowIdentifyResult::Multiple(fs) => cands.len() >= 2 && fs@ == cands,
    }
}

/// Classifies a decoded snapshot against a pattern and a predicate.
pub fn match_decoded<I: IdentifiableFlow>(
    ds: Vec<(String, ValidationFlow)>,
    pattern: &str,
    id: &I,
) -> (r: FlowIdentifyResult)
    ensures
        result_matches(r, matching_candidates(ds@, pattern@, *id)),
{
    let ghost orig = ds@;
    let mut ds = ds;
    let mut collected: Vec<ValidationFlow> = Vec::new();
    while ds.len() > 0
        invariant
            collected@ + matching_candidates(ds@, pattern@, *id) == matching_candidates(
                orig,
                pattern@,
                *id,
            ),
        decreases ds@.len(),
    {
        let ghost before = ds@;
        let (key, flow) = ds.remove(0);
        proof {
            assert(ds@ =~= before.drop_first());
            assert(before.first() == (key, flow));
        }
        if is_matching_key(pattern, key.as_str()) && id.identify(&flow) {
            collected.push(flow);
            proof {
                assert(collected@ + matching_candidates(ds@, pattern@, *id) =~= matching_candidates(
                    orig,
                    pattern@,
                    *id,
                ));
            }
        } else {
            proof {
                assert(collected@ + matching_candidates(ds@, pattern@, *id) =~= matching_candidates(
                    orig,
                    pattern@,
                    *id,
                ));
            }
        }
    }
    proof {
        assert(matching_candidates(ds@, pattern@, *id) =~= Seq::<ValidationFlow>::empty());
        assert(collected@ =~= matching_candidates(orig, pattern@, *id));
    }
    if collected.len() == 0 {
        FlowIdentifyResult::NoFlow
    } else if collected.len() == 1 {
        let f = collected.remove(0);
        FlowIdentifyResult::Single(f)
    } else {
        FlowIdentifyResult::Multiple(collected)
    }
}

/// One decoded snapshot entry traces back to one raw entry: same key, and
/// the raw bytes are the wire bytes of the decoded flow.
pub open spec fn decoded_via(
    entries: Seq<(String, Vec<u8>)>,
    ds: Seq<(String, ValidationFlow)>,
    m: Seq<int>,
) -> bool {
    &&& m.len() == ds.len()
    &&& forall|i: int| 0 <= i < m.len() ==> 0 <= #[trigger] m[i] < entries.len()
    &&& forall|i: int, j: int| 0 <= i < j < m.len() ==> #[trigger] m[i] < #[trigger] m[j]
    &&& forall|i: int|
        0 <= i < ds.len() ==> (#[trigger] ds[i]).0 == entries[m[i]].0 && entries[m[i]].1@
            == validation_flow_bytes(ds[i].1)
}

/// The decoded snapshot keeps, in order, exactly the entries that decode.
pub open spec fn decoded_consistent(
    entries: Seq<(String, Vec<u8>)>,
    ds: Seq<(String, ValidationFlow)>,
) -> bool {
    exists|m: Seq<int>| decoded_via(entries, ds, m)
}

/// Decodes a raw snapshot of the store; entries that do not decode are
/// dropped from this scan.
pub fn decode_entries(entries: Vec<(String, Vec<u8>)>) -> (r: Vec<(String, ValidationFlow)>)
    ensures
        decoded_consistent(entries@, r@),
{
    let mut out: Vec<(String, ValidationFlow)> = Vec::new();
    let ghost mut m: Seq<int> = Seq::empty();
    let mut i: usize = 0;
    while i < entries.len()
        invariant
            0 <= i <= entries@.len(),
            m.len() == out@.len(),
            forall|k: int| 0 <= k < m.len() ==> 0 <= #[trigger] m[k] < i,
            forall|k: int, j: int| 0 <= k < j < m.len() ==> #[trigger] m[k] < #[trigger] m[j],
            forall|k: int|
                0 <= k < out@.len() ==> (#[trigger] out@[k]).0 == entries@[m[k]].0
                    && entries@[m[k]].1@ == validation_flow_bytes(out@[k].1),
        decreases entries@.len() - i,
    {
        match decode_validation_flow(&entries[i].1) {
            Some(flow) => {
                let key = entries[i].0.clone();
                proof {
                    assert(key == entries@[i as int].0);
                }
                out.push((key, flow));
                proof {
                    m = m.push(i as int);
                }
            },
            None => {},
        }
        i = i + 1;
    }
    proof {
        assert(decoded_via(entries@, out@, m));
    }
    out
}

/// Whether some entry of the snapshot carries a matching key and stores
/// exactly the wire bytes of `f`, with the predicate holding of `f`.
pub open spec fn flow_selected<I: IdentifiableFlow>(
    entries: Seq<(String, Vec<u8>)>,
    pattern: Seq<char>,
    id: I,
    f: ValidationFlow,
) -> bool {
    exists|j: int|
        0 <= j < entries.len() && key_pattern_match(pattern, (#[trigger] entries[j]).0@)
            && entries[j].1@ == validation_flow_bytes(f) && id.spec_identify(f)
}

/// Every candidate of a decoded snapshot is one of its pattern-matching,
/// predicate-passing pairs.
proof fn lemma_matching_candidates_from<I: IdentifiableFlow>(
    ds: Seq<(String, ValidationFlow)>,
    pattern: Seq<char>,
    id: I,
)
    ensures
        forall|k: int|
            0 <= k < matching_candidates(ds, pattern, id).len() ==> exists|j: int|
                0 <= j < ds.len() && #[trigger] matching_candidates(ds, pattern, id)[k] == (
                #[trigger] ds[j]).1 && key_pattern_match(pattern, ds[j].0@) && id.spec_identify(
                    ds[j].1,
                ),
    decreases ds.len(),
{
    if ds.len() > 0 {
        lemma_matching_candidates_from(ds.drop_first(), pattern, id);
        let mc = matching_candidates(ds, pattern, id);
        let rest = matching_candidates(ds.drop_first(), pattern, id);
        assert forall|k: int| 0 <= k < mc.len() implies exists|j: int|
            0 <= j < ds.len() && #[trigger] mc[k] == (#[trigger] ds[j]).1 && key_pattern_match(
                pattern,
                ds[j].0@,
            ) && id.spec_identify(ds[j].1) by {
            if key_pattern_match(pattern, ds.first().0@) && id.spec_identify(ds.first().1) {
                if k == 0 {
                    assert(mc[0] == ds[0].1 && key_pattern_match(pattern, ds[0].0@)
                        && id.spec_identify(ds[0].1));
                } else {
                    assert(mc[k] == rest[k - 1]);
                    let j0 = choose|j0: int|
                        0 <= j0 < ds.drop_first().len() && rest[k - 1] == ds.drop_first()[j0].1
                            && key_pattern_match(pattern, ds.drop_first()[j0].0@)
                            && id.spec_identify(ds.drop_first()[j0].1);
                    assert(ds.drop_first()[j0] == ds[j0 + 1]);
                    assert(mc[k] == ds[j0 + 1].1 && key_pattern_match(pattern, ds[j0 + 1].0@)
                        && id.spec_identify(ds[j0 + 1].1));
                }
            } else {
                assert(mc[k] == rest[k]);
                let j0 = choose|j0: int|
                    0 <= j0 < ds.drop_first().len() && rest[k] == ds.drop_first()[j0].1
                        && key_pattern_match(pattern, ds.drop_first()[j0].0@) && id.spec_identify(
                        ds.drop_first()[j0].1,
                    );
                assert(ds.drop_first()[j0] == ds[j0 + 1]);
                assert(mc[k] == ds[j0 + 1].1 && key_pattern_match(pattern, ds[j0 + 1].0@)
                    && id.spec_identify(ds[j0 + 1].1));
            }
        }
    }
}

/// Scans a raw snapshot: filters keys by the pattern, decodes each hit,
/// applies the predicate, and classifies what is left. Entries that do not
/// decode are dropped; the outcome reflects the surviving candidates, and
/// every returned flow traces back to a matching entry that stores it.
pub fn get_possible_flow_match<I: IdentifiableFlow>(
    entries: Vec<(String, Vec<u8>)>,
    pattern: &str,
    id: &I,
) -> (r: FlowIdentifyResult)
    ensures
        exists|ds: Seq<(String, ValidationFlow)>|
            decoded_consistent(entries@, ds) && result_matches(
                r,
                matching_candidates(ds, pattern@, *id),
            ),
        r matches FlowIdentifyResult::Single(f) ==> flow_selected(entries@, pattern@, *id, f),
        r matches FlowIdentifyResult::Multiple(fs) ==> forall|k: int|
            0 <= k < fs@.len() ==> flow_selected(entries@, pattern@, *id, #[trigger] fs@[k]),
{
    let ghost entries_v = entries@;
    let decoded = decode_entries(entries);
    let ghost ds = decoded@;
    let r = match_decoded(decoded, pattern, id);
    proof {
        assert(decoded_consistent(entries_v, ds) && result_matches(
            r,
            matching_candidates(ds, pattern@, *id),
        ));
        let m = choose|m: Seq<int>| decoded_via(entries_v, ds, m);
        lemma_matching_candidates_from(ds, pattern@, *id);
        let mc = matching_candidates(ds, pattern@, *id);
        match &r {
            FlowIdentifyResult::Single(f) => {
                let j = choose|j: int|
                    0 <= j < ds.len() && mc[0] == ds[j].1 && key_pattern_match(
                        pattern@,
                        ds[j].0@,
                    ) && id.spec_identify(ds[j].1);
                assert(0 <= m[j] < entries_v.len() && key_pattern_match(
                    pattern@,
                    entries_v[m[j]].0@,
                ) && entries_v[m[j]].1@ == validation_flow_bytes(*f) && id.spec_identify(*f));
            },
            FlowIdentifyResult::Multiple(fs) => {
                assert forall|k: int|
                    0 <= k < fs@.len() implies flow_selected(
                    entries_v,
                    pattern@,
                    *id,
                    #[trigger] fs@[k],
                ) by {
                    let j = choose|j: int|
                        0 <= j < ds.len() && mc[k] == ds[j].1 && key_pattern_match(
                            pattern@,
                            ds[j].0@,
                        ) && id.spec_identify(ds[j].1);
                    assert(0 <= m[j] < entries_v.len() && key_pattern_match(
                        pattern@,
                        entries_v[m[j]].0@,
                    ) && entries_v[m[j]].1@ == validation_flow_bytes(fs@[k]) && id.spec_identify(
                        fs@[k],
                    ));
                }
            },
            FlowIdentifyResult::NoFlow => {},
        }
    }
    r
}

/// For one decoded snapshot, a pattern and a predicate, the outcome class
/// is a function of the snapshot: two scans agree on the class, and when a
/// single flow is chosen, on its identity.
pub proof fn lemma_match_class_deterministic<I: IdentifiableFlow>(
    ds: Seq<(String, ValidationFlow)>,
    pattern: Seq<char>,
    id: I,
    r1: FlowIdentifyResult,
    r2: FlowIdentifyResult,
)
    requires
        result_matches(r1, matching_candidates(ds, pattern, id)),
        result_matches(r2, matching_candidates(ds, pattern, id)),
    ensures
        r1 is NoFlow <==> r2 is NoFlow,
        r1 is Single <==> r2 is Single,
        r1 is Multiple <==> r2 is Multiple,
        r1 matches FlowIdentifyResult::Single(f1) ==> (r2 matches FlowIdentifyResult::Single(f2)
            && f1 == f2),
{
}

} // verus!
