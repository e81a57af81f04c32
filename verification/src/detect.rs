//! Encoding-conformance detection.
//!
//! Single-target mode checks one byte buffer against one encoding under a
//! byte-order-mark policy and yields a verdict. Multi-probe mode tries every
//! encoding of a name list and reports each under which the buffer strictly
//! decodes, together with a preview of the decoded text's first line.

use vstd::prelude::*;
use vstd::string::StrSliceExecFns;
use vstd::string::StringExecFns;

use crate::codec::{
    canonical_name, decode_at, find_registry_index, in_registry, registry_name, strict_decode,
    EncodingDescriptor,
};

verus! {

/// How the presence or absence of a byte-order mark affects the verdict.
#[derive(Clone, Copy, Debug, PartialEq, Eq)]
pub enum EBomPolicy {
    /// The byte-order mark is not examined at all.
    EIgnore,
    /// The buffer must start with the encoding's byte-order mark.
    EWithBom,
    /// The buffer must not start with the encoding's byte-order mark.
    EWithoutBom,
}

/// The verdict of a single-target conformance check. The two no-match cases
/// are valid negative outcomes, not errors.
#[derive(Clone, Copy, Debug, PartialEq, Eq)]
pub enum Verdict {
    /// The buffer satisfies the policy and strictly decodes.
    Match,
    /// Some byte sequence in the buffer is invalid under the encoding.
    NoMatchDecodeFailed,
    /// The byte-order-mark policy disqualified the buffer before decoding.
    NoMatchBomPolicyViolated,
}

/// The canonical byte-order mark of the encoding with the given name; empty
/// for encodings that have none.
pub open spec fn bom_of(name: Seq<char>) -> Seq<u8> {
    if name == "utf-8"@ {
        seq![0xEFu8, 0xBBu8, 0xBFu8]
    } else if name == "utf-16be"@ {
        seq![0xFEu8, 0xFFu8]
    } else if name == "utf-16le"@ {
        seq![0xFFu8, 0xFEu8]
    } else {
        Seq::empty()
    }
}

/// Whether `data` starts with `pre`.
pub open spec fn has_prefix(data: Seq<u8>, pre: Seq<u8>) -> bool {
    pre.len() <= data.len() && data.take(pre.len() as int) == pre
}

/// The single-target verdict for a buffer, an encoding name, and a policy.
///
/// The byte-order-mark test runs first and never attempts a decode: under
/// `EWithBom` a buffer lacking the mark (or too short for it) is disqualified
/// at once; under `EWithoutBom` a buffer carrying the mark is disqualified even
/// if its bytes would decode. An encoding without a mark passes that test
/// under either policy, and the strict decoder alone decides.
pub open spec fn spec_matches(data: Seq<u8>, name: Seq<char>, policy: EBomPolicy) -> Verdict {
    let bom = bom_of(name);
    if policy is EWithBom && !has_prefix(data, bom) {
        Verdict::NoMatchBomPolicyViolated
    } else if policy is EWithoutBom && bom.len() > 0 && has_prefix(data, bom) {
        Verdict::NoMatchBomPolicyViolated
    } else if strict_decode(name, data) is Some {
        Verdict::Match
    } else {
        Verdict::NoMatchDecodeFailed
    }
}

/// The canonical byte-order mark of the given encoding.
pub fn get_bom_mark(e: &EncodingDescriptor) -> (r: Vec<u8>)
    ensures
        r@ == bom_of(e.name_view()),
{
    let name: &String = e.name();
    if *name == String::from_str("utf-8") {
        let mut v: Vec<u8> = Vec::new();
        v.push(0xEF);
        v.push(0xBB);
        v.push(0xBF);
        proof {
            assert(v@ =~= bom_of(e.name_view()));
        }
        v
    } else if *name == String::from_str("utf-16be") {
        let mut v: Vec<u8> = Vec::new();
        v.push(0xFE);
        v.push(0xFF);
        proof {
            assert(v@ =~= bom_of(e.name_view()));
        }
        v
    } else if *name == String::from_str("utf-16le") {
        let mut v: Vec<u8> = Vec::new();
        v.push(0xFF);
        v.push(0xFE);
        proof {
            assert(v@ =~= bom_of(e.name_view()));
        }
        v
    } else {
        Vec::new()
    }
}

/// Whether `data` starts with `pre`, executably.
fn data_has_prefix(data: &Vec<u8>, pre: &Vec<u8>) -> (r: bool)
    ensures
        r == has_prefix(data@, pre@),
{
    if pre.len() > data.len() {
        return false;
    }
    let mut i: usize = 0;
    while i < pre.len()
        invariant
            i <= pre.len() <= data.len(),
            forall|k: int| 0 <= k < i ==> data@[k] == pre@[k],
        decreases pre.len() - i,
    {
        if data[i] != pre[i] {
            proof {
                assert(data@.take(pre@.len() as int)[i as int] != pre@[i as int]);
            }
            return false;
        }
        i = i + 1;
    }
    proof {
        assert(data@.take(pre@.len() as int) =~= pre@);
    }
    true
}

/// The single-target conformance verdict for `data` against the target
/// encoding `e` under `bom_policy`.
pub fn check_conformance(data: &Vec<u8>, e: &EncodingDescriptor, bom_policy: &EBomPolicy) -> (v:
    Verdict)
    ensures
        v == spec_matches(data@, e.name_view(), *bom_policy),
{
    let bom = get_bom_mark(e);
    match bom_policy {
        EBomPolicy::EIgnore => {},
        EBomPolicy::EWithBom => {
            if !data_has_prefix(data, &bom) {
                return Verdict::NoMatchBomPolicyViolated;
            }
        },
        EBomPolicy::EWithoutBom => {
            if bom.len() > 0 && data_has_prefix(data, &bom) {
                return Verdict::NoMatchBomPolicyViolated;
            }
        },
    }
    match e.decode(data) {
        Some(_) => Verdict::Match,
        None => Verdict::NoMatchDecodeFailed,
    }
}

/// Whether `data` conforms to the encoding `e` under `bom_policy`.
pub fn is_same_encoding(data: &Vec<u8>, e: &EncodingDescriptor, bom_policy: &EBomPolicy) -> (r:
    bool)
    ensures
        r == (spec_matches(data@, e.name_view(), *bom_policy) is Match),
{
    match check_conformance(data, e, bom_policy) {
        Verdict::Match => true,
        _ => false,
    }
}

/// Resolves `label` and checks `data` against the encoding it names; `None`
/// exactly when no encoding of the registry answers to `label`.
pub fn check_with_label(data: &Vec<u8>, label: &str, bom_policy: &EBomPolicy) -> (r: Option<
    Verdict,
>)
    ensures
        r is Some <==> (canonical_name(label@) is Some && in_registry(canonical_name(label@)->0)),
        r is Some ==> r->0 == spec_matches(data@, canonical_name(label@)->0, *bom_policy),
{
    match EncodingDescriptor::lookup(label) {
        Ok(e) => Some(check_conformance(data, &e, bom_policy)),
        Err(_) => None,
    }
}

/// A preview is cut after this many characters of the first line.
pub const PREVIEW_LEN: usize = 60;

/// Whether `c` ends the first line of a text.
pub open spec fn is_line_break(c: char) -> bool {
    c == '\n' || c == '\r'
}

/// How many leading characters of `t` a preview keeps: characters up to the
/// first line break, and at most `max`. Truncation counts characters, never
/// bytes, so a multi-byte character is kept or dropped whole.
pub open spec fn preview_cut(t: Seq<char>, max: int) -> int
    decreases max,
{
    if max <= 0 || t.len() == 0 {
        0
    } else if is_line_break(t[0]) {
        0
    } else {
        1 + preview_cut(t.drop_first(), max - 1)
    }
}

/// The preview of a decoded text: its first line, cut after
/// [`PREVIEW_LEN`] characters.
pub open spec fn preview_of(t: Seq<char>) -> Seq<char> {
    t.take(preview_cut(t, PREVIEW_LEN as int))
}

/// The cut point is the first position that reaches `max`, a line break, or
/// the end of the text.
proof fn lemma_preview_cut(t: Seq<char>, max: int)
    requires
        max >= 0,
    ensures
        0 <= preview_cut(t, max) <= max,
        preview_cut(t, max) <= t.len(),
        forall|k: int| 0 <= k < preview_cut(t, max) ==> !is_line_break(t[k]),
        preview_cut(t, max) < max && preview_cut(t, max) < t.len() ==> is_line_break(
            t[preview_cut(t, max)],
        ),
    decreases max,
{
    if max <= 0 || t.len() == 0 {
    } else if is_line_break(t[0]) {
    } else {
        lemma_preview_cut(t.drop_first(), max - 1);
        let c = preview_cut(t, max);
        assert(c == 1 + preview_cut(t.drop_first(), max - 1));
        assert forall|k: int| 0 <= k < c implies !is_line_break(t[k]) by {
            if k > 0 {
                assert(t.drop_first()[k - 1] == t[k]);
            }
        }
        if c < max && c < t.len() {
            assert(t.drop_first()[c - 1] == t[c]);
        }
    }
}

/// The first line of `text`, cut after [`PREVIEW_LEN`] characters.
pub fn first_line_preview(text: &String) -> (r: String)
    ensures
        r@ == preview_of(text@),
{
    let len = text.as_str().unicode_len();
    let mut end: usize = 0;
    while end < len && end < PREVIEW_LEN
        invariant
            len == text@.len(),
            end <= len,
            end <= PREVIEW_LEN,
            forall|k: int| 0 <= k < end ==> !is_line_break(text@[k]),
        ensures
            len == text@.len(),
            end <= len,
            end <= PREVIEW_LEN,
            forall|k: int| 0 <= k < end ==> !is_line_break(text@[k]),
            end < len && end < PREVIEW_LEN ==> is_line_break(text@[end as int]),
        decreases len - end,
    {
        let c = text.as_str().get_char(end);
        if c == '\n' || c == '\r' {
            break ;
        }
        end = end + 1;
    }
    proof {
        lemma_preview_cut(text@, PREVIEW_LEN as int);
        let cut = preview_cut(text@, PREVIEW_LEN as int);
        if cut < end {
            assert(is_line_break(text@[cut]));
            assert(false);
        }
        if cut > end {
            assert(!is_line_break(text@[end as int]));
            assert(false);
        }
    }
    String::from_str(text.as_str().substring_char(0, end))
}

/// One probe result: an encoding the buffer decodes under, and the preview of
/// the decoded text.
pub struct ProbeMatch {
    pub encoding: String,
    pub preview: String,
}

/// The views of a list of encoding names.
pub open spec fn name_views(names: Seq<String>) -> Seq<Seq<char>> {
    names.map_values(|s: String| s@)
}

/// The probe results for `data` over `names`, in list order: one pair of name
/// and preview for each name of the registry under which `data` strictly
/// decodes. The byte-order-mark policy plays no part here.
pub open spec fn probe_spec(data: Seq<u8>, names: Seq<Seq<char>>) -> Seq<(Seq<char>, Seq<char>)>
    decreases names.len(),
{
    if names.len() == 0 {
        Seq::empty()
    } else {
        let rest = probe_spec(data, names.drop_last());
        let nm = names.last();
        if in_registry(nm) && strict_decode(nm, data) is Some {
            rest.push((nm, preview_of(strict_decode(nm, data)->0)))
        } else {
            rest
        }
    }
}

/// The probe command: reports every encoding a buffer could plausibly be in.
pub struct DetectEncodingCmd;

impl DetectEncodingCmd {
    /// Probes `data` against each named encoding in turn; names that no
    /// registry entry answers to are passed over.
    pub fn probe_all(data: &Vec<u8>, names: &Vec<String>) -> (r: Vec<ProbeMatch>)
        ensures
            r@.len() == probe_spec(data@, name_views(names@)).len(),
            forall|k: int|
                0 <= k < r@.len() ==> r@[k].encoding@ == probe_spec(data@, name_views(names@))[k].0
                    && r@[k].preview@ == probe_spec(data@, name_views(names@))[k].1,
    {
        let mut out: Vec<ProbeMatch> = Vec::new();
        let mut i: usize = 0;
        while i < names.len()
            invariant
                i <= names@.len(),
                out@.len() == probe_spec(data@, name_views(names@).take(i as int)).len(),
                forall|k: int|
                    0 <= k < out@.len() ==> out@[k].encoding@ == probe_spec(
                        data@,
                        name_views(names@).take(i as int),
                    )[k].0 && out@[k].preview@ == probe_spec(
                        data@,
                        name_views(names@).take(i as int),
                    )[k].1,
            decreases names@.len() - i,
        {
            let ghost prefix = name_views(names@).take(i as int);
            let ghost prefix1 = name_views(names@).take(i as int + 1);
            proof {
                assert(prefix1.drop_last() =~= prefix);
                assert(prefix1.last() == names@[i as int]@);
            }
            match find_registry_index(&names[i]) {
                Some(index) => {
                    match decode_at(index, data) {
                        Some(text) => {
                            let preview = first_line_preview(&text);
                            out.push(ProbeMatch { encoding: names[i].clone(), preview });
                        },
                        None => {},
                    }
                },
                None => {},
            }
            i = i + 1;
        }
        proof {
            assert(name_views(names@).take(names@.len() as int) =~= name_views(names@));
        }
        out
    }

    /// Probes `data` against every encoding of the registry, in registry
    /// order.
    pub fn probe_registry(data: &Vec<u8>) -> (r: Vec<ProbeMatch>)
        ensures
            exists|names: Seq<Seq<char>>|
                #![auto]
                (forall|k: int| 0 <= k < names.len() ==> registry_name(k) == Some(names[k]))
                    && registry_name(names.len() as int) is None && r@.len() == probe_spec(
                    data@,
                    names,
                ).len() && (forall|k: int|
                    0 <= k < r@.len() ==> r@[k].encoding@ == probe_spec(data@, names)[k].0
                        && r@[k].preview@ == probe_spec(data@, names)[k].1),
    {
        let names = crate::codec::registry_names();
        let r = Self::probe_all(data, &names);
        proof {
            let ghost nv = name_views(names@);
            assert(forall|k: int| 0 <= k < nv.len() ==> registry_name(k) == Some(nv[k]));
            assert(registry_name(nv.len() as int) is None);
        }
        r
    }
}

/// Every probe entry names a registry encoding that the buffer strictly
/// decodes under, and carries the preview of that decoded text.
pub proof fn lemma_probe_entries(data: Seq<u8>, names: Seq<Seq<char>>)
    ensures
        forall|k: int|
            #![auto]
            0 <= k < probe_spec(data, names).len() ==> in_registry(probe_spec(data, names)[k].0)
                && strict_decode(probe_spec(data, names)[k].0, data) is Some && probe_spec(
                data,
                names,
            )[k].1 == preview_of(strict_decode(probe_spec(data, names)[k].0, data)->0),
    decreases names.len(),
{
    if names.len() == 0 {
    } else {
        lemma_probe_entries(data, names.drop_last());
    }
}

/// A name that stands in the list and in the registry, and that the buffer
/// strictly decodes under, appears in the probe results.
pub proof fn lemma_probe_complete(data: Seq<u8>, names: Seq<Seq<char>>, name: Seq<char>)
    requires
        names.contains(name),
        in_registry(name),
        strict_decode(name, data) is Some,
    ensures
        exists|k: int|
            0 <= k < probe_spec(data, names).len() && #[trigger] probe_spec(data, names)[k].0
                == name,
    decreases names.len(),
{
    let j = choose|j: int| 0 <= j < names.len() && names[j] == name;
    let r = probe_spec(data, names);
    if names.last() == name {
        let rest = probe_spec(data, names.drop_last());
        assert(r[rest.len() as int].0 == name);
    } else {
        assert(names.drop_last()[j] == name);
        lemma_probe_complete(data, names.drop_last(), name);
        let k = choose|k: int|
            0 <= k < probe_spec(data, names.drop_last()).len() && #[trigger] probe_spec(
                data,
                names.drop_last(),
            )[k].0 == name;
        assert(r[k].0 == name);
    }
}

/// For every byte buffer and every encoding of the registry, a single-target
/// check under the `EIgnore` policy succeeds exactly when probing the buffer
/// reports that encoding.
pub proof fn lemma_match_iff_probed(data: Seq<u8>, names: Seq<Seq<char>>, name: Seq<char>)
    requires
        names.contains(name),
        in_registry(name),
    ensures
        (spec_matches(data, name, EBomPolicy::EIgnore) is Match) <==> (exists|k: int|
            0 <= k < probe_spec(data, names).len() && #[trigger] probe_spec(data, names)[k].0
                == name),
{
    if spec_matches(data, name, EBomPolicy::EIgnore) is Match {
        lemma_probe_complete(data, names, name);
    }
    if exists|k: int|
        0 <= k < probe_spec(data, names).len() && #[trigger] probe_spec(data, names)[k].0 == name {
        lemma_probe_entries(data, names);
    }
}

/// A buffer that strictly decodes under an encoding with a non-empty
/// byte-order mark, and that starts with that mark, is a match when the mark
/// is required and a policy violation when it is forbidden.
pub proof fn lemma_bom_present_policies(data: Seq<u8>, name: Seq<char>)
    requires
        strict_decode(name, data) is Some,
        bom_of(name).len() > 0,
        has_prefix(data, bom_of(name)),
    ensures
        spec_matches(data, name, EBomPolicy::EWithBom) is Match,
        spec_matches(data, name, EBomPolicy::EWithoutBom) is NoMatchBomPolicyViolated,
{
}

/// A buffer that lacks an encoding's non-empty byte-order mark is disqualified
/// when the mark is required, whatever its bytes would decode to. An encoding
/// without a mark never disqualifies a buffer this way: there the strict
/// decoder alone decides, so nothing of the kind holds.
pub proof fn lemma_bom_required_missing(data: Seq<u8>, name: Seq<char>)
    requires
        bom_of(name).len() > 0,
        !has_prefix(data, bom_of(name)),
    ensures
        spec_matches(data, name, EBomPolicy::EWithBom) is NoMatchBomPolicyViolated,
{
}

} // verus!
