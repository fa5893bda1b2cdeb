//! Choosing which flows to move to the area they serve, or back from it,
//! and the sorted report of such a choice.
use vstd::prelude::*;
use vstd::string::*;
use crate::text;
use crate::config;
use crate::config::Config;
use crate::flows;
use crate::flows::{AnalysisResult, Flow, FlowError, FlowTransferResult, Flows};

verus! {

/// Whether `perm` maps the indices `0..n` one to one onto `0..n`.
pub open spec fn is_permutation(perm: Seq<int>, n: nat) -> bool {
    &&& perm.len() == n
    &&& forall|j: int| 0 <= j < n ==> 0 <= #[trigger] perm[j] < n
    &&& forall|i: int, j: int| 0 <= i < n && 0 <= j < n && i != j ==> #[trigger] perm[i] != #[trigger] perm[j]
}

/// `r` holds the strings of `v` in the order of `str`.
pub open spec fn sorted_strings_of(r: Seq<String>, v: Seq<String>) -> bool {
    &&& r.len() == v.len()
    &&& exists|perm: Seq<int>| is_permutation(perm, v.len())
        && forall|j: int| 0 <= j < r.len() ==> #[trigger] r[j] == v[perm[j]]
    &&& forall|i: int, j: int| 0 <= i < j < r.len() ==> text::lex_le((#[trigger] r[i])@, (#[trigger] r[j])@)
}

/// Sorts strings in the order of `str`.
pub fn sort_strings(v: Vec<String>) -> (r: Vec<String>)
    ensures
        sorted_strings_of(r@, v@),
{
    let ghost orig = v@;
    let n = v.len();
    let mut v = v;
    let mut r: Vec<String> = Vec::new();
    let ghost mut perm: Seq<int> = Seq::empty();
    let mut i: usize = 0;
    while i < n
        invariant
            i <= n,
            n == orig.len(),
            v@ == orig.subrange(i as int, n as int),
            r@.len() == i,
            is_permutation(perm, i as nat),
            forall|j: int| 0 <= j < i ==> #[trigger] r@[j] == orig[perm[j]],
            forall|a: int, b: int| 0 <= a < b < i ==> text::lex_le((#[trigger] r@[a])@, (#[trigger] r@[b])@),
        decreases n - i,
    {
        let x = v.remove(0);
        proof {
            assert(v@ =~= orig.subrange(i + 1, n as int));
        }
        let mut p: usize = 0;
        while p < r.len() && !text::lex_less(x.as_str(), r[p].as_str())
            invariant
                p <= r@.len(),
                forall|a: int| 0 <= a < p ==> !text::lex_lt(x@, (#[trigger] r@[a])@),
            decreases r.len() - p,
        {
            p = p + 1;
        }
        let ghost old_r = r@;
        let ghost old_perm = perm;
        r.insert(p, x);
        proof {
            perm = old_perm.insert(p as int, i as int);
            assert(p < old_r.len() ==> text::lex_lt(x@, old_r[p as int]@));
            assert forall|a: int, b: int| 0 <= a < b < i + 1 implies text::lex_le((#[trigger] r@[a])@, (#[trigger] r@[b])@) by {
                if a < p && b == p {
                    text::lemma_lex_total(old_r[a]@, x@);
                } else if a == p && b > p {
                    assert(r@[b] == old_r[b - 1]);
                    if b - 1 > p {
                        assert(text::lex_le(old_r[p as int]@, old_r[b - 1]@));
                    }
                    if old_r[p as int]@ != old_r[b - 1]@ {
                        text::lemma_lex_transitive(x@, old_r[p as int]@, old_r[b - 1]@);
                    }
                } else if a < p && b < p {
                    assert(r@[a] == old_r[a] && r@[b] == old_r[b]);
                } else if a < p && b > p {
                    assert(r@[a] == old_r[a] && r@[b] == old_r[b - 1]);
                } else {
                    assert(r@[a] == old_r[a - 1] && r@[b] == old_r[b - 1]);
                }
            }
            assert forall|j: int| 0 <= j < i + 1 implies #[trigger] r@[j] == orig[perm[j]] by {
                if j < p {
                    assert(r@[j] == old_r[j]);
                } else if j > p {
                    assert(r@[j] == old_r[j - 1]);
                }
            }
            assert forall|a: int, b: int| 0 <= a < i + 1 && 0 <= b < i + 1 && a != b implies #[trigger] perm[a] != #[trigger] perm[b] by {
                if a != p && b != p {
                    let a2 = if a < p { a } else { a - 1 };
                    let b2 = if b < p { b } else { b - 1 };
                    assert(old_perm[a2] != old_perm[b2]);
                } else if a != p {
                    let a2 = if a < p { a } else { a - 1 };
                    assert(old_perm[a2] < i);
                } else {
                    let b2 = if b < p { b } else { b - 1 };
                    assert(old_perm[b2] < i);
                }
            }
            assert forall|j: int| 0 <= j < i + 1 implies 0 <= #[trigger] perm[j] < i + 1 by {
                if j < p {
                    assert(perm[j] == old_perm[j]);
                } else if j > p {
                    assert(perm[j] == old_perm[j - 1]);
                }
            }
        }
        i = i + 1;
    }
    r
}

/// The name by which transfer results are ordered.
pub open spec fn name_key(t: FlowTransferResult) -> Option<Seq<char>> {
    match t.flow_name {
        Some(s) => Some(s@),
        None => None,
    }
}

/// The order of `Option<String>`: no name first, then names in the order of
/// `str`.
pub open spec fn key_lt(a: Option<Seq<char>>, b: Option<Seq<char>>) -> bool {
    match (a, b) {
        (None, Some(_)) => true,
        (Some(x), Some(y)) => text::lex_lt(x, y),
        _ => false,
    }
}

/// `a` comes before `b` in the order of `Option<String>`, or equals it.
pub open spec fn key_le(a: Option<Seq<char>>, b: Option<Seq<char>>) -> bool {
    a == b || key_lt(a, b)
}

proof fn lemma_key_total(a: Option<Seq<char>>, b: Option<Seq<char>>)
    ensures
        a == b || key_lt(a, b) || key_lt(b, a),
{
    if a is Some && b is Some {
        text::lemma_lex_total(a->0, b->0);
    }
}

proof fn lemma_key_transitive(a: Option<Seq<char>>, b: Option<Seq<char>>, c: Option<Seq<char>>)
    requires
        key_lt(a, b),
        key_lt(b, c),
    ensures
        key_lt(a, c),
{
    if a is Some {
        text::lemma_lex_transitive(a->0, b->0, c->0);
    }
}

proof fn lemma_key_irreflexive(a: Option<Seq<char>>)
    ensures
        !key_lt(a, a),
{
    if a is Some {
        text::lemma_lex_irreflexive(a->0);
    }
}

/// `r` holds the transfer results of `v` ordered by flow name, results of
/// equal names in their order in `v` (a stable sort).
pub open spec fn sorted_by_name_of(r: Seq<FlowTransferResult>, v: Seq<FlowTransferResult>) -> bool {
    &&& r.len() == v.len()
    &&& exists|perm: Seq<int>| {
        &&& is_permutation(perm, v.len())
        &&& forall|j: int| 0 <= j < r.len() ==> #[trigger] r[j] == v[perm[j]]
        &&& forall|a: int, b: int| 0 <= a < b < r.len() && name_key(#[trigger] r[a]) == name_key(#[trigger] r[b]) ==> perm[a] < perm[b]
    }
    &&& forall|a: int, b: int| 0 <= a < b < r.len() ==> key_le(name_key(#[trigger] r[a]), name_key(#[trigger] r[b]))
}

fn name_less(a: &Option<String>, b: &Option<String>) -> (r: bool)
    ensures
        r == key_lt(
            match a { Some(s) => Some(s@), None => None },
            match b { Some(s) => Some(s@), None => None },
        ),
{
    match (a, b) {
        (None, Some(_)) => true,
        (Some(x), Some(y)) => text::lex_less(x.as_str(), y.as_str()),
        _ => false,
    }
}

/// Sorts transfer results by flow name, stably.
pub fn sort_by_flow_name(v: Vec<FlowTransferResult>) -> (r: Vec<FlowTransferResult>)
    ensures
        sorted_by_name_of(r@, v@),
{
    let ghost orig = v@;
    let n = v.len();
    let mut v = v;
    let mut r: Vec<FlowTransferResult> = Vec::new();
    let ghost mut perm: Seq<int> = Seq::empty();
    let mut i: usize = 0;
    while i < n
        invariant
            i <= n,
            n == orig.len(),
            v@ == orig.subrange(i as int, n as int),
            r@.len() == i,
            is_permutation(perm, i as nat),
            forall|j: int| 0 <= j < i ==> #[trigger] r@[j] == orig[perm[j]],
            forall|a: int, b: int| 0 <= a < b < i && name_key(#[trigger] r@[a]) == name_key(#[trigger] r@[b]) ==> perm[a] < perm[b],
            forall|a: int, b: int| 0 <= a < b < i ==> key_le(name_key(#[trigger] r@[a]), name_key(#[trigger] r@[b])),
        decreases n - i,
    {
        let x = v.remove(0);
        proof {
            assert(v@ =~= orig.subrange(i + 1, n as int));
        }
        let mut p: usize = 0;
        while p < r.len() && !name_less(&x.flow_name, &r[p].flow_name)
            invariant
                p <= r@.len(),
                forall|a: int| 0 <= a < p ==> !key_lt(name_key(x), name_key(#[trigger] r@[a])),
            decreases r.len() - p,
        {
            p = p + 1;
        }
        let ghost old_r = r@;
        let ghost old_perm = perm;
        r.insert(p, x);
        proof {
            perm = old_perm.insert(p as int, i as int);
            let kx = name_key(x);
            assert(p < old_r.len() ==> key_lt(kx, name_key(old_r[p as int])));
            assert forall|a: int, b: int| 0 <= a < b < i + 1 implies key_le(name_key(#[trigger] r@[a]), name_key(#[trigger] r@[b]))
                && (name_key(r@[a]) == name_key(r@[b]) ==> perm[a] < perm[b]) by {
                if a < p && b == p {
                    lemma_key_total(name_key(old_r[a]), kx);
                    assert(perm[a] == old_perm[a]);
                    assert(old_perm[a] < i);
                } else if a == p && b > p {
                    assert(r@[b] == old_r[b - 1]);
                    if b - 1 > p {
                        assert(key_le(name_key(old_r[p as int]), name_key(old_r[b - 1])));
                    }
                    if name_key(old_r[p as int]) != name_key(old_r[b - 1]) {
                        lemma_key_transitive(kx, name_key(old_r[p as int]), name_key(old_r[b - 1]));
                    }
                    lemma_key_irreflexive(kx);
                } else if a < p && b < p {
                    assert(r@[a] == old_r[a] && r@[b] == old_r[b]);
                    assert(perm[a] == old_perm[a] && perm[b] == old_perm[b]);
                } else if a < p && b > p {
                    assert(r@[a] == old_r[a] && r@[b] == old_r[b - 1]);
                    assert(perm[a] == old_perm[a] && perm[b] == old_perm[b - 1]);
                } else {
                    assert(r@[a] == old_r[a - 1] && r@[b] == old_r[b - 1]);
                    assert(perm[a] == old_perm[a - 1] && perm[b] == old_perm[b - 1]);
                }
            }
            assert forall|j: int| 0 <= j < i + 1 implies #[trigger] r@[j] == orig[perm[j]] by {
                if j < p {
                    assert(r@[j] == old_r[j]);
                } else if j > p {
                    assert(r@[j] == old_r[j - 1]);
                }
            }
            assert forall|a: int, b: int| 0 <= a < i + 1 && 0 <= b < i + 1 && a != b implies #[trigger] perm[a] != #[trigger] perm[b] by {
                if a != p && b != p {
                    let a2 = if a < p { a } else { a - 1 };
                    let b2 = if b < p { b } else { b - 1 };
                    assert(old_perm[a2] != old_perm[b2]);
                } else if a != p {
                    let a2 = if a < p { a } else { a - 1 };
                    assert(old_perm[a2] < i);
                } else {
                    let b2 = if b < p { b } else { b - 1 };
                    assert(old_perm[b2] < i);
                }
            }
            assert forall|j: int| 0 <= j < i + 1 implies 0 <= #[trigger] perm[j] < i + 1 by {
                if j < p {
                    assert(perm[j] == old_perm[j]);
                } else if j > p {
                    assert(perm[j] == old_perm[j - 1]);
                }
            }
        }
        i = i + 1;
    }
    r
}

/// The name under which a flow is reported.
pub open spec fn display_name(f: Flow) -> Seq<char> {
    match f.name {
        Some(n) => n@,
        None => "Unnamed Flow"@,
    }
}

/// A flow whose input and output lie in the same area, other than "base".
pub open spec fn serves_one_other_area(f: Flow) -> bool {
    &&& f.input_area is Some
    &&& f.output_area is Some
    &&& f.input_area->0@ != "base"@
    &&& f.input_area->0@ == f.output_area->0@
}

/// What is checked of a flow before the configured areas are consulted:
/// when moving flows out (`back` false), an enabled flow serving one other
/// area; when moving them back, a disabled flow serving one other area that
/// is not itself a transferred copy.
pub open spec fn is_candidate(f: Flow, back: bool) -> bool {
    &&& serves_one_other_area(f)
    &&& !back ==> !f.disabled
    &&& back ==> f.disabled
    &&& back ==> !text::ends_with(
        match f.name {
            Some(n) => n@,
            None => Seq::empty(),
        },
        "(transferred)"@,
    )
}

/// A candidate whose area is configured.
pub open spec fn is_chosen(f: Flow, config: Config, back: bool) -> bool {
    is_candidate(f, back) && config::has_area_named(config.areas, f.input_area->0@)
}

/// The indices, in order, of the flows among the first `n` of `fs` that are
/// chosen.
pub open spec fn chosen_indices(fs: Seq<Flow>, config: Config, back: bool, n: int) -> Seq<int>
    decreases n,
{
    if n <= 0 {
        Seq::empty()
    } else if is_chosen(fs[n - 1], config, back) {
        chosen_indices(fs, config, back, n - 1).push(n - 1)
    } else {
        chosen_indices(fs, config, back, n - 1)
    }
}

/// `t` is the (not yet carried out) move of flow `f` from `old_area` to
/// `new_area`.
pub open spec fn planned_move(t: FlowTransferResult, f: Flow, old_area: Seq<char>, new_area: Seq<char>) -> bool {
    &&& t.flow_id@ == f.id@
    &&& t.flow_name == f.name
    &&& t.new_flow_name is None
    &&& t.old_area@ == old_area
    &&& t.new_area@ == new_area
    &&& !t.transfer_successful
}

/// Looks at every flow: reports its name, and plans to move each chosen
/// flow (see `is_chosen`) from this proxy's area to the area it serves
/// (`back` false) or from that area back to "base" (`back` true).
/// Nothing is returned where a candidate is met and the configuration
/// lists no areas at all.
pub fn plan_flow_moves(flows: &Flows, config: &Config, back: bool) -> (r: Option<(Vec<String>, Vec<FlowTransferResult>)>)
    ensures
        r is None <==> config.areas is None && exists|k: int|
            0 <= k < flows.flows@.len() && is_candidate(#[trigger] flows.flows@[k], back),
        r matches Some((names, moves)) ==> {
            let fs = flows.flows@;
            let chosen = chosen_indices(fs, *config, back, fs.len() as int);
            &&& names@.len() == fs.len()
            &&& forall|k: int| 0 <= k < fs.len() ==> (#[trigger] names@[k])@ == display_name(fs[k])
            &&& moves@.len() == chosen.len()
            &&& forall|j: int| 0 <= j < chosen.len() ==> {
                let f = fs[chosen[j]];
                if back {
                    planned_move(#[trigger] moves@[j], f, f.input_area->0@, "base"@)
                } else {
                    planned_move(#[trigger] moves@[j], f, config.area@, f.input_area->0@)
                }
            }
        },
{
    let fs = &flows.flows;
    let mut names: Vec<String> = Vec::new();
    let mut moves: Vec<FlowTransferResult> = Vec::new();
    let mut k: usize = 0;
    while k < fs.len()
        invariant
            k <= fs@.len(),
            fs@ == flows.flows@,
            names@.len() == k,
            forall|j: int| 0 <= j < k ==> (#[trigger] names@[j])@ == display_name(fs@[j]),
            config.areas is None ==> forall|j: int| 0 <= j < k ==> !is_candidate(#[trigger] fs@[j], back),
            moves@.len() == chosen_indices(fs@, *config, back, k as int).len(),
            forall|j: int| 0 <= j < moves@.len() ==> {
                let f = fs@[chosen_indices(fs@, *config, back, k as int)[j]];
                if back {
                    planned_move(#[trigger] moves@[j], f, f.input_area->0@, "base"@)
                } else {
                    planned_move(#[trigger] moves@[j], f, config.area@, f.input_area->0@)
                }
            },
        decreases fs.len() - k,
    {
        let f = &fs[k];
        let name = match &f.name {
            Some(n) => n.clone(),
            None => text::string_of("Unnamed Flow"),
        };
        names.push(name);
        let ghost prev_chosen = chosen_indices(fs@, *config, back, k as int);
        let candidate = match (&f.input_area, &f.output_area) {
            (Some(input), Some(output)) => {
                let transferred = match &f.name {
                    Some(n) => text::str_ends_with(n.as_str(), "(transferred)"),
                    None => text::str_ends_with("", "(transferred)"),
                };
                !(*input == text::string_of("base")) && *input == *output
                    && (back || !f.disabled) && (!back || f.disabled) && (!back || !transferred)
            },
            _ => false,
        };
        if candidate {
            let input = f.input_area.as_ref().unwrap();
            match &config.areas {
                None => {
                    proof {
                        reveal_strlit("");
                        assert(""@ =~= Seq::<char>::empty());
                        assert(candidate == is_candidate(fs@[k as int], back));
                        assert(is_candidate(flows.flows@[k as int], back));
                    }
                    return None;
                },
                Some(_) => {
                    if config::find_area(&config.areas, input.as_str()).is_some() {
                        let m = if back {
                            FlowTransferResult {
                                flow_id: f.id.clone(),
                                flow_name: flows::copy_opt_string(&f.name),
                                new_flow_name: None,
                                old_area: input.clone(),
                                new_area: text::string_of("base"),
                                transfer_successful: false,
                            }
                        } else {
                            FlowTransferResult {
                                flow_id: f.id.clone(),
                                flow_name: flows::copy_opt_string(&f.name),
                                new_flow_name: None,
                                old_area: config.area.clone(),
                                new_area: input.clone(),
                                transfer_successful: false,
                            }
                        };
                        moves.push(m);
                    }
                },
            }
        }
        proof {
            reveal_strlit("");
            assert(""@ =~= Seq::<char>::empty());
            assert(candidate == is_candidate(fs@[k as int], back));
            let next_chosen = chosen_indices(fs@, *config, back, k + 1);
            assert forall|j: int| 0 <= j < moves@.len() implies {
                let f2 = fs@[next_chosen[j]];
                if back {
                    planned_move(#[trigger] moves@[j], f2, f2.input_area->0@, "base"@)
                } else {
                    planned_move(#[trigger] moves@[j], f2, config.area@, f2.input_area->0@)
                }
            } by {
                if j < prev_chosen.len() {
                    assert(next_chosen[j] == prev_chosen[j]);
                }
            }
        }
        k = k + 1;
    }
    Some((names, moves))
}

/// Records how the move planned in `t` went: on success, its new name.
pub fn record_move_outcome(t: &mut FlowTransferResult, outcome: Result<Option<String>, FlowError>)
    ensures
        match outcome {
            Ok(name) => *final(t) == FlowTransferResult {
                transfer_successful: true,
                new_flow_name: name,
                ..*old(t)
            },
            Err(_) => *final(t) == *old(t),
        },
{
    match outcome {
        Ok(name) => {
            t.transfer_successful = true;
            t.new_flow_name = name;
        },
        Err(_) => {},
    }
}

/// The report of an analysis: the names of all flows, sorted, and the
/// moves, sorted by flow name (moves of equal names in their order).
pub fn finish_analysis(names: Vec<String>, moves: Vec<FlowTransferResult>) -> (r: AnalysisResult)
    ensures
        sorted_strings_of(r.analyzed_flows@, names@),
        sorted_by_name_of(r.transferred_flows@, moves@),
{
    AnalysisResult { analyzed_flows: sort_strings(names), transferred_flows: sort_by_flow_name(moves) }
}

} // verus!
