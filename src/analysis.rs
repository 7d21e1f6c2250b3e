use vstd::prelude::*;
use vstd::hash_map::StringHashMap;
use crate::cache::{cache_gate, index_of_path, AnalysisCache, CacheEntry, CacheIndex, CachedFile, CachedFileView};
use crate::language::{detect_language, language_of_path};
use crate::model::{
    call_views, copy_calls, copy_symbols, file_views, symbol_views, AnalysisResult, AnalysisStats, CallEdge,
    CallEdgeView, FileInfo, Language, ParsedFile, Symbol, SymbolView,
};
use crate::parser::{analyze_file, AnalysisError};
use crate::order::{
    key_less, key_view, key_views, keys_lt, keys_sorted, lemma_keys_irreflexive,
    lemma_keys_total, lemma_keys_transitive, lex_lt, sort_by_keys,
};
use crate::text::{chars_of, has_char, has_double_colon, last_segment, text_has_char, text_has_double_colon, text_last_segment};

verus! {

broadcast use vstd::seq_lib::group_to_multiset_ensures;

/// Whether a callee name is qualified: it holds "::" or '.'.
pub open spec fn is_qualified(callee: Seq<char>) -> bool {
    has_double_colon(callee) || has_char(callee, '.')
}

/// Whether symbol `s` may be what `callee` names: for a qualified name, a
/// symbol with that qualified name or with its last segment as name; else a
/// symbol with that name.
pub open spec fn is_candidate(callee: Seq<char>, s: SymbolView) -> bool {
    if is_qualified(callee) {
        s.fq_name == callee || s.name == last_segment(callee)
    } else {
        s.name == callee
    }
}

/// The order of symbols: by qualified name, then by id.
pub open spec fn symbol_key(s: SymbolView) -> Seq<Seq<char>> {
    seq![s.fq_name, s.id]
}

/// Symbol `k` is a candidate for `callee` and no candidate comes before it.
pub open spec fn is_best_candidate(callee: Seq<char>, syms: Seq<SymbolView>, k: int) -> bool {
    &&& 0 <= k < syms.len()
    &&& is_candidate(callee, syms[k])
    &&& forall|m: int| 0 <= m < syms.len() && is_candidate(callee, #[trigger] syms[m]) ==> !keys_lt(
        symbol_key(syms[m]),
        symbol_key(syms[k]),
    )
}

/// The id of the first candidate for `callee` in symbol order, if any.
pub open spec fn resolved_callee(callee: Seq<char>, syms: Seq<SymbolView>) -> Option<Seq<char>> {
    if exists|k: int| is_best_candidate(callee, syms, k) {
        Some(syms[choose|k: int| is_best_candidate(callee, syms, k)].id)
    } else {
        None
    }
}

/// A call edge linked to the first candidate for its callee name; unchanged
/// when there is none.
pub open spec fn resolve_one(c: CallEdgeView, syms: Seq<SymbolView>) -> CallEdgeView {
    match resolved_callee(c.callee_name, syms) {
        Some(id) => CallEdgeView { callee_id: Some(id), ..c },
        None => c,
    }
}

/// Every call edge linked by `resolve_one`.
pub open spec fn resolve_all(calls: Seq<CallEdgeView>, syms: Seq<SymbolView>) -> Seq<CallEdgeView> {
    calls.map_values(|c: CallEdgeView| resolve_one(c, syms))
}

proof fn lemma_best_unique(callee: Seq<char>, syms: Seq<SymbolView>, k1: int, k2: int)
    requires
        is_best_candidate(callee, syms, k1),
        is_best_candidate(callee, syms, k2),
    ensures
        syms[k1].id == syms[k2].id,
{
    lemma_keys_total(symbol_key(syms[k1]), symbol_key(syms[k2]));
    assert(symbol_key(syms[k1])[1] == syms[k1].id);
    assert(symbol_key(syms[k2])[1] == syms[k2].id);
}

/// Best symbol per text: for each text that some symbol among the first
/// `upto` has as `field`, the index of the first such symbol in symbol order.
pub open spec fn best_index_ok(
    m: Map<Seq<char>, usize>,
    syms: Seq<SymbolView>,
    upto: int,
    by_fq: bool,
) -> bool {
    &&& forall|p: Seq<char>| #[trigger] m.contains_key(p) <==> exists|k: int| 0 <= k < upto
        && field_of(#[trigger] syms[k], by_fq) == p
    &&& forall|p: Seq<char>| #[trigger] m.contains_key(p) ==> {
        let b = m[p] as int;
        &&& 0 <= b < upto
        &&& field_of(syms[b], by_fq) == p
        &&& forall|k: int| 0 <= k < upto && field_of(#[trigger] syms[k], by_fq) == p ==> !keys_lt(
            symbol_key(syms[k]),
            symbol_key(syms[b]),
        )
    }
}

/// The qualified name or the name of a symbol.
pub open spec fn field_of(s: SymbolView, by_fq: bool) -> Seq<char> {
    if by_fq {
        s.fq_name
    } else {
        s.name
    }
}

/// The order keys of the symbols.
fn symbol_keys(symbols: &Vec<Symbol>) -> (r: Vec<Vec<Vec<char>>>)
    ensures
        r@.len() == symbols@.len(),
        forall|k: int| 0 <= k < r@.len() ==> key_view(#[trigger] r@[k]) == symbol_key(symbols@[k]@),
{
    let mut r: Vec<Vec<Vec<char>>> = Vec::new();
    let mut i: usize = 0;
    while i < symbols.len()
        invariant
            i <= symbols@.len(),
            r@.len() == i,
            forall|k: int| 0 <= k < i ==> key_view(#[trigger] r@[k]) == symbol_key(symbols@[k]@),
        decreases symbols.len() - i,
    {
        let key = vec![chars_of(symbols[i].fq_name.as_str()), chars_of(symbols[i].id.as_str())];
        assert(key_view(key) =~= symbol_key(symbols@[i as int]@));
        r.push(key);
        i = i + 1;
    }
    r
}

/// For each name (or qualified name) of a symbol, the index of the first
/// symbol in symbol order that has it.
fn best_index(symbols: &Vec<Symbol>, keys: &Vec<Vec<Vec<char>>>, by_fq: bool) -> (r: StringHashMap<usize>)
    requires
        keys@.len() == symbols@.len(),
        forall|k: int| 0 <= k < keys@.len() ==> key_view(#[trigger] keys@[k]) == symbol_key(symbols@[k]@),
    ensures
        best_index_ok(r@, symbol_views(symbols@), symbols@.len() as int, by_fq),
{
    let ghost syms = symbol_views(symbols@);
    let mut m: StringHashMap<usize> = StringHashMap::new();
    let mut i: usize = 0;
    while i < symbols.len()
        invariant
            i <= symbols@.len(),
            keys@.len() == symbols@.len(),
            syms == symbol_views(symbols@),
            forall|k: int| 0 <= k < keys@.len() ==> key_view(#[trigger] keys@[k]) == symbol_key(symbols@[k]@),
            best_index_ok(m@, syms, i as int, by_fq),
        decreases symbols.len() - i,
    {
        let field = if by_fq {
            &symbols[i].fq_name
        } else {
            &symbols[i].name
        };
        let ghost p = field@;
        assert(field_of(syms[i as int], by_fq) == p);
        let replace = match m.get(field.as_str()) {
            Some(b) => key_less(&keys[i], &keys[*b]),
            None => true,
        };
        let ghost m0 = m@;
        if replace {
            m.insert(field.clone(), i);
        }
        proof {
            assert(keys@[i as int] == keys@[i as int]);
            assert forall|q: Seq<char>| #[trigger] m@.contains_key(q) <==> exists|k: int| 0 <= k < i + 1
                && field_of(#[trigger] syms[k], by_fq) == q by {
                if q != p && m@.contains_key(q) {
                    assert(m0.contains_key(q));
                }
                if q != p && (exists|k: int| 0 <= k < i + 1 && field_of(#[trigger] syms[k], by_fq) == q) {
                    let k = choose|k: int| 0 <= k < i + 1 && field_of(#[trigger] syms[k], by_fq) == q;
                    assert(k < i);
                }
            }
            assert forall|q: Seq<char>| #[trigger] m@.contains_key(q) implies {
                let b = m@[q] as int;
                &&& 0 <= b < i + 1
                &&& field_of(syms[b], by_fq) == q
                &&& forall|k: int| 0 <= k < i + 1 && field_of(#[trigger] syms[k], by_fq) == q ==> !keys_lt(
                    symbol_key(syms[k]),
                    symbol_key(syms[b]),
                )
            } by {
                let b = m@[q] as int;
                assert forall|k: int| 0 <= k < i + 1 && field_of(#[trigger] syms[k], by_fq) == q implies !keys_lt(
                    symbol_key(syms[k]),
                    symbol_key(syms[b]),
                ) by {
                    if q == p {
                        if replace {
                            if m0.contains_key(p) {
                                let b0 = m0[p] as int;
                                assert(keys_lt(symbol_key(syms[i as int]), symbol_key(syms[b0])));
                                if k < i {
                                    if keys_lt(symbol_key(syms[k]), symbol_key(syms[i as int])) {
                                        lemma_keys_transitive(symbol_key(syms[k]), symbol_key(syms[i as int]), symbol_key(syms[b0]));
                                    }
                                }
                            }
                            if k == i {
                                lemma_keys_irreflexive(symbol_key(syms[k]));
                            }
                        } else {
                            let b0 = m0[p] as int;
                            assert(!keys_lt(symbol_key(syms[i as int]), symbol_key(syms[b0])));
                        }
                    }
                }
            }
        }
        i = i + 1;
    }
    m
}

/// Links each call edge to the first symbol, in (qualified name, id) order,
/// that its callee name may stand for: for a qualified callee a symbol with
/// that qualified name or named by its last segment, else a symbol of that
/// name. Edges with no such symbol are left as they are.
pub fn resolve_calls(calls: &mut Vec<CallEdge>, symbols: &Vec<Symbol>)
    ensures
        call_views(final(calls)@) == resolve_all(call_views(old(calls)@), symbol_views(symbols@)),
        forall|i: int| 0 <= i < final(calls)@.len() ==> (exists|k: int| 0 <= k < symbols@.len()
            && is_candidate(old(calls)@[i].callee_name@, #[trigger] symbol_views(symbols@)[k]))
            ==> (#[trigger] final(calls)@[i]).callee_id is Some,
{
    let ghost syms = symbol_views(symbols@);
    let keys = symbol_keys(symbols);
    let by_name = best_index(symbols, &keys, false);
    let by_fq = best_index(symbols, &keys, true);
    let ghost old_calls = call_views(calls@);
    let mut out: Vec<CallEdge> = Vec::new();
    let mut i: usize = 0;
    while i < calls.len()
        invariant
            i <= calls@.len(),
            old_calls == call_views(calls@),
            syms == symbol_views(symbols@),
            keys@.len() == symbols@.len(),
            forall|k: int| 0 <= k < keys@.len() ==> key_view(#[trigger] keys@[k]) == symbol_key(symbols@[k]@),
            best_index_ok(by_name@, syms, syms.len() as int, false),
            best_index_ok(by_fq@, syms, syms.len() as int, true),
            call_views(out@) == resolve_all(old_calls.subrange(0, i as int), syms),
            forall|j: int| 0 <= j < i ==> (exists|k: int| 0 <= k < syms.len()
                && is_candidate(old_calls[j].callee_name, #[trigger] syms[k]))
                ==> (#[trigger] out@[j]).callee_id is Some,
        decreases calls.len() - i,
    {
        let call = calls[i].copy();
        let callee = call.callee_name.as_str();
        let ghost cn = callee@;
        let qualified = text_has_double_colon(callee) || text_has_char(callee, '.');
        let short = text_last_segment(callee);
        let a: Option<usize> = if qualified {
            match by_fq.get(callee) {
                Some(x) => Some(*x),
                None => None,
            }
        } else {
            None
        };
        let b: Option<usize> = if qualified {
            match by_name.get(short.as_str()) {
                Some(x) => Some(*x),
                None => None,
            }
        } else {
            match by_name.get(callee) {
                Some(x) => Some(*x),
                None => None,
            }
        };
        let best: Option<usize> = match (a, b) {
            (Some(x), Some(y)) => if key_less(&keys[y], &keys[x]) {
                Some(y)
            } else {
                Some(x)
            },
            (Some(x), None) => Some(x),
            (None, Some(y)) => Some(y),
            (None, None) => None,
        };
        proof {
            match (a, b, best) {
                (Some(x), Some(y), Some(z)) => {
                    if z == y {
                        lemma_keys_total(symbol_key(syms[x as int]), symbol_key(syms[y as int]));
                        if keys_lt(symbol_key(syms[x as int]), symbol_key(syms[y as int])) {
                            lemma_keys_transitive(symbol_key(syms[x as int]), symbol_key(syms[y as int]), symbol_key(syms[x as int]));
                            lemma_keys_irreflexive(symbol_key(syms[x as int]));
                        }
                    }
                    lemma_keys_irreflexive(symbol_key(syms[z as int]));
                },
                (_, _, Some(z)) => {
                    lemma_keys_irreflexive(symbol_key(syms[z as int]));
                },
                _ => {},
            }
        }
        proof {
            match best {
                Some(b) => {
                    assert(is_best_candidate(cn, syms, b as int)) by {
                        assert forall|m: int| 0 <= m < syms.len() && is_candidate(cn, #[trigger] syms[m]) implies !keys_lt(
                            symbol_key(syms[m]),
                            symbol_key(syms[b as int]),
                        ) by {
                            if qualified {
                                if syms[m].fq_name == cn {
                                    assert(field_of(syms[m], true) == cn);
                                    let x = by_fq@[cn] as int;
                                    crate::order::lemma_not_before_trans(symbol_key(syms[b as int]), symbol_key(syms[x]), symbol_key(syms[m]));
                                } else {
                                    assert(field_of(syms[m], false) == last_segment(cn));
                                    let y = by_name@[last_segment(cn)] as int;
                                    crate::order::lemma_not_before_trans(symbol_key(syms[b as int]), symbol_key(syms[y]), symbol_key(syms[m]));
                                }
                            } else {
                                assert(field_of(syms[m], false) == cn);
                            }
                        }
                        if qualified {
                            if by_fq@.contains_key(cn) && b as int == by_fq@[cn] as int {
                                assert(field_of(syms[b as int], true) == cn);
                            } else {
                                assert(field_of(syms[b as int], false) == last_segment(cn));
                            }
                        } else {
                            assert(field_of(syms[b as int], false) == cn);
                        }
                    }
                    let k0 = choose|k: int| is_best_candidate(cn, syms, k);
                    lemma_best_unique(cn, syms, k0, b as int);
                },
                None => {
                    assert forall|k: int| !is_best_candidate(cn, syms, k) by {
                        if 0 <= k < syms.len() && is_candidate(cn, syms[k]) {
                            if qualified {
                                if syms[k].fq_name == cn {
                                    assert(field_of(syms[k], true) == cn);
                                } else {
                                    assert(field_of(syms[k], false) == last_segment(cn));
                                }
                            } else {
                                assert(field_of(syms[k], false) == cn);
                            }
                        }
                    }
                    assert forall|k: int| 0 <= k < syms.len() implies !is_candidate(cn, #[trigger] syms[k]) by {
                        if is_candidate(cn, syms[k]) {
                            if qualified {
                                if syms[k].fq_name == cn {
                                    assert(field_of(syms[k], true) == cn);
                                } else {
                                    assert(field_of(syms[k], false) == last_segment(cn));
                                }
                            } else {
                                assert(field_of(syms[k], false) == cn);
                            }
                        }
                    }
                },
            }
        }
        let resolved = match best {
            Some(b) => CallEdge { callee_id: Some(symbols[b].id.clone()), ..call },
            None => call,
        };
        proof {
            assert(old_calls[i as int] == call@);
            assert(resolved@ == resolve_one(old_calls[i as int], syms));
        }
        let ghost out_old = out@;
        out.push(resolved);
        proof {
            assert(call_views(out@) =~= call_views(out_old).push(resolved@));
            assert(resolve_all(old_calls.subrange(0, i + 1), syms) =~= resolve_all(
                old_calls.subrange(0, i as int),
                syms,
            ).push(resolve_one(old_calls[i as int], syms)));
            assert(call_views(out@) =~= resolve_all(old_calls.subrange(0, i + 1), syms));
        }
        i = i + 1;
    }
    proof {
        assert(old_calls.subrange(0, calls@.len() as int) =~= old_calls);
    }
    *calls = out;
}


/// A symbol marked as entrypoint also when its name or qualified name is in `manual`.
pub open spec fn overlay_one(s: SymbolView, manual: Seq<Seq<char>>) -> SymbolView {
    SymbolView {
        is_entrypoint: s.is_entrypoint || manual.contains(s.name) || manual.contains(s.fq_name),
        ..s
    }
}

/// Every symbol passed through `overlay_one`.
pub open spec fn overlay_all(syms: Seq<SymbolView>, manual: Seq<Seq<char>>) -> Seq<SymbolView> {
    syms.map_values(|s: SymbolView| overlay_one(s, manual))
}

proof fn lemma_contains_push<A>(s: Seq<A>, x: A, p: A)
    ensures
        s.push(x).contains(p) <==> s.contains(p) || p == x,
{
    if s.contains(p) {
        let k = choose|k: int| 0 <= k < s.len() && s[k] == p;
        assert(s.push(x)[k] == p);
    }
    if p == x {
        assert(s.push(x)[s.len() as int] == p);
    }
    if s.push(x).contains(p) && p != x {
        let k = choose|k: int| 0 <= k < s.len() + 1 && s.push(x)[k] == p;
        assert(s[k] == p);
    }
}

/// Marks as entrypoint every symbol whose name or qualified name is listed in
/// `manual_entrypoints`; other fields and symbols are kept.
pub fn apply_manual_entrypoints(symbols: &mut Vec<Symbol>, manual_entrypoints: &Vec<String>)
    ensures
        symbol_views(final(symbols)@) == overlay_all(symbol_views(old(symbols)@), crate::text::texts(manual_entrypoints@)),
{
    let ghost manual = crate::text::texts(manual_entrypoints@);
    let mut set: StringHashMap<bool> = StringHashMap::new();
    let mut j: usize = 0;
    while j < manual_entrypoints.len()
        invariant
            j <= manual_entrypoints@.len(),
            manual == crate::text::texts(manual_entrypoints@),
            forall|p: Seq<char>| #[trigger] set@.contains_key(p) <==> manual.subrange(0, j as int).contains(p),
        decreases manual_entrypoints.len() - j,
    {
        set.insert(manual_entrypoints[j].clone(), true);
        proof {
            assert(manual.subrange(0, j + 1) =~= manual.subrange(0, j as int).push(manual[j as int]));
            assert forall|p: Seq<char>| #[trigger] set@.contains_key(p) <==> manual.subrange(0, j + 1).contains(p) by {
                lemma_contains_push(manual.subrange(0, j as int), manual[j as int], p);
            }
        }
        j = j + 1;
    }
    assert(manual.subrange(0, manual_entrypoints@.len() as int) =~= manual);
    let ghost old_syms = symbol_views(symbols@);
    let mut out: Vec<Symbol> = Vec::new();
    let mut i: usize = 0;
    while i < symbols.len()
        invariant
            i <= symbols@.len(),
            old_syms == symbol_views(symbols@),
            forall|p: Seq<char>| #[trigger] set@.contains_key(p) <==> manual.contains(p),
            symbol_views(out@) == overlay_all(old_syms.subrange(0, i as int), manual),
        decreases symbols.len() - i,
    {
        let s = symbols[i].copy();
        let listed = set.contains_key(s.name.as_str()) || set.contains_key(s.fq_name.as_str());
        let updated = Symbol { is_entrypoint: s.is_entrypoint || listed, ..s };
        let ghost out_old = out@;
        out.push(updated);
        proof {
            assert(old_syms[i as int] == s@);
            assert(symbol_views(out@) =~= symbol_views(out_old).push(updated@));
            assert(overlay_all(old_syms.subrange(0, i + 1), manual) =~= overlay_all(
                old_syms.subrange(0, i as int),
                manual,
            ).push(overlay_one(old_syms[i as int], manual)));
        }
        i = i + 1;
    }
    assert(old_syms.subrange(0, symbols@.len() as int) =~= old_syms);
    *symbols = out;
}

proof fn lemma_single_key(a: Seq<char>, b: Seq<char>)
    ensures
        keys_lt(seq![a], seq![b]) == lex_lt(a, b),
{
    assert(seq![a][0] == a);
    assert(seq![b][0] == b);
    if a == b {
        crate::order::lemma_lex_irreflexive(a);
        assert(seq![a].drop_first() =~= Seq::<Seq<char>>::empty());
        assert(seq![b].drop_first() =~= Seq::<Seq<char>>::empty());
        assert(!keys_lt(Seq::<Seq<char>>::empty(), Seq::<Seq<char>>::empty()));
    }
}

/// Some symbol marked as entrypoint has id `x`.
pub open spec fn is_entry_id(symbols: Seq<Symbol>, x: Seq<char>) -> bool {
    exists|k: int| 0 <= k < symbols.len() && (#[trigger] symbols[k]).is_entrypoint && symbols[k].id@ == x
}

/// Some text in `v` is `x`.
pub open spec fn has_text(v: Seq<String>, x: Seq<char>) -> bool {
    exists|a: int| 0 <= a < v.len() && (#[trigger] v[a])@ == x
}

/// The ids of the symbols marked as entrypoint, in ascending order, each once.
pub fn entrypoint_ids(symbols: &Vec<Symbol>) -> (r: Vec<String>)
    ensures
        forall|a: int, b: int| 0 <= a < b < r@.len() ==> lex_lt(#[trigger] r@[a]@, #[trigger] r@[b]@),
        forall|a: int| 0 <= a < r@.len() ==> is_entry_id(symbols@, #[trigger] r@[a]@),
        forall|k: int| 0 <= k < symbols@.len() && (#[trigger] symbols@[k]).is_entrypoint ==> has_text(r@, symbols@[k].id@),
{
    let mut ids: Vec<String> = Vec::new();
    let mut keys: Vec<Vec<Vec<char>>> = Vec::new();
    let mut i: usize = 0;
    while i < symbols.len()
        invariant
            i <= symbols@.len(),
            ids@.len() == keys@.len(),
            forall|k: int| 0 <= k < ids@.len() ==> key_view(#[trigger] keys@[k]) == seq![ids@[k]@],
            forall|a: int| 0 <= a < ids@.len() ==> is_entry_id(symbols@, #[trigger] ids@[a]@),
            forall|k: int| 0 <= k < i && (#[trigger] symbols@[k]).is_entrypoint ==> has_text(ids@, symbols@[k].id@),
        decreases symbols.len() - i,
    {
        if symbols[i].is_entrypoint {
            let id = symbols[i].id.clone();
            let key = vec![chars_of(id.as_str())];
            assert(key_view(key) =~= seq![id@]);
            let ghost ids_old = ids@;
            ids.push(id);
            keys.push(key);
            proof {
                assert(ids@[ids@.len() - 1]@ == symbols@[i as int].id@);
                assert forall|k: int| 0 <= k < i + 1 && (#[trigger] symbols@[k]).is_entrypoint implies has_text(ids@, symbols@[k].id@) by {
                    if k < i {
                        let a = choose|a: int| 0 <= a < ids_old.len() && (#[trigger] ids_old[a])@ == symbols@[k].id@;
                        assert(ids@[a] == ids_old[a]);
                    } else {
                        assert(ids@[ids@.len() - 1]@ == symbols@[k].id@);
                    }
                }
                assert forall|a: int| 0 <= a < ids@.len() implies is_entry_id(symbols@, #[trigger] ids@[a]@) by {
                    if a < ids_old.len() {
                        assert(ids@[a] == ids_old[a]);
                    } else {
                        assert(symbols@[i as int].is_entrypoint);
                    }
                }
            }
        }
        i = i + 1;
    }
    let ghost ids0 = ids@;
    let ghost sorted_from = ids@;
    sort_by_keys(&mut ids, &mut keys, Ghost(|k: Vec<Vec<char>>, s: String| key_view(k) == seq![s@]), Ghost(1nat));
    proof {
        assert forall|a: int| 0 <= a < ids@.len() implies is_entry_id(symbols@, #[trigger] ids@[a]@) by {
            assert(ids@.to_multiset().count(ids@[a]) > 0);
            assert(ids0.contains(ids@[a]));
            let m = choose|m: int| 0 <= m < ids0.len() && #[trigger] ids0[m] == ids@[a];
        }
        assert forall|k: int| 0 <= k < symbols@.len() && (#[trigger] symbols@[k]).is_entrypoint implies has_text(ids@, symbols@[k].id@) by {
            let m = choose|m: int| 0 <= m < ids0.len() && (#[trigger] ids0[m])@ == symbols@[k].id@;
            assert(ids0.to_multiset().count(ids0[m]) > 0);
            assert(ids@.contains(ids0[m]));
            let a = choose|a: int| 0 <= a < ids@.len() && #[trigger] ids@[a] == ids0[m];
        }
    }
    let mut out: Vec<String> = Vec::new();
    let mut j: usize = 0;
    while j < ids.len()
        invariant
            j <= ids@.len(),
            ids@.len() == keys@.len(),
            keys_sorted(key_views(keys@)),
            forall|k: int| 0 <= k < ids@.len() ==> key_view(#[trigger] keys@[k]) == seq![ids@[k]@],
            forall|a: int| 0 <= a < ids@.len() ==> is_entry_id(symbols@, #[trigger] ids@[a]@),
            forall|a: int, b: int| 0 <= a < b < out@.len() ==> lex_lt(#[trigger] out@[a]@, #[trigger] out@[b]@),
            j > 0 ==> out@.len() > 0 && out@[out@.len() - 1]@ == ids@[j - 1]@,
            j == 0 ==> out@.len() == 0,
            forall|a: int| 0 <= a < out@.len() ==> is_entry_id(symbols@, #[trigger] out@[a]@),
            forall|b: int| 0 <= b < j ==> has_text(out@, #[trigger] ids@[b]@),
        decreases ids.len() - j,
    {
        let ghost out_old = out@;
        if j == 0 || out[out.len() - 1] != ids[j] {
            proof {
                if j > 0 {
                    let last = out@[out@.len() - 1]@;
                    let x = ids@[j as int]@;
                    assert(key_views(keys@)[j - 1] == seq![last]);
                    assert(key_views(keys@)[j as int] == seq![x]);
                    assert(!keys_lt(key_views(keys@)[j as int], key_views(keys@)[j - 1]));
                    lemma_single_key(x, last);
                    crate::order::lemma_lex_total(x, last);
                    assert forall|a: int| 0 <= a < out@.len() implies lex_lt(#[trigger] out@[a]@, x) by {
                        if a < out@.len() - 1 {
                            crate::order::lemma_lex_transitive(out@[a]@, last, x);
                        }
                    }
                }
            }
            let ghost x = ids@[j as int]@;
            proof {
                if j > 0 {
                    assert(forall|a: int| 0 <= a < out_old.len() ==> lex_lt(#[trigger] out_old[a]@, x));
                }
            }
            out.push(ids[j].clone());
            proof {
                assert(out@[out@.len() - 1]@ == x);
                assert forall|a: int, b: int| 0 <= a < b < out@.len() implies lex_lt(#[trigger] out@[a]@, #[trigger] out@[b]@) by {
                    assert(out@[a] == out_old[a]);
                    if b < out_old.len() {
                        assert(out@[b] == out_old[b]);
                    }
                }
                assert forall|a: int| 0 <= a < out@.len() implies is_entry_id(symbols@, #[trigger] out@[a]@) by {
                    if a < out_old.len() {
                        assert(out@[a] == out_old[a]);
                    }
                }
                assert forall|b: int| 0 <= b < j + 1 implies has_text(out@, #[trigger] ids@[b]@) by {
                    if b < j {
                        let a = choose|a: int| 0 <= a < out_old.len() && (#[trigger] out_old[a])@ == ids@[b]@;
                        assert(out@[a] == out_old[a]);
                    } else {
                        assert(out@[out@.len() - 1]@ == ids@[b]@);
                    }
                }
            }
        } else {
            proof {
                assert(out@[out@.len() - 1]@ == ids@[j as int]@);
            }
        }
        j = j + 1;
    }
    out
}


/// Version of the report and cache layout.
pub const SCHEMA_VERSION: &'static str = "0.1.0";

/// What one file contributes to a run: its record, what was found in it,
/// and whether that came from the cache.
#[derive(Debug)]
pub struct FileOutcome {
    pub path: String,
    pub language: Language,
    pub hash: String,
    pub byte_size: usize,
    pub parsed: ParsedFile,
    pub from_cache: bool,
}

/// A file outcome with its text fields as character sequences.
pub struct OutcomeView {
    pub path: Seq<char>,
    pub language: Language,
    pub hash: Seq<char>,
    pub byte_size: usize,
    pub symbols: Seq<SymbolView>,
    pub calls: Seq<CallEdgeView>,
    pub from_cache: bool,
}

impl View for FileOutcome {
    type V = OutcomeView;

    open spec fn view(&self) -> OutcomeView {
        OutcomeView {
            path: self.path@,
            language: self.language,
            hash: self.hash@,
            byte_size: self.byte_size,
            symbols: symbol_views(self.parsed.symbols@),
            calls: call_views(self.parsed.calls@),
            from_cache: self.from_cache,
        }
    }
}

/// Views of a sequence of outcomes.
pub open spec fn outcome_views(os: Seq<FileOutcome>) -> Seq<OutcomeView> {
    os.map_values(|o: FileOutcome| o@)
}

/// The symbols of all outcomes, in outcome order.
pub open spec fn all_symbols(os: Seq<OutcomeView>) -> Seq<SymbolView>
    decreases os.len(),
{
    if os.len() == 0 {
        Seq::empty()
    } else {
        all_symbols(os.drop_last()) + os.last().symbols
    }
}

/// The call edges of all outcomes, in outcome order.
pub open spec fn all_calls(os: Seq<OutcomeView>) -> Seq<CallEdgeView>
    decreases os.len(),
{
    if os.len() == 0 {
        Seq::empty()
    } else {
        all_calls(os.drop_last()) + os.last().calls
    }
}

/// How many outcomes came from the cache.
pub open spec fn reused_count(os: Seq<OutcomeView>) -> nat
    decreases os.len(),
{
    if os.len() == 0 {
        0
    } else {
        reused_count(os.drop_last()) + if os.last().from_cache {
            1nat
        } else {
            0nat
        }
    }
}

/// The file record of an outcome.
pub open spec fn file_info_of(o: OutcomeView) -> (Seq<char>, Language, Seq<char>, usize) {
    (o.path, o.language, o.hash, o.byte_size)
}

/// The cache entry of an outcome.
pub open spec fn entry_of(o: OutcomeView) -> (Seq<char>, CachedFileView) {
    (o.path, CachedFileView { hash: o.hash, language: o.language, symbols: o.symbols, calls: o.calls })
}

/// The cache entries after storing each outcome in turn under its path,
/// starting from none.
pub open spec fn entries_after(os: Seq<OutcomeView>) -> Seq<(Seq<char>, CachedFileView)>
    decreases os.len(),
{
    if os.len() == 0 {
        Seq::empty()
    } else {
        let e = entries_after(os.drop_last());
        let k = index_of_path(e, os.last().path);
        if k >= 0 {
            e.update(k, entry_of(os.last()))
        } else {
            e.push(entry_of(os.last()))
        }
    }
}

/// The order of call edges: by caller id, callee name, then id.
pub open spec fn call_key(c: CallEdgeView) -> Seq<Seq<char>> {
    seq![c.caller_id, c.callee_name, c.id]
}

/// The order of file records: by path.
pub open spec fn file_key(f: (Seq<char>, Language, Seq<char>, usize)) -> Seq<Seq<char>> {
    seq![f.0]
}

/// What holds of an outcome that the extractor produced: every call is made
/// by one of its symbols and links to nothing yet, every symbol and call lies
/// in its file, ids derive from their seeds, and entrypoints are the symbols
/// named "main" and the exported ones.
pub open spec fn outcome_ok(o: OutcomeView) -> bool {
    crate::parser::walk_consistent(o.path, o.language, crate::parser::WalkView {
        symbols: o.symbols,
        calls: o.calls,
        containers: Seq::empty(),
        functions: Seq::empty(),
    })
}

/// Hashes the file at repo-relative `path` with contents `bytes`, and takes
/// its symbols and calls from the cache when the cache holds the same hash
/// and language for that path, else from the extractor.
pub fn analyze_path(path: &str, bytes: &[u8], cache: &AnalysisCache, index: &CacheIndex) -> (r: Result<FileOutcome, AnalysisError>)
    requires
        index.indexes(cache.entries()),
    ensures
        r matches Err(e) ==> (e == AnalysisError::UnsupportedFile <==> language_of_path(path@) is None),
        r matches Err(e) ==> e == AnalysisError::UnsupportedFile || e == AnalysisError::Parse,
        language_of_path(path@) is Some && (match cache.lookup(path@) {
            Some(f) => f.hash == crate::ids::sha256_hex(bytes@) && f.language == language_of_path(path@)->0,
            None => false,
        }) ==> r is Ok,
        language_of_path(path@) is Some && crate::parser::extractable(bytes@, language_of_path(path@)->0) ==> r is Ok,
        r matches Err(e) ==> e == AnalysisError::Parse ==> !crate::parser::extractable(bytes@, language_of_path(path@)->0),
        r matches Ok(o) ==> {
            &&& o.path@ == path@
            &&& Some(o.language) == language_of_path(path@)
            &&& o.hash@ == crate::ids::sha256_hex(bytes@)
            &&& o.byte_size == bytes@.len()
            &&& o.from_cache <==> (match cache.lookup(path@) {
                Some(f) => f.hash == o.hash@ && f.language == o.language,
                None => false,
            })
            &&& o.from_cache ==> o@.symbols == cache.lookup(path@)->0.symbols && o@.calls == cache.lookup(path@)->0.calls
            &&& !o.from_cache ==> outcome_ok(o@)
            &&& !o.from_cache ==> exists|u: crate::parser::FileSource|
                crate::parser::is_source_of(u, bytes@, path@, o.language)
                    && #[trigger] crate::parser::parsed_matches(o.parsed, crate::parser::walk_all(u))
        },
{
    let language = match detect_language(path) {
        Some(l) => l,
        None => {
            return Err(AnalysisError::UnsupportedFile);
        },
    };
    let hash = crate::ids::hash_bytes(bytes);
    let byte_size = bytes.len();
    match cache_gate(cache, index, path, hash.as_str(), language) {
        Some(parsed) => Ok(FileOutcome {
            path: path.to_owned(),
            language,
            hash,
            byte_size,
            parsed,
            from_cache: true,
        }),
        None => {
            let parsed = analyze_file(bytes, path, language)?;
            Ok(FileOutcome { path: path.to_owned(), language, hash, byte_size, parsed, from_cache: false })
        },
    }
}


/// Some outcome holds symbol `x`.
pub open spec fn outcome_has_symbol(os: Seq<OutcomeView>, x: SymbolView) -> bool {
    exists|i: int, k: int| 0 <= i < os.len() && 0 <= k < os[i].symbols.len() && #[trigger] os[i].symbols[k] == x
}

/// Some outcome holds call edge `x`.
pub open spec fn outcome_has_call(os: Seq<OutcomeView>, x: CallEdgeView) -> bool {
    exists|i: int, k: int| 0 <= i < os.len() && 0 <= k < os[i].calls.len() && #[trigger] os[i].calls[k] == x
}

proof fn lemma_all_symbols_members(os: Seq<OutcomeView>, x: SymbolView)
    ensures
        all_symbols(os).contains(x) <==> outcome_has_symbol(os, x),
    decreases os.len(),
{
    if os.len() > 0 {
        let init = os.drop_last();
        lemma_all_symbols_members(init, x);
        let a = all_symbols(init);
        let b = os.last().symbols;
        assert(all_symbols(os) == a + b);
        if (a + b).contains(x) {
            let t = choose|t: int| 0 <= t < (a + b).len() && (a + b)[t] == x;
            if t < a.len() {
                assert(a[t] == x);
                let (i, k) = choose|i: int, k: int| 0 <= i < init.len() && 0 <= k < init[i].symbols.len() && #[trigger] init[i].symbols[k] == x;
                assert(os[i] == init[i]);
            } else {
                assert(os[os.len() - 1].symbols[t - a.len()] == x);
            }
        }
        if outcome_has_symbol(os, x) {
            let (i, k) = choose|i: int, k: int| 0 <= i < os.len() && 0 <= k < os[i].symbols.len() && #[trigger] os[i].symbols[k] == x;
            if i < os.len() - 1 {
                assert(init[i] == os[i]);
                assert(outcome_has_symbol(init, x));
                let t = choose|t: int| 0 <= t < a.len() && a[t] == x;
                assert((a + b)[t] == x);
            } else {
                assert((a + b)[a.len() + k] == x);
            }
        }
    }
}

proof fn lemma_all_calls_members(os: Seq<OutcomeView>, x: CallEdgeView)
    ensures
        all_calls(os).contains(x) <==> outcome_has_call(os, x),
    decreases os.len(),
{
    if os.len() > 0 {
        let init = os.drop_last();
        lemma_all_calls_members(init, x);
        let a = all_calls(init);
        let b = os.last().calls;
        assert(all_calls(os) == a + b);
        if (a + b).contains(x) {
            let t = choose|t: int| 0 <= t < (a + b).len() && (a + b)[t] == x;
            if t < a.len() {
                assert(a[t] == x);
                let (i, k) = choose|i: int, k: int| 0 <= i < init.len() && 0 <= k < init[i].calls.len() && #[trigger] init[i].calls[k] == x;
                assert(os[i] == init[i]);
            } else {
                assert(os[os.len() - 1].calls[t - a.len()] == x);
            }
        }
        if outcome_has_call(os, x) {
            let (i, k) = choose|i: int, k: int| 0 <= i < os.len() && 0 <= k < os[i].calls.len() && #[trigger] os[i].calls[k] == x;
            if i < os.len() - 1 {
                assert(init[i] == os[i]);
                assert(outcome_has_call(init, x));
                let t = choose|t: int| 0 <= t < a.len() && a[t] == x;
                assert((a + b)[t] == x);
            } else {
                assert((a + b)[a.len() + k] == x);
            }
        }
    }
}

/// Every path stored in the cache after a run is the path of one of its
/// outcomes, and every outcome's path is stored.
pub proof fn lemma_cache_paths(os: Seq<OutcomeView>, p: Seq<char>)
    ensures
        index_of_path(entries_after(os), p) >= 0 <==> exists|i: int| 0 <= i < os.len() && (#[trigger] os[i]).path == p,
    decreases os.len(),
{
    if os.len() > 0 {
        let init = os.drop_last();
        lemma_cache_paths(init, p);
        let e = entries_after(init);
        let k = index_of_path(e, os.last().path);
        crate::cache::lemma_index_of_path_pub(e, os.last().path);
        if k >= 0 {
            let e2 = e.update(k, entry_of(os.last()));
            assert forall|t: int| 0 <= t < e2.len() implies (#[trigger] e2[t]).0 == e[t].0 by {}
            crate::cache::lemma_index_of_path_same_paths_pub(e2, e, p);
        } else {
            assert(e.push(entry_of(os.last())).drop_last() =~= e);
        }
        if exists|i: int| 0 <= i < os.len() && (#[trigger] os[i]).path == p {
            let i = choose|i: int| 0 <= i < os.len() && (#[trigger] os[i]).path == p;
            if i < os.len() - 1 {
                assert(init[i] == os[i]);
            }
        }
        if exists|i: int| 0 <= i < init.len() && (#[trigger] init[i]).path == p {
            let i = choose|i: int| 0 <= i < init.len() && (#[trigger] init[i]).path == p;
            assert(os[i] == init[i]);
        }
    }
}

/// Symbol `x` is the overlay of a symbol of some outcome.
pub open spec fn symbol_from_outcomes(os: Seq<OutcomeView>, manual: Seq<Seq<char>>, x: SymbolView) -> bool {
    exists|i: int, k: int| 0 <= i < os.len() && 0 <= k < os[i].symbols.len() && x == overlay_one(#[trigger] os[i].symbols[k], manual)
}

/// Call edge `x` is the resolution of a call of some outcome.
pub open spec fn call_from_outcomes(os: Seq<OutcomeView>, syms: Seq<SymbolView>, x: CallEdgeView) -> bool {
    exists|i: int, k: int| 0 <= i < os.len() && 0 <= k < os[i].calls.len() && x == resolve_one(#[trigger] os[i].calls[k], syms)
}

/// Some record of `files` has path `p`.
pub open spec fn path_listed(files: Seq<(Seq<char>, Language, Seq<char>, usize)>, p: Seq<char>) -> bool {
    exists|f: int| 0 <= f < files.len() && (#[trigger] files[f]).0 == p
}

/// Some record of `files` is `x`.
pub open spec fn has_file_record(files: Seq<(Seq<char>, Language, Seq<char>, usize)>, x: (Seq<char>, Language, Seq<char>, usize)) -> bool {
    exists|f: int| 0 <= f < files.len() && #[trigger] files[f] == x
}

/// Some symbol of `syms` is `x`.
pub open spec fn has_symbol_view(syms: Seq<SymbolView>, x: SymbolView) -> bool {
    exists|m: int| 0 <= m < syms.len() && #[trigger] syms[m] == x
}

/// Every call's caller is a symbol of the run; every linked callee is a
/// symbol of the run; every symbol and call lies in a file of the run; and a
/// symbol named "main", exported, or listed by name or qualified name among
/// the manual entrypoints is an entrypoint; for outcomes as the extractor
/// makes them.
pub proof fn lemma_result_laws(
    os: Seq<OutcomeView>,
    manual: Seq<Seq<char>>,
    syms: Seq<SymbolView>,
    calls: Seq<CallEdgeView>,
    files: Seq<(Seq<char>, Language, Seq<char>, usize)>,
)
    requires
        forall|i: int| 0 <= i < os.len() ==> outcome_ok(#[trigger] os[i]),
        syms.to_multiset() == overlay_all(all_symbols(os), manual).to_multiset(),
        calls.to_multiset() == resolve_all(all_calls(os), all_symbols(os)).to_multiset(),
        files.to_multiset() == os.map_values(|o: OutcomeView| file_info_of(o)).to_multiset(),
    ensures
        forall|m: int| 0 <= m < calls.len() ==> exists|k: int| 0 <= k < syms.len() && (#[trigger] syms[k]).id == (#[trigger] calls[m]).caller_id,
        forall|m: int| 0 <= m < calls.len() && (#[trigger] calls[m]).callee_id is Some ==> exists|k: int| 0 <= k < syms.len() && Some((#[trigger] syms[k]).id) == calls[m].callee_id,
        forall|m: int| 0 <= m < syms.len() ==> path_listed(files, (#[trigger] syms[m]).file),
        forall|m: int| 0 <= m < calls.len() ==> path_listed(files, (#[trigger] calls[m]).file),
        forall|m: int| 0 <= m < syms.len() && ((#[trigger] syms[m]).name == "main"@ || syms[m].is_exported || manual.contains(syms[m].name) || manual.contains(syms[m].fq_name)) ==> syms[m].is_entrypoint,
{
    broadcast use vstd::seq_lib::group_to_multiset_ensures;

    let all_s = all_symbols(os);
    let all_c = all_calls(os);
    let ov = overlay_all(all_s, manual);
    let rs = resolve_all(all_c, all_s);
    let fi = os.map_values(|o: OutcomeView| file_info_of(o));
    // A symbol of the run comes from an outcome symbol through the overlay.
    assert forall|m: int| 0 <= m < syms.len() implies #[trigger] symbol_from_outcomes(os, manual, syms[m]) by {
        assert(syms.to_multiset().count(syms[m]) > 0);
        assert(ov.contains(syms[m]));
        let t = choose|t: int| 0 <= t < ov.len() && ov[t] == syms[m];
        assert(all_s.contains(all_s[t]));
        lemma_all_symbols_members(os, all_s[t]);
    }
    // Every outcome symbol has its overlay among the run's symbols.
    assert forall|i: int, k: int| 0 <= i < os.len() && 0 <= k < os[i].symbols.len() implies #[trigger] has_symbol_view(syms, overlay_one(os[i].symbols[k], manual)) by {
        lemma_all_symbols_members(os, os[i].symbols[k]);
        let t = choose|t: int| 0 <= t < all_s.len() && all_s[t] == os[i].symbols[k];
        assert(ov[t] == overlay_one(os[i].symbols[k], manual));
        assert(ov.contains(ov[t]));
        assert(syms.to_multiset().count(ov[t]) > 0);
        assert(syms.contains(ov[t]));
    }
    // A call of the run comes from an outcome call through the resolver.
    assert forall|m: int| 0 <= m < calls.len() implies #[trigger] call_from_outcomes(os, all_s, calls[m]) by {
        assert(calls.to_multiset().count(calls[m]) > 0);
        assert(rs.contains(calls[m]));
        let t = choose|t: int| 0 <= t < rs.len() && rs[t] == calls[m];
        assert(all_c.contains(all_c[t]));
        lemma_all_calls_members(os, all_c[t]);
    }
    // Every outcome's record is among the run's files.
    assert forall|i: int| 0 <= i < os.len() implies #[trigger] has_file_record(files, file_info_of(os[i])) by {
        assert(fi[i] == file_info_of(os[i]));
        assert(fi.contains(fi[i]));
        assert(files.to_multiset().count(fi[i]) > 0);
        assert(files.contains(fi[i]));
    }
    assert forall|m: int| 0 <= m < calls.len() implies exists|k: int| 0 <= k < syms.len() && (#[trigger] syms[k]).id == (#[trigger] calls[m]).caller_id by {
        assert(call_from_outcomes(os, all_s, calls[m]));
        let (i, k) = choose|i: int, k: int| 0 <= i < os.len() && 0 <= k < os[i].calls.len() && calls[m] == resolve_one(#[trigger] os[i].calls[k], all_s);
        assert(outcome_ok(os[i]));
        let q = choose|q: int| 0 <= q < os[i].symbols.len() && (#[trigger] os[i].symbols[q]).id == os[i].calls[k].caller_id;
        assert(has_symbol_view(syms, overlay_one(os[i].symbols[q], manual)));
        let m2 = choose|m2: int| 0 <= m2 < syms.len() && #[trigger] syms[m2] == overlay_one(os[i].symbols[q], manual);
    }
    assert forall|m: int| 0 <= m < calls.len() && (#[trigger] calls[m]).callee_id is Some implies exists|k: int| 0 <= k < syms.len() && Some((#[trigger] syms[k]).id) == calls[m].callee_id by {
        assert(call_from_outcomes(os, all_s, calls[m]));
        let (i, k) = choose|i: int, k: int| 0 <= i < os.len() && 0 <= k < os[i].calls.len() && calls[m] == resolve_one(#[trigger] os[i].calls[k], all_s);
        assert(outcome_ok(os[i]));
        assert(os[i].calls[k].callee_id is None);
        let cn = os[i].calls[k].callee_name;
        assert(exists|b: int| is_best_candidate(cn, all_s, b));
        let b = choose|b: int| is_best_candidate(cn, all_s, b);
        assert(all_s.contains(all_s[b]));
        lemma_all_symbols_members(os, all_s[b]);
        let (i2, k2) = choose|i2: int, k2: int| 0 <= i2 < os.len() && 0 <= k2 < os[i2].symbols.len() && #[trigger] os[i2].symbols[k2] == all_s[b];
        assert(has_symbol_view(syms, overlay_one(os[i2].symbols[k2], manual)));
        let m2 = choose|m2: int| 0 <= m2 < syms.len() && #[trigger] syms[m2] == overlay_one(os[i2].symbols[k2], manual);
    }
    assert forall|m: int| 0 <= m < syms.len() implies path_listed(files, (#[trigger] syms[m]).file) by {
        assert(symbol_from_outcomes(os, manual, syms[m]));
        let (i, k) = choose|i: int, k: int| 0 <= i < os.len() && 0 <= k < os[i].symbols.len() && syms[m] == overlay_one(#[trigger] os[i].symbols[k], manual);
        assert(outcome_ok(os[i]));
        assert(os[i].symbols[k].file == os[i].path);
        assert(has_file_record(files, file_info_of(os[i])));
        let f = choose|f: int| 0 <= f < files.len() && #[trigger] files[f] == file_info_of(os[i]);
    }
    assert forall|m: int| 0 <= m < calls.len() implies path_listed(files, (#[trigger] calls[m]).file) by {
        assert(call_from_outcomes(os, all_s, calls[m]));
        let (i, k) = choose|i: int, k: int| 0 <= i < os.len() && 0 <= k < os[i].calls.len() && calls[m] == resolve_one(#[trigger] os[i].calls[k], all_s);
        assert(outcome_ok(os[i]));
        assert(os[i].calls[k].file == os[i].path);
        assert(has_file_record(files, file_info_of(os[i])));
        let f = choose|f: int| 0 <= f < files.len() && #[trigger] files[f] == file_info_of(os[i]);
    }
    assert forall|m: int| 0 <= m < syms.len() && ((#[trigger] syms[m]).name == "main"@ || syms[m].is_exported || manual.contains(syms[m].name) || manual.contains(syms[m].fq_name)) implies syms[m].is_entrypoint by {
        assert(symbol_from_outcomes(os, manual, syms[m]));
        let (i, k) = choose|i: int, k: int| 0 <= i < os.len() && 0 <= k < os[i].symbols.len() && syms[m] == overlay_one(#[trigger] os[i].symbols[k], manual);
        assert(outcome_ok(os[i]));
    }
}

proof fn lemma_files_paths(os: Seq<OutcomeView>, files: Seq<(Seq<char>, Language, Seq<char>, usize)>, p: Seq<char>)
    requires
        files.to_multiset() == os.map_values(|o: OutcomeView| file_info_of(o)).to_multiset(),
    ensures
        path_listed(files, p) <==> exists|i: int| 0 <= i < os.len() && (#[trigger] os[i]).path == p,
{
    broadcast use vstd::seq_lib::group_to_multiset_ensures;

    let fi = os.map_values(|o: OutcomeView| file_info_of(o));
    if path_listed(files, p) {
        let f = choose|f: int| 0 <= f < files.len() && (#[trigger] files[f]).0 == p;
        assert(files.to_multiset().count(files[f]) > 0);
        assert(fi.contains(files[f]));
        let i = choose|i: int| 0 <= i < fi.len() && fi[i] == files[f];
        assert(os[i].path == p);
    }
    if exists|i: int| 0 <= i < os.len() && (#[trigger] os[i]).path == p {
        let i = choose|i: int| 0 <= i < os.len() && (#[trigger] os[i]).path == p;
        assert(fi[i] == file_info_of(os[i]));
        assert(fi.contains(fi[i]));
        assert(fi.to_multiset().count(fi[i]) > 0);
        assert(files.to_multiset().count(fi[i]) > 0);
        assert(files.contains(fi[i]));
        let f = choose|f: int| 0 <= f < files.len() && files[f] == fi[i];
        assert(files[f].0 == p);
    }
}

/// The cache entries of a run have distinct paths.
pub proof fn lemma_entries_distinct(os: Seq<OutcomeView>)
    ensures
        forall|a: int, b: int| 0 <= a < b < entries_after(os).len() ==> (#[trigger] entries_after(os)[a]).0
            != (#[trigger] entries_after(os)[b]).0,
    decreases os.len(),
{
    if os.len() > 0 {
        let init = os.drop_last();
        lemma_entries_distinct(init);
        let e = entries_after(init);
        let p = os.last().path;
        crate::cache::lemma_index_of_path_pub(e, p);
        if index_of_path(e, p) < 0 {
            crate::cache::lemma_index_of_path_absent(e, p);
        }
    }
}

/// After a run whose files have distinct paths, the cache holds each file's
/// outcome under its path: a second run over the same bytes finds every file
/// there with the same hash and language, and so reuses all of them.
pub proof fn lemma_rerun_hits_cache(os: Seq<OutcomeView>, i: int)
    requires
        0 <= i < os.len(),
        forall|a: int, b: int| 0 <= a < b < os.len() ==> (#[trigger] os[a]).path != (#[trigger] os[b]).path,
    ensures
        index_of_path(entries_after(os), os[i].path) >= 0,
        entries_after(os)[index_of_path(entries_after(os), os[i].path)] == entry_of(os[i]),
    decreases os.len(),
{
    let init = os.drop_last();
    let e = entries_after(init);
    let last = os.last();
    assert forall|a: int, b: int| 0 <= a < b < init.len() implies (#[trigger] init[a]).path != (#[trigger] init[b]).path by {
        assert(init[a] == os[a] && init[b] == os[b]);
    }
    lemma_cache_paths(init, last.path);
    if index_of_path(e, last.path) >= 0 {
        let a = choose|a: int| 0 <= a < init.len() && (#[trigger] init[a]).path == last.path;
        assert(os[a] == init[a]);
    }
    assert(e.push(entry_of(last)).drop_last() =~= e);
    if i < os.len() - 1 {
        assert(init[i] == os[i]);
        lemma_rerun_hits_cache(init, i);
        crate::cache::lemma_index_of_path_pub(e, os[i].path);
    } else {
        crate::cache::lemma_index_of_path_pub(e, last.path);
    }
}

/// The report of a run and the cache to keep for the next one.
#[derive(Debug)]
pub struct AnalysisOutput {
    pub result: AnalysisResult,
    pub cache: AnalysisCache,
}

fn append_symbols(dst: &mut Vec<Symbol>, src: &Vec<Symbol>)
    ensures
        symbol_views(final(dst)@) == symbol_views(old(dst)@) + symbol_views(src@),
{
    let copies = copy_symbols(src);
    let ghost d0 = dst@;
    let mut i: usize = 0;
    while i < copies.len()
        invariant
            i <= copies@.len(),
            symbol_views(copies@) == symbol_views(src@),
            symbol_views(dst@) == symbol_views(d0) + symbol_views(copies@.subrange(0, i as int)),
        decreases copies.len() - i,
    {
        let ghost before = dst@;
        dst.push(copies[i].copy());
        assert(symbol_views(dst@) =~= symbol_views(before).push(copies@[i as int]@));
        assert(symbol_views(copies@.subrange(0, i + 1)) =~= symbol_views(copies@.subrange(0, i as int)).push(copies@[i as int]@));
        i = i + 1;
    }
    assert(copies@.subrange(0, copies@.len() as int) =~= copies@);
}

fn append_calls(dst: &mut Vec<CallEdge>, src: &Vec<CallEdge>)
    ensures
        call_views(final(dst)@) == call_views(old(dst)@) + call_views(src@),
{
    let copies = copy_calls(src);
    let ghost d0 = dst@;
    let mut i: usize = 0;
    while i < copies.len()
        invariant
            i <= copies@.len(),
            call_views(copies@) == call_views(src@),
            call_views(dst@) == call_views(d0) + call_views(copies@.subrange(0, i as int)),
        decreases copies.len() - i,
    {
        let ghost before = dst@;
        dst.push(copies[i].copy());
        assert(call_views(dst@) =~= call_views(before).push(copies@[i as int]@));
        assert(call_views(copies@.subrange(0, i + 1)) =~= call_views(copies@.subrange(0, i as int)).push(copies@[i as int]@));
        i = i + 1;
    }
    assert(copies@.subrange(0, copies@.len() as int) =~= copies@);
}

/// Sorts symbols by qualified name, then id.
fn sort_symbols(symbols: &mut Vec<Symbol>)
    ensures
        symbol_views(final(symbols)@).to_multiset() == symbol_views(old(symbols)@).to_multiset(),
        forall|i: int, j: int| 0 <= i < j < final(symbols)@.len() ==> !keys_lt(
            symbol_key(#[trigger] final(symbols)@[j]@),
            symbol_key(#[trigger] final(symbols)@[i]@),
        ),
{
    let mut keys = symbol_keys(symbols);
    let ghost s0 = symbols@;
    sort_by_keys(symbols, &mut keys, Ghost(|k: Vec<Vec<char>>, s: Symbol| key_view(k) == symbol_key(s@)), Ghost(2nat));
    proof {
        crate::order::lemma_map_multiset(symbols@, s0, |s: Symbol| s@);
        assert(symbol_views(symbols@) =~= symbols@.map_values(|s: Symbol| s@));
        assert(symbol_views(s0) =~= s0.map_values(|s: Symbol| s@));
        assert forall|i: int, j: int| 0 <= i < j < symbols@.len() implies !keys_lt(
            symbol_key(#[trigger] symbols@[j]@),
            symbol_key(#[trigger] symbols@[i]@),
        ) by {
            assert(key_views(keys@)[i] == key_view(keys@[i]));
            assert(key_views(keys@)[j] == key_view(keys@[j]));
        }
    }
}

/// Sorts call edges by caller id, callee name, then id.
fn sort_calls(calls: &mut Vec<CallEdge>)
    ensures
        call_views(final(calls)@).to_multiset() == call_views(old(calls)@).to_multiset(),
        forall|i: int, j: int| 0 <= i < j < final(calls)@.len() ==> !keys_lt(
            call_key(#[trigger] final(calls)@[j]@),
            call_key(#[trigger] final(calls)@[i]@),
        ),
{
    let mut keys: Vec<Vec<Vec<char>>> = Vec::new();
    let mut i: usize = 0;
    while i < calls.len()
        invariant
            i <= calls@.len(),
            keys@.len() == i,
            forall|k: int| 0 <= k < i ==> key_view(#[trigger] keys@[k]) == call_key(calls@[k]@),
        decreases calls.len() - i,
    {
        let c = &calls[i];
        let key = vec![chars_of(c.caller_id.as_str()), chars_of(c.callee_name.as_str()), chars_of(c.id.as_str())];
        assert(key_view(key) =~= call_key(calls@[i as int]@));
        keys.push(key);
        i = i + 1;
    }
    let ghost c0 = calls@;
    sort_by_keys(calls, &mut keys, Ghost(|k: Vec<Vec<char>>, c: CallEdge| key_view(k) == call_key(c@)), Ghost(3nat));
    proof {
        crate::order::lemma_map_multiset(calls@, c0, |c: CallEdge| c@);
        assert(call_views(calls@) =~= calls@.map_values(|c: CallEdge| c@));
        assert(call_views(c0) =~= c0.map_values(|c: CallEdge| c@));
        assert forall|i: int, j: int| 0 <= i < j < calls@.len() implies !keys_lt(
            call_key(#[trigger] calls@[j]@),
            call_key(#[trigger] calls@[i]@),
        ) by {
            assert(key_views(keys@)[i] == key_view(keys@[i]));
            assert(key_views(keys@)[j] == key_view(keys@[j]));
        }
    }
}

/// Sorts file records by path.
fn sort_files(files: &mut Vec<FileInfo>)
    ensures
        file_views(final(files)@).to_multiset() == file_views(old(files)@).to_multiset(),
        forall|i: int, j: int| 0 <= i < j < final(files)@.len() ==> !keys_lt(
            file_key(#[trigger] final(files)@[j]@),
            file_key(#[trigger] final(files)@[i]@),
        ),
{
    let mut keys: Vec<Vec<Vec<char>>> = Vec::new();
    let mut i: usize = 0;
    while i < files.len()
        invariant
            i <= files@.len(),
            keys@.len() == i,
            forall|k: int| 0 <= k < i ==> key_view(#[trigger] keys@[k]) == file_key(files@[k]@),
        decreases files.len() - i,
    {
        let key = vec![chars_of(files[i].path.as_str())];
        assert(key_view(key) =~= file_key(files@[i as int]@));
        keys.push(key);
        i = i + 1;
    }
    let ghost f0 = files@;
    sort_by_keys(files, &mut keys, Ghost(|k: Vec<Vec<char>>, f: FileInfo| key_view(k) == file_key(f@)), Ghost(1nat));
    proof {
        crate::order::lemma_map_multiset(files@, f0, |f: FileInfo| f@);
        assert(file_views(files@) =~= files@.map_values(|f: FileInfo| f@));
        assert(file_views(f0) =~= f0.map_values(|f: FileInfo| f@));
        assert forall|i: int, j: int| 0 <= i < j < files@.len() implies !keys_lt(
            file_key(#[trigger] files@[j]@),
            file_key(#[trigger] files@[i]@),
        ) by {
            assert(key_views(keys@)[i] == key_view(keys@[i]));
            assert(key_views(keys@)[j] == key_view(keys@[j]));
        }
    }
}


/// The views of cache entries.
pub open spec fn entry_views(es: Seq<CacheEntry>) -> Seq<(Seq<char>, CachedFileView)> {
    es.map_values(|e: CacheEntry| e@)
}

/// What the outcomes add up to: their file records, symbols and calls in
/// outcome order, how many came from the cache, and the cache entries.
pub struct Gathered {
    pub files: Vec<FileInfo>,
    pub symbols: Vec<Symbol>,
    pub calls: Vec<CallEdge>,
    pub reused: usize,
    pub entries: Vec<CacheEntry>,
}

proof fn lemma_reused_bound(os: Seq<OutcomeView>)
    ensures
        reused_count(os) <= os.len(),
    decreases os.len(),
{
    if os.len() > 0 {
        lemma_reused_bound(os.drop_last());
    }
}

/// Adds up the outcomes: records, symbols and calls in order, the number
/// taken from the cache, and each outcome stored under its path.
pub fn gather(outcomes: &Vec<FileOutcome>) -> (r: Gathered)
    ensures
        file_views(r.files@) == outcome_views(outcomes@).map_values(|o: OutcomeView| file_info_of(o)),
        symbol_views(r.symbols@) == all_symbols(outcome_views(outcomes@)),
        call_views(r.calls@) == all_calls(outcome_views(outcomes@)),
        r.reused as nat == reused_count(outcome_views(outcomes@)),
        entry_views(r.entries@) == entries_after(outcome_views(outcomes@)),
{
    let ghost os = outcome_views(outcomes@);
    let mut files: Vec<FileInfo> = Vec::new();
    let mut symbols: Vec<Symbol> = Vec::new();
    let mut calls: Vec<CallEdge> = Vec::new();
    let mut reused: usize = 0;
    let mut entries: Vec<CacheEntry> = Vec::new();
    let mut positions: StringHashMap<usize> = StringHashMap::new();
    let mut i: usize = 0;
    while i < outcomes.len()
        invariant
            i <= outcomes@.len(),
            os == outcome_views(outcomes@),
            file_views(files@) == os.subrange(0, i as int).map_values(|o: OutcomeView| file_info_of(o)),
            symbol_views(symbols@) == all_symbols(os.subrange(0, i as int)),
            call_views(calls@) == all_calls(os.subrange(0, i as int)),
            reused as nat == reused_count(os.subrange(0, i as int)),
            reused <= i,
            entry_views(entries@) == entries_after(os.subrange(0, i as int)),
            forall|p: Seq<char>| #[trigger] positions@.contains_key(p) <==> index_of_path(entry_views(entries@), p) >= 0,
            forall|p: Seq<char>| #[trigger] positions@.contains_key(p) ==> positions@[p] as int
                == index_of_path(entry_views(entries@), p),
        decreases outcomes.len() - i,
    {
        let o = &outcomes[i];
        let ghost sub = os.subrange(0, i as int);
        let ghost next = os.subrange(0, i + 1);
        assert(next.drop_last() =~= sub);
        assert(next.last() == o@);
        if o.from_cache {
            reused = reused + 1;
        }
        let ghost files_old = files@;
        files.push(FileInfo { path: o.path.clone(), language: o.language, hash: o.hash.clone(), byte_size: o.byte_size });
        assert(file_views(files@) =~= next.map_values(|o: OutcomeView| file_info_of(o))) by {
            assert(file_views(files@) =~= file_views(files_old).push(file_info_of(o@)));
            assert(next.map_values(|o: OutcomeView| file_info_of(o)) =~= sub.map_values(|o: OutcomeView| file_info_of(o)).push(file_info_of(o@)));
        }
        append_symbols(&mut symbols, &o.parsed.symbols);
        append_calls(&mut calls, &o.parsed.calls);
        let entry = CacheEntry {
            path: o.path.clone(),
            file: CachedFile {
                hash: o.hash.clone(),
                language: o.language,
                symbols: copy_symbols(&o.parsed.symbols),
                calls: copy_calls(&o.parsed.calls),
            },
        };
        assert(entry@ == entry_of(o@));
        let ghost es_old = entry_views(entries@);
        match positions.get(o.path.as_str()) {
            Some(k) => {
                let k = *k;
                proof {
                    crate::cache::lemma_index_of_path_pub(es_old, o.path@);
                }
                entries.set(k, entry);
                proof {
                    let es_new = entry_views(entries@);
                    assert(es_new =~= es_old.update(k as int, entry_of(o@)));
                    assert forall|q: Seq<char>| index_of_path(es_new, q) == index_of_path(es_old, q) by {
                        crate::cache::lemma_index_of_path_same_paths_pub(es_new, es_old, q);
                    }
                }
            },
            None => {
                let n = entries.len();
                entries.push(entry);
                positions.insert(o.path.clone(), n);
                proof {
                    let es_new = entry_views(entries@);
                    assert(es_new =~= es_old.push(entry_of(o@)));
                    assert(es_new.drop_last() =~= es_old);
                    assert forall|q: Seq<char>| #[trigger] positions@.contains_key(q) <==> index_of_path(es_new, q) >= 0 by {}
                    assert forall|q: Seq<char>| #[trigger] positions@.contains_key(q) implies positions@[q] as int
                        == index_of_path(es_new, q) by {}
                }
            },
        }
        i = i + 1;
    }
    assert(os.subrange(0, outcomes@.len() as int) =~= os);
    Gathered { files, symbols, calls, reused, entries }
}


/// The text of a timestamp, or "unknown" when it could not be formatted.
pub fn timestamp_or_unknown(formatted: Option<String>) -> (r: String)
    ensures
        r@ == match formatted {
            Some(t) => t@,
            None => "unknown"@,
        },
{
    match formatted {
        Some(t) => t,
        None => String::from_str("unknown"),
    }
}

/// Builds the report and the refreshed cache from the outcomes of a run:
/// gathers records, symbols and calls; stores every outcome in the cache,
/// which keeps no other path; links calls to symbols; applies the manual
/// entrypoints; lists the entrypoint ids; sorts symbols by (qualified name,
/// id), calls by (caller id, callee name, id) and files by path.
pub fn build_output(
    root: &str,
    generated_at: String,
    cache: Option<AnalysisCache>,
    outcomes: &Vec<FileOutcome>,
    manual_entrypoints: &Vec<String>,
) -> (r: AnalysisOutput)
    ensures
        r.result.schema_version@ == SCHEMA_VERSION@,
        r.result.root@ == root@,
        r.result.generated_at@ == generated_at@,
        file_views(r.result.files@).to_multiset() == outcome_views(outcomes@).map_values(
            |o: OutcomeView| file_info_of(o),
        ).to_multiset(),
        symbol_views(r.result.symbols@).to_multiset() == overlay_all(
            all_symbols(outcome_views(outcomes@)),
            crate::text::texts(manual_entrypoints@),
        ).to_multiset(),
        call_views(r.result.calls@).to_multiset() == resolve_all(
            all_calls(outcome_views(outcomes@)),
            all_symbols(outcome_views(outcomes@)),
        ).to_multiset(),
        forall|i: int, j: int| 0 <= i < j < r.result.symbols@.len() ==> !keys_lt(
            symbol_key(#[trigger] r.result.symbols@[j]@),
            symbol_key(#[trigger] r.result.symbols@[i]@),
        ),
        forall|i: int, j: int| 0 <= i < j < r.result.calls@.len() ==> !keys_lt(
            call_key(#[trigger] r.result.calls@[j]@),
            call_key(#[trigger] r.result.calls@[i]@),
        ),
        forall|i: int, j: int| 0 <= i < j < r.result.files@.len() ==> !keys_lt(
            file_key(#[trigger] r.result.files@[j]@),
            file_key(#[trigger] r.result.files@[i]@),
        ),
        forall|a: int, b: int| 0 <= a < b < r.result.entrypoints@.len() ==> lex_lt(
            #[trigger] r.result.entrypoints@[a]@,
            #[trigger] r.result.entrypoints@[b]@,
        ),
        forall|a: int| 0 <= a < r.result.entrypoints@.len() ==> is_entry_id(
            r.result.symbols@,
            #[trigger] r.result.entrypoints@[a]@,
        ),
        forall|k: int| 0 <= k < r.result.symbols@.len() && (#[trigger] r.result.symbols@[k]).is_entrypoint
            ==> has_text(r.result.entrypoints@, r.result.symbols@[k].id@),
        r.result.stats.file_count == r.result.files@.len(),
        r.result.stats.symbol_count == r.result.symbols@.len(),
        r.result.stats.call_count == r.result.calls@.len(),
        r.result.stats.entrypoint_count == r.result.entrypoints@.len(),
        r.result.stats.reused_cache_files as nat == reused_count(outcome_views(outcomes@)),
        r.result.stats.reanalyzed_files == outcomes@.len() - reused_count(outcome_views(outcomes@)),
        r.result.files@.len() == outcomes@.len(),
        r.result.symbols@.len() == all_symbols(outcome_views(outcomes@)).len(),
        r.result.calls@.len() == all_calls(outcome_views(outcomes@)).len(),
        r.cache.entries() == entries_after(outcome_views(outcomes@)),
        r.cache.wf(),
        forall|p: Seq<char>| index_of_path(r.cache.entries(), p) >= 0 <==> #[trigger] path_listed(file_views(r.result.files@), p),
        (forall|i: int| 0 <= i < outcomes@.len() ==> outcome_ok(#[trigger] outcome_views(outcomes@)[i])) ==> {
            let syms = symbol_views(r.result.symbols@);
            let calls = call_views(r.result.calls@);
            let files = file_views(r.result.files@);
            &&& forall|m: int| 0 <= m < calls.len() ==> exists|k: int| 0 <= k < syms.len() && (#[trigger] syms[k]).id == (#[trigger] calls[m]).caller_id
            &&& forall|m: int| 0 <= m < calls.len() && (#[trigger] calls[m]).callee_id is Some ==> exists|k: int| 0 <= k < syms.len() && Some((#[trigger] syms[k]).id) == calls[m].callee_id
            &&& forall|m: int| 0 <= m < syms.len() ==> path_listed(files, (#[trigger] syms[m]).file)
            &&& forall|m: int| 0 <= m < calls.len() ==> path_listed(files, (#[trigger] calls[m]).file)
            &&& forall|m: int| 0 <= m < syms.len() && ((#[trigger] syms[m]).name == "main"@ || syms[m].is_exported || crate::text::texts(manual_entrypoints@).contains(syms[m].name) || crate::text::texts(manual_entrypoints@).contains(syms[m].fq_name)) ==> syms[m].is_entrypoint
        },
        match cache {
            Some(c) => r.cache.schema_version == c.schema_version && r.cache.root == c.root,
            None => r.cache.schema_version@ == SCHEMA_VERSION@ && r.cache.root@ == root@,
        },
{
    let ghost os = outcome_views(outcomes@);
    let (schema_version, cache_root) = match cache {
        Some(c) => (c.schema_version, c.root),
        None => (SCHEMA_VERSION.to_owned(), root.to_owned()),
    };
    let g = gather(outcomes);
    let Gathered { files: mut files, symbols: mut symbols, calls: mut calls, reused, entries } = g;
    proof {
        lemma_reused_bound(os);
        assert(file_views(files@).len() == os.len());
    }
    let ghost gathered_symbols = symbol_views(symbols@);
    resolve_calls(&mut calls, &symbols);
    apply_manual_entrypoints(&mut symbols, manual_entrypoints);
    let ghost resolved = call_views(calls@);
    let ghost overlaid = symbol_views(symbols@);
    sort_symbols(&mut symbols);
    sort_calls(&mut calls);
    let ghost files_before = file_views(files@);
    sort_files(&mut files);
    let entrypoints = entrypoint_ids(&symbols);
    proof {
        assert(symbol_views(symbols@).len() == symbol_views(symbols@).to_multiset().len());
        assert(overlaid.len() == overlaid.to_multiset().len());
        assert(call_views(calls@).len() == call_views(calls@).to_multiset().len());
        assert(resolved.len() == resolved.to_multiset().len());
        assert(file_views(files@).len() == file_views(files@).to_multiset().len());
        assert(files_before.len() == files_before.to_multiset().len());
    }
    let stats = AnalysisStats {
        file_count: files.len(),
        symbol_count: symbols.len(),
        call_count: calls.len(),
        entrypoint_count: entrypoints.len(),
        reused_cache_files: reused,
        reanalyzed_files: outcomes.len() - reused,
    };
    let result = AnalysisResult {
        schema_version: SCHEMA_VERSION.to_owned(),
        root: root.to_owned(),
        generated_at,
        stats,
        files,
        symbols,
        calls,
        entrypoints,
    };
    let cache = AnalysisCache { schema_version, root: cache_root, files: entries };
    proof {
        lemma_entries_distinct(os);
        assert forall|a: int, b: int| 0 <= a < b < cache.files@.len() implies (#[trigger] cache.files@[a]).path@
            != (#[trigger] cache.files@[b]).path@ by {
            assert(cache.entries()[a].0 == cache.files@[a].path@);
            assert(cache.entries()[b].0 == cache.files@[b].path@);
        }
        let fv = file_views(result.files@);
        assert forall|p: Seq<char>| index_of_path(cache.entries(), p) >= 0 <==> #[trigger] path_listed(fv, p) by {
            lemma_cache_paths(os, p);
            lemma_files_paths(os, fv, p);
        }
        if forall|i: int| 0 <= i < outcomes@.len() ==> outcome_ok(#[trigger] outcome_views(outcomes@)[i]) {
            lemma_result_laws(
                os,
                crate::text::texts(manual_entrypoints@),
                symbol_views(result.symbols@),
                call_views(result.calls@),
                fv,
            );
        }
    }
    AnalysisOutput { result, cache }
}


/// A date and time with offset from the `time` crate, held opaque.
#[verifier::external_type_specification]
#[verifier::external_body]
pub struct ExOffsetDateTime(time::OffsetDateTime);

/// Relies on `time::OffsetDateTime::now_utc`: the current time in UTC.
#[verifier::external_body]
fn utc_now() -> time::OffsetDateTime {
    time::OffsetDateTime::now_utc()
}

/// Relies on `time::OffsetDateTime::format` with the RFC 3339 description:
/// the formatted time, or `None` when formatting failed.
#[verifier::external_body]
fn format_rfc3339(t: time::OffsetDateTime) -> Option<String> {
    t.format(&time::format_description::well_known::Rfc3339).ok()
}

/// The current UTC time in RFC 3339 form, or "unknown" when it cannot be formatted.
pub fn generated_timestamp() -> String {
    timestamp_or_unknown(format_rfc3339(utc_now()))
}

/// The failure for a root that is missing or is not a directory; `Ok` when
/// it can be analyzed.
pub fn check_root(exists: bool, is_dir: bool) -> (r: Result<(), AnalysisError>)
    ensures
        r is Ok <==> exists && is_dir,
        r matches Err(e) ==> e == AnalysisError::InvalidPath,
{
    if exists && is_dir {
        Ok(())
    } else {
        Err(AnalysisError::InvalidPath)
    }
}

/// What a run is asked to do: the root to analyze, whether to follow
/// symbolic links, and names to mark as entrypoints.
#[derive(Debug, Clone)]
pub struct AnalysisConfig {
    pub root: String,
    pub follow_symlinks: bool,
    pub manual_entrypoints: Vec<String>,
}

impl AnalysisConfig {
    /// A configuration for `root` that follows no links and names no entrypoints.
    pub fn new(root: &str) -> (r: AnalysisConfig)
        ensures
            r.root@ == root@,
            !r.follow_symlinks,
            r.manual_entrypoints@.len() == 0,
    {
        AnalysisConfig { root: root.to_owned(), follow_symlinks: false, manual_entrypoints: Vec::new() }
    }
}

/// Progress of a run, for an observer: the phase ("collecting" or
/// "analyzing"), the file at hand, how many were handled, and how many there
/// are (0 while still unknown).
#[derive(Debug, Clone)]
pub struct ProgressEvent {
    pub phase: String,
    pub current_file: String,
    pub processed: u32,
    pub total: u32,
}

impl ProgressEvent {
    /// A file found while collecting, after `processed` others.
    pub fn collecting(current_file: &str, processed: usize) -> (r: ProgressEvent)
        ensures
            r.phase@ == "collecting"@,
            r.current_file@ == slashed(current_file@),
            r.processed == processed as u32,
            r.total == 0,
    {
        ProgressEvent {
            phase: String::from_str("collecting"),
            current_file: slash_path(current_file),
            processed: #[verifier::truncate] (processed as u32),
            total: 0,
        }
    }

    /// A file about to be analyzed, after `processed` of `total`.
    pub fn analyzing(current_file: &str, processed: usize, total: usize) -> (r: ProgressEvent)
        ensures
            r.phase@ == "analyzing"@,
            r.current_file@ == slashed(current_file@),
            r.processed == processed as u32,
            r.total == total as u32,
    {
        ProgressEvent {
            phase: String::from_str("analyzing"),
            current_file: slash_path(current_file),
            processed: #[verifier::truncate] (processed as u32),
            total: #[verifier::truncate] (total as u32),
        }
    }
}

/// A path with every backslash made a forward slash.
pub open spec fn slashed(s: Seq<char>) -> Seq<char> {
    s.map_values(|c: char| if c == '\\' { '/' } else { c })
}

/// `path` with every backslash made a forward slash.
pub fn slash_path(path: &str) -> (r: String)
    ensures
        r@ == slashed(path@),
{
    let cs = chars_of(path);
    let mut r = String::new();
    let mut i: usize = 0;
    while i < cs.len()
        invariant
            i <= cs@.len(),
            cs@ == path@,
            r@ == slashed(path@.subrange(0, i as int)),
        decreases cs.len() - i,
    {
        let c = if cs[i] == '\\' { '/' } else { cs[i] };
        crate::text::push_char(&mut r, c);
        assert(slashed(path@.subrange(0, i + 1)) =~= slashed(path@.subrange(0, i as int)).push(c));
        i = i + 1;
    }
    assert(path@.subrange(0, cs@.len() as int) =~= path@);
    r
}

/// Directory names that are never descended into.
pub open spec fn hard_skipped(name: Seq<char>) -> bool {
    name == ".git"@ || name == "target"@ || name == "node_modules"@ || name == "dist"@ || name
        == "build"@ || name == ".turbo"@ || name == ".idea"@ || name == ".vscode"@ || name
        == ".cargo"@
}

/// Whether the walk skips an entry named `name`: a directory in the fixed
/// skip list, or a directory whose name starts with '.' other than ".github".
pub fn is_ignored(name: &str, is_dir: bool) -> (r: bool)
    ensures
        r == (is_dir && (hard_skipped(name@) || (crate::text::has_prefix(name@, "."@) && name@ != ".github"@))),
{
    if !is_dir {
        return false;
    }
    let listed = crate::text::text_eq(name, ".git") || crate::text::text_eq(name, "target")
        || crate::text::text_eq(name, "node_modules") || crate::text::text_eq(name, "dist")
        || crate::text::text_eq(name, "build") || crate::text::text_eq(name, ".turbo")
        || crate::text::text_eq(name, ".idea") || crate::text::text_eq(name, ".vscode")
        || crate::text::text_eq(name, ".cargo");
    if listed {
        return true;
    }
    crate::text::starts_with_text(name, ".") && !crate::text::text_eq(name, ".github")
}

} // verus!
