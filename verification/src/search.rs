//! Workspace-symbol search results: fuzzy scores, the ranking of the
//! candidates that match both query fields, and how a result is labelled.
use vstd::prelude::*;

use crate::state::{location_view, LocationView, SourceLocation};
use crate::text::{char_is_whitespace, chars_of, is_whitespace, push_char, str_to_lowercase, to_lowercase};

verus! {

/// One workspace symbol offered by the search.
#[derive(Clone, Debug, PartialEq, Eq)]
pub struct SearchItem {
    pub name: String,
    pub container_name: Option<String>,
    pub location: String,
    pub source: Option<SourceLocation>,
}

/// A search item with its text taken as characters.
pub struct ItemView {
    pub name: Seq<char>,
    pub container_name: Option<Seq<char>>,
    pub location: Seq<char>,
    pub source: Option<LocationView>,
}

impl View for SearchItem {
    type V = ItemView;

    open spec fn view(&self) -> ItemView {
        ItemView {
            name: self.name@,
            container_name: crate::graph::text_view(self.container_name),
            location: self.location@,
            source: location_view(self.source),
        }
    }
}

/// A copy of a search item.
pub fn copy_item(item: &SearchItem) -> (r: SearchItem)
    ensures
        r@ == item@,
{
    SearchItem {
        name: item.name.clone(),
        container_name: match &item.container_name {
            Some(c) => Some(c.clone()),
            None => None,
        },
        location: item.location.clone(),
        source: crate::state::copy_optional_location(&item.source),
    }
}

/// The container shown beside a result, unless the name already starts
/// with it as `container::` or `container.`.
pub open spec fn container_shown(item: ItemView) -> Option<Seq<char>> {
    match item.container_name {
        Some(c) => if crate::text::has_prefix(item.name, c + seq![':', ':']) || crate::text::has_prefix(
            item.name,
            c + seq!['.'],
        ) {
            None
        } else {
            Some(c)
        },
        None => None,
    }
}

/// The container shown beside a result.
pub fn container_label(item: &SearchItem) -> (r: Option<&str>)
    ensures
        match r {
            Some(s) => container_shown(item@) == Some(s@),
            None => container_shown(item@) is None,
        },
{
    match &item.container_name {
        Some(container) => {
            let name = chars_of(item.name.as_str());
            let mut qualified = chars_of(container.as_str());
            let mut dotted = chars_of(container.as_str());
            qualified.push(':');
            qualified.push(':');
            dotted.push('.');
            assert(qualified@ =~= container@ + seq![':', ':']);
            assert(dotted@ =~= container@ + seq!['.']);
            if crate::text::starts_with(name.as_slice(), qualified.as_slice()) || crate::text::starts_with(
                name.as_slice(),
                dotted.as_slice(),
            ) {
                None
            } else {
                Some(container.as_str())
            }
        },
        None => None,
    }
}

/// The score that `nucleo-matcher` gives a candidate for one fuzzy atom,
/// matched case-insensitively with smart normalisation; `None` when the
/// atom is no subsequence of the candidate.
pub uninterp spec fn fuzzy_atom_score(query: Seq<char>, candidate: Seq<char>) -> Option<u32>;

/// Scores a candidate against one fuzzy atom with `nucleo-matcher`
/// (`Atom::new` with `CaseMatching::Ignore`, `Normalization::Smart` and
/// `AtomKind::Fuzzy`, then `Atom::score` with the default `Matcher`); the
/// score is named `fuzzy_atom_score`. `Atom::score` returns a `u16`.
#[verifier::external_body]
pub fn atom_score(query: &str, candidate: &str) -> (r: Option<u32>)
    ensures
        r == fuzzy_atom_score(query@, candidate@),
        r matches Some(v) ==> v <= u16::MAX,
{
    let mut matcher = nucleo_matcher::Matcher::new(nucleo_matcher::Config::DEFAULT);
    let mut buffer = Vec::new();
    nucleo_matcher::pattern::Atom::new(
        query,
        nucleo_matcher::pattern::CaseMatching::Ignore,
        nucleo_matcher::pattern::Normalization::Smart,
        nucleo_matcher::pattern::AtomKind::Fuzzy,
        false,
    ).score(nucleo_matcher::Utf32Str::new(candidate, &mut buffer), &mut matcher).map(u32::from)
}

/// The query without its whitespace: spaces only separate words for the
/// reader, so `parser thread` is matched as `parserthread`.
pub open spec fn compact(query: Seq<char>) -> Seq<char>
    decreases query.len(),
{
    if query.len() == 0 {
        seq![]
    } else if char_is_whitespace(query.last()) {
        compact(query.drop_last())
    } else {
        compact(query.drop_last()).push(query.last())
    }
}

/// Scores a candidate against a query whose whitespace is dropped.
pub fn score(query: &str, candidate: &str) -> (r: Option<u32>)
    ensures
        r == fuzzy_atom_score(compact(query@), candidate@),
{
    let chars = chars_of(query);
    let mut compacted = String::new();
    let mut i: usize = 0;
    assert(chars@.take(0) =~= Seq::<char>::empty());
    while i < chars.len()
        invariant
            i <= chars@.len(),
            chars@ == query@,
            compacted@ == compact(chars@.take(i as int)),
        decreases chars@.len() - i,
    {
        assert(chars@.take(i + 1).drop_last() =~= chars@.take(i as int));
        assert(chars@.take(i + 1).last() == chars@[i as int]);
        if !is_whitespace(chars[i]) {
            push_char(&mut compacted, chars[i]);
        }
        i = i + 1;
    }
    assert(chars@.take(chars@.len() as int) =~= chars@);
    atom_score(compacted.as_str(), candidate)
}

/// Whether a query has no word: only whitespace, or nothing.
pub open spec fn blank(query: Seq<char>) -> bool {
    forall|i: int| 0 <= i < query.len() ==> #[trigger] char_is_whitespace(query[i])
}

/// Whether a query has no word.
fn is_blank(query: &str) -> (r: bool)
    ensures
        r == blank(query@),
{
    let chars = chars_of(query);
    let mut i: usize = 0;
    while i < chars.len()
        invariant
            i <= chars@.len(),
            chars@ == query@,
            forall|j: int| 0 <= j < i ==> #[trigger] char_is_whitespace(chars@[j]),
        decreases chars@.len() - i,
    {
        if !is_whitespace(chars[i]) {
            return false;
        }
        i = i + 1;
    }
    true
}

/// The score of one query field: `Some(None)` when the field is blank and
/// so matches everything, `None` when the candidate does not match.
pub open spec fn optional_score_spec(query: Seq<char>, candidate: Seq<char>) -> Option<Option<u32>> {
    if blank(query) {
        Some(None)
    } else {
        match fuzzy_atom_score(compact(query), candidate) {
            Some(s) => Some(Some(s)),
            None => None,
        }
    }
}

/// The score of one query field.
pub fn optional_score(query: &str, candidate: &str) -> (r: Option<Option<u32>>)
    ensures
        r == optional_score_spec(query@, candidate@),
{
    if is_blank(query) {
        Some(None)
    } else {
        match score(query, candidate) {
            Some(s) => Some(Some(s)),
            None => None,
        }
    }
}

/// The larger of two optional scores, a score beating none.
pub open spec fn max_score(a: Option<u32>, b: Option<u32>) -> Option<u32> {
    match (a, b) {
        (Some(x), Some(y)) => if x >= y {
            Some(x)
        } else {
            Some(y)
        },
        (Some(x), None) => Some(x),
        (None, _) => b,
    }
}

/// The score of the URI field: the better of the shown location and the
/// source URI.
pub open spec fn optional_uri_score_spec(query: Seq<char>, item: ItemView) -> Option<Option<u32>> {
    if blank(query) {
        Some(None)
    } else {
        let location_score = fuzzy_atom_score(compact(query), item.location);
        let source_score = match item.source {
            Some(s) => fuzzy_atom_score(compact(query), s.uri),
            None => None,
        };
        match max_score(location_score, source_score) {
            Some(s) => Some(Some(s)),
            None => None,
        }
    }
}

/// The score of the URI field.
pub fn optional_uri_score(query: &str, item: &SearchItem) -> (r: Option<Option<u32>>)
    ensures
        r == optional_uri_score_spec(query@, item@),
{
    if is_blank(query) {
        return Some(None);
    }
    let location_score = score(query, item.location.as_str());
    let source_score = match &item.source {
        Some(s) => score(query, s.uri.as_str()),
        None => None,
    };
    let best = match (location_score, source_score) {
        (Some(x), Some(y)) => if x >= y {
            Some(x)
        } else {
            Some(y)
        },
        (Some(x), None) => Some(x),
        (None, b) => b,
    };
    match best {
        Some(s) => Some(Some(s)),
        None => None,
    }
}

/// The scores of a candidate for both fields, or `None` when either field
/// rejects it.
pub open spec fn search_score_spec(symbol_query: Seq<char>, uri_query: Seq<char>, item: ItemView) -> Option<(Option<u32>, Option<u32>)> {
    match (optional_score_spec(symbol_query, item.name), optional_uri_score_spec(uri_query, item)) {
        (Some(s), Some(u)) => Some((s, u)),
        _ => None,
    }
}

/// The scores of a candidate for both fields.
pub fn search_score(symbol_query: &str, uri_query: &str, item: &SearchItem) -> (r: Option<(Option<u32>, Option<u32>)>)
    ensures
        r == search_score_spec(symbol_query@, uri_query@, item@),
{
    let symbol = match optional_score(symbol_query, item.name.as_str()) {
        Some(s) => s,
        None => {
            return None;
        },
    };
    let uri = match optional_uri_score(uri_query, item) {
        Some(u) => u,
        None => {
            return None;
        },
    };
    Some((symbol, uri))
}

/// The part of a search session that ranks results: the candidates the
/// provider returned, the two local query fields, and the ranked results
/// with the selected one.
pub struct SearchState {
    pub candidates: Vec<SearchItem>,
    pub symbol_query: String,
    pub uri_query: String,
    pub items: Vec<SearchItem>,
    pub selected: Option<usize>,
}

/// `a` is below `b`, no score being below any score.
pub open spec fn opt_below(a: Option<u32>, b: Option<u32>) -> bool {
    match (a, b) {
        (None, Some(_)) => true,
        (Some(x), Some(y)) => x < y,
        _ => false,
    }
}

/// Scores compare by the symbol field first, then by the URI field.
pub open spec fn score_below(a: (Option<u32>, Option<u32>), b: (Option<u32>, Option<u32>)) -> bool {
    opt_below(a.0, b.0) || (a.0 == b.0 && opt_below(a.1, b.1))
}

/// `a` comes before `b` in code-point order, a prefix first.
pub open spec fn text_below(a: Seq<char>, b: Seq<char>) -> bool
    decreases a.len(),
{
    if a.len() == 0 {
        b.len() > 0
    } else if b.len() == 0 {
        false
    } else if a[0] != b[0] {
        (a[0] as int) < (b[0] as int)
    } else {
        text_below(a.drop_first(), b.drop_first())
    }
}

/// The ranking key of a match: its scores, its name in lower case, and its
/// position among the candidates.
pub type RankKey = (Option<u32>, Option<u32>);

/// Match `a` is listed before match `b`: a higher score first, then the
/// name in lower case, then the earlier candidate.
pub open spec fn listed_before(sa: RankKey, na: Seq<char>, ia: int, sb: RankKey, nb: Seq<char>, ib: int) -> bool {
    score_below(sb, sa) || (sa == sb && (text_below(na, nb) || (na == nb && ia < ib)))
}

/// Candidate `i` matches both query fields.
pub open spec fn matching(cands: Seq<ItemView>, sq: Seq<char>, uq: Seq<char>, i: int) -> bool {
    0 <= i < cands.len() && search_score_spec(sq, uq, cands[i]) is Some
}

/// Candidate `i` is listed before candidate `j`.
pub open spec fn candidate_before(cands: Seq<ItemView>, sq: Seq<char>, uq: Seq<char>, i: int, j: int) -> bool {
    listed_before(
        search_score_spec(sq, uq, cands[i]).unwrap(),
        str_to_lowercase(cands[i].name),
        i,
        search_score_spec(sq, uq, cands[j]).unwrap(),
        str_to_lowercase(cands[j].name),
        j,
    )
}

/// `order` lists every matching candidate once, best first.
pub open spec fn ranking(cands: Seq<ItemView>, sq: Seq<char>, uq: Seq<char>, order: Seq<int>) -> bool {
    &&& forall|k: int| 0 <= k < order.len() ==> #[trigger] matching(cands, sq, uq, order[k])
    &&& forall|i: int| #[trigger] matching(cands, sq, uq, i) ==> order.contains(i)
    &&& forall|k: int, l: int| 0 <= k < l < order.len() ==> candidate_before(cands, sq, uq, #[trigger] order[k], #[trigger] order[l])
}

/// The views of a list of items.
pub open spec fn item_views(v: Seq<SearchItem>) -> Seq<ItemView> {
    Seq::new(v.len(), |i: int| v[i]@)
}

pub(crate) proof fn lemma_text_below_transitive(a: Seq<char>, b: Seq<char>, c: Seq<char>)
    requires
        text_below(a, b),
        text_below(b, c),
    ensures
        text_below(a, c),
    decreases a.len(),
{
    if a.len() > 0 && b.len() > 0 && c.len() > 0 && a[0] == b[0] && b[0] == c[0] {
        lemma_text_below_transitive(a.drop_first(), b.drop_first(), c.drop_first());
    }
}

pub(crate) proof fn lemma_text_below_total(a: Seq<char>, b: Seq<char>)
    ensures
        a == b || text_below(a, b) || text_below(b, a),
        !(text_below(a, b) && text_below(b, a)),
        !text_below(a, a),
    decreases a.len(),
{
    if a.len() > 0 && b.len() > 0 {
        lemma_text_below_total(a.drop_first(), b.drop_first());
        if a[0] == b[0] && a.drop_first() == b.drop_first() {
            assert(a =~= seq![a[0]] + a.drop_first());
            assert(b =~= seq![b[0]] + b.drop_first());
        }
        lemma_text_below_total(a.drop_first(), a.drop_first());
    } else if a.len() > 0 {
        lemma_text_below_total(a.drop_first(), a.drop_first());
    } else if b.len() == 0 {
        assert(a =~= b);
    }
}

proof fn lemma_listed_order(sa: RankKey, na: Seq<char>, ia: int, sb: RankKey, nb: Seq<char>, ib: int, sc: RankKey, nc: Seq<char>, ic: int)
    ensures
        listed_before(sa, na, ia, sb, nb, ib) && listed_before(sb, nb, ib, sc, nc, ic) ==> listed_before(sa, na, ia, sc, nc, ic),
        ia != ib ==> listed_before(sa, na, ia, sb, nb, ib) || listed_before(sb, nb, ib, sa, na, ia),
        !(listed_before(sa, na, ia, sb, nb, ib) && listed_before(sb, nb, ib, sa, na, ia)),
{
    lemma_text_below_total(na, nb);
    lemma_text_below_total(nb, nc);
    lemma_text_below_total(na, nc);
    if text_below(na, nb) && text_below(nb, nc) {
        lemma_text_below_transitive(na, nb, nc);
    }
}

/// A match waiting to be listed: its candidate, scores and name in lower
/// case.
type Ranked = (usize, RankKey, Vec<char>);

/// The match is candidate `i` with its key.
spec fn ranked_ok(cands: Seq<ItemView>, sq: Seq<char>, uq: Seq<char>, r: Ranked) -> bool {
    &&& matching(cands, sq, uq, r.0 as int)
    &&& search_score_spec(sq, uq, cands[r.0 as int]) == Some(r.1)
    &&& r.2@ == str_to_lowercase(cands[r.0 as int].name)
}

/// Whether `a` is listed before `b`.
fn ranks_before(a: &Ranked, b: &Ranked) -> (r: bool)
    ensures
        r == listed_before(a.1, a.2@, a.0 as int, b.1, b.2@, b.0 as int),
{
    let below = opt_less(b.1.0, a.1.0) || (b.1.0 == a.1.0 && opt_less(b.1.1, a.1.1));
    if below {
        return true;
    }
    let same_score = a.1.0 == b.1.0 && a.1.1 == b.1.1;
    if !same_score {
        return false;
    }
    let (name_below, name_same) = compare_text(a.2.as_slice(), b.2.as_slice());
    name_below || (name_same && a.0 < b.0)
}

/// Whether `a` is below `b`.
fn opt_less(a: Option<u32>, b: Option<u32>) -> (r: bool)
    ensures
        r == opt_below(a, b),
{
    match (a, b) {
        (None, Some(_)) => true,
        (Some(x), Some(y)) => x < y,
        _ => false,
    }
}

/// Whether `a` comes before `b`, and whether they are equal.
pub(crate) fn compare_text(a: &[char], b: &[char]) -> (r: (bool, bool))
    ensures
        r.0 == text_below(a@, b@),
        r.1 == (a@ == b@),
{
    let mut i: usize = 0;
    assert(a@.skip(0) =~= a@ && b@.skip(0) =~= b@);
    while i < a.len() && i < b.len()
        invariant
            i <= a@.len(),
            i <= b@.len(),
            a@.take(i as int) == b@.take(i as int),
            text_below(a@, b@) == text_below(a@.skip(i as int), b@.skip(i as int)),
        decreases a@.len() - i,
    {
        assert(a@.skip(i as int).drop_first() =~= a@.skip(i + 1));
        assert(b@.skip(i as int).drop_first() =~= b@.skip(i + 1));
        if a[i] != b[i] {
            proof {
                assert(a@.skip(i as int)[0] == a@[i as int]);
                assert(b@.skip(i as int)[0] == b@[i as int]);
                assert(a@ != b@) by {
                    assert(a@[i as int] != b@[i as int]);
                }
            }
            return (a[i] < b[i], false);
        }
        assert(a@.take(i + 1) =~= a@.take(i as int).push(a@[i as int]));
        assert(b@.take(i + 1) =~= b@.take(i as int).push(b@[i as int]));
        i = i + 1;
    }
    proof {
        if i == a@.len() && i == b@.len() {
            assert(a@ =~= a@.take(i as int));
            assert(b@ =~= b@.take(i as int));
        }
        if a@.len() != b@.len() {
            assert(a@ != b@);
        }
        assert(a@.skip(i as int).len() == a@.len() - i);
    }
    (a.len() == i && b.len() > i, a.len() == b.len())
}

/// Ranks the candidates that match both query fields, best first, as the
/// results, and selects the first result if there is one.
pub fn refresh_search_items(search: &mut SearchState)
    ensures
        final(search).candidates == old(search).candidates,
        final(search).symbol_query == old(search).symbol_query,
        final(search).uri_query == old(search).uri_query,
        exists|order: Seq<int>|
            #![trigger ranking(item_views(old(search).candidates@), old(search).symbol_query@, old(search).uri_query@, order)]
            {
                &&& ranking(item_views(old(search).candidates@), old(search).symbol_query@, old(search).uri_query@, order)
                &&& final(search).items@.len() == order.len()
                &&& forall|k: int| 0 <= k < order.len() ==> #[trigger] final(search).items@[k]@ == old(search).candidates@[order[k]]@
            },
        final(search).selected == if final(search).items@.len() > 0 {
            Some(0usize)
        } else {
            None
        },
{
    let ghost cands = item_views(search.candidates@);
    let ghost sq = search.symbol_query@;
    let ghost uq = search.uri_query@;
    let mut sorted: Vec<Ranked> = Vec::new();
    let mut i: usize = 0;
    while i < search.candidates.len()
        invariant
            i <= search.candidates@.len(),
            cands == item_views(search.candidates@),
            sq == search.symbol_query@,
            uq == search.uri_query@,
            forall|k: int| 0 <= k < sorted@.len() ==> #[trigger] ranked_ok(cands, sq, uq, sorted@[k]),
            forall|k: int| 0 <= k < sorted@.len() ==> (#[trigger] sorted@[k]).0 < i,
            forall|j: int| 0 <= j < i && #[trigger] matching(cands, sq, uq, j) ==> exists|k: int| 0 <= k < sorted@.len() && sorted@[k].0 == j,
            forall|k: int, l: int| 0 <= k < l < sorted@.len() ==> listed_before(
                #[trigger] sorted@[k].1,
                sorted@[k].2@,
                sorted@[k].0 as int,
                #[trigger] sorted@[l].1,
                sorted@[l].2@,
                sorted@[l].0 as int,
            ),
        decreases search.candidates@.len() - i,
    {
        let item = &search.candidates[i];
        assert(cands[i as int] == item@);
        match search_score(search.symbol_query.as_str(), search.uri_query.as_str(), item) {
            Some(key) => {
                let lowered = to_lowercase(item.name.as_str());
                let entry: Ranked = (i, key, chars_of(lowered.as_str()));
                assert(ranked_ok(cands, sq, uq, entry));
                let mut p: usize = 0;
                while p < sorted.len() && !ranks_before(&entry, &sorted[p])
                    invariant
                        p <= sorted@.len(),
                        forall|k: int| 0 <= k < p ==> listed_before(
                            #[trigger] sorted@[k].1,
                            sorted@[k].2@,
                            sorted@[k].0 as int,
                            entry.1,
                            entry.2@,
                            entry.0 as int,
                        ),
                        forall|k: int| 0 <= k < sorted@.len() ==> (#[trigger] sorted@[k]).0 < i,
                        entry.0 == i,
                    decreases sorted@.len() - p,
                {
                    proof {
                        let s = sorted@[p as int];
                        lemma_listed_order(entry.1, entry.2@, entry.0 as int, s.1, s.2@, s.0 as int, entry.1, entry.2@, entry.0 as int);
                    }
                    p = p + 1;
                }
                let ghost before = sorted@;
                sorted.insert(p, entry);
                proof {
                    assert forall|k: int| 0 <= k < sorted@.len() implies #[trigger] ranked_ok(cands, sq, uq, sorted@[k]) && (sorted@[k]).0 < i + 1 by {
                        if k < p {
                            assert(sorted@[k] == before[k]);
                        } else if k > p {
                            assert(sorted@[k] == before[k - 1]);
                        }
                    }
                    assert forall|j: int| 0 <= j < i + 1 && #[trigger] matching(cands, sq, uq, j) implies exists|k: int| 0 <= k < sorted@.len() && sorted@[k].0 == j by {
                        if j < i {
                            let k = choose|k: int| 0 <= k < before.len() && before[k].0 == j;
                            if k < p {
                                assert(sorted@[k] == before[k]);
                            } else {
                                assert(sorted@[k + 1] == before[k]);
                            }
                        } else {
                            assert(sorted@[p as int] == entry);
                        }
                    }
                    assert forall|k: int, l: int| 0 <= k < l < sorted@.len() implies listed_before(
                        #[trigger] sorted@[k].1,
                        sorted@[k].2@,
                        sorted@[k].0 as int,
                        #[trigger] sorted@[l].1,
                        sorted@[l].2@,
                        sorted@[l].0 as int,
                    ) by {
                        let a = sorted@[k];
                        let b = sorted@[l];
                        if l < p {
                            assert(a == before[k] && b == before[l]);
                        } else if k > p {
                            assert(a == before[k - 1] && b == before[l - 1]);
                        } else if k < p && l == p {
                            assert(a == before[k]);
                        } else if k < p && l > p {
                            assert(a == before[k] && b == before[l - 1]);
                            assert(listed_before(a.1, a.2@, a.0 as int, entry.1, entry.2@, entry.0 as int));
                            assert(listed_before(entry.1, entry.2@, entry.0 as int, before[p as int].1, before[p as int].2@, before[p as int].0 as int));
                            if l - 1 > p {
                                assert(listed_before(before[p as int].1, before[p as int].2@, before[p as int].0 as int, b.1, b.2@, b.0 as int));
                                lemma_listed_order(entry.1, entry.2@, entry.0 as int, before[p as int].1, before[p as int].2@, before[p as int].0 as int, b.1, b.2@, b.0 as int);
                            }
                            lemma_listed_order(a.1, a.2@, a.0 as int, entry.1, entry.2@, entry.0 as int, b.1, b.2@, b.0 as int);
                        } else {
                            assert(k == p && l > p);
                            assert(b == before[l - 1]);
                            assert(listed_before(entry.1, entry.2@, entry.0 as int, before[p as int].1, before[p as int].2@, before[p as int].0 as int));
                            if l - 1 > p {
                                assert(listed_before(before[p as int].1, before[p as int].2@, before[p as int].0 as int, b.1, b.2@, b.0 as int));
                                lemma_listed_order(entry.1, entry.2@, entry.0 as int, before[p as int].1, before[p as int].2@, before[p as int].0 as int, b.1, b.2@, b.0 as int);
                            }
                        }
                    }
                }
            },
            None => {
                assert(!matching(cands, sq, uq, i as int));
            },
        }
        i = i + 1;
    }
    let mut items: Vec<SearchItem> = Vec::new();
    let mut k: usize = 0;
    while k < sorted.len()
        invariant
            k <= sorted@.len(),
            items@.len() == k,
            cands == item_views(search.candidates@),
            forall|q: int| 0 <= q < sorted@.len() ==> #[trigger] ranked_ok(cands, sq, uq, sorted@[q]),
            forall|q: int| 0 <= q < k ==> #[trigger] items@[q]@ == cands[sorted@[q].0 as int],
        decreases sorted@.len() - k,
    {
        assert(ranked_ok(cands, sq, uq, sorted@[k as int]));
        let index = sorted[k].0;
        items.push(copy_item(&search.candidates[index]));
        k = k + 1;
    }
    let ghost order = Seq::new(sorted@.len(), |q: int| sorted@[q].0 as int);
    proof {
        assert forall|q: int| 0 <= q < order.len() implies #[trigger] matching(cands, sq, uq, order[q]) by {
            assert(ranked_ok(cands, sq, uq, sorted@[q]));
        }
        assert forall|j: int| #[trigger] matching(cands, sq, uq, j) implies order.contains(j) by {
            let q = choose|q: int| 0 <= q < sorted@.len() && sorted@[q].0 == j;
            assert(order[q] == j);
        }
        assert forall|q: int, l: int| 0 <= q < l < order.len() implies candidate_before(cands, sq, uq, #[trigger] order[q], #[trigger] order[l]) by {
            assert(ranked_ok(cands, sq, uq, sorted@[q]));
            assert(ranked_ok(cands, sq, uq, sorted@[l]));
            assert(listed_before(sorted@[q].1, sorted@[q].2@, sorted@[q].0 as int, sorted@[l].1, sorted@[l].2@, sorted@[l].0 as int));
        }
        assert(ranking(cands, sq, uq, order));
        assert forall|q: int| 0 <= q < order.len() implies #[trigger] items@[q]@ == search.candidates@[order[q]]@ by {
            assert(ranked_ok(cands, sq, uq, sorted@[q]));
            assert(items@[q]@ == cands[sorted@[q].0 as int]);
        }
    }
    let n = items.len();
    search.items = items;
    search.selected = if n > 0 {
        Some(0)
    } else {
        None
    };
}


/// Where a search stands.
#[derive(Clone, Debug)]
pub enum SearchStatus {
    /// Waiting for the typing to pause.
    Debouncing,
    /// The provider is being asked.
    Loading,
    /// The candidates are in.
    Ready,
    /// The provider failed with this message.
    Error(String),
}

/// How the status line is coloured: dimmed, busy, found or failed.
#[derive(Clone, Copy, Debug, PartialEq, Eq, Structural)]
pub enum StatusTone {
    Muted,
    Busy,
    Found,
    Failed,
}

/// The status line of the search and its tone: what it waits for, or how
/// many candidates the provider gave and how many match, or the error.
pub open spec fn status_line_of(status: SearchStatus, candidates: nat, matches: nat) -> (Seq<char>, StatusTone) {
    match status {
        SearchStatus::Debouncing => ("Waiting for typing pause…"@, StatusTone::Muted),
        SearchStatus::Loading => ("Searching workspace symbols…"@, StatusTone::Busy),
        SearchStatus::Ready => (
            crate::export::decimal(candidates) + " from provider · "@ + crate::export::decimal(matches)
                + " matches · Tab switches field"@,
            if matches == 0 {
                StatusTone::Muted
            } else {
                StatusTone::Found
            },
        ),
        SearchStatus::Error(e) => (e@, StatusTone::Failed),
    }
}

impl SearchState {
    /// The status line under the search fields (see `status_line_of`).
    pub fn status_line(&self, status: &SearchStatus) -> (r: (String, StatusTone))
        ensures
            (r.0@, r.1) == status_line_of(*status, self.candidates@.len(), self.items@.len()),
    {
        match status {
            SearchStatus::Debouncing => (String::from_str("Waiting for typing pause…"), StatusTone::Muted),
            SearchStatus::Loading => (String::from_str("Searching workspace symbols…"), StatusTone::Busy),
            SearchStatus::Ready => {
                let mut t = String::new();
                crate::export::push_decimal(&mut t, self.candidates.len() as u64);
                let mut t = crate::text::append_text(t, " from provider · ");
                crate::export::push_decimal(&mut t, self.items.len() as u64);
                let t = crate::text::append_text(t, " matches · Tab switches field");
                proof {
                    assert(t@ =~= crate::export::decimal(self.candidates@.len()) + " from provider · "@
                        + crate::export::decimal(self.items@.len()) + " matches · Tab switches field"@);
                }
                let tone = if self.items.len() == 0 {
                    StatusTone::Muted
                } else {
                    StatusTone::Found
                };
                (t, tone)
            },
            SearchStatus::Error(e) => (String::from_str(e.as_str()), StatusTone::Failed),
        }
    }
}


/// The URI field keeps an item exactly when its shown location or its
/// source URI matches a non-blank query on its own, and then scores it by
/// the better of the two matches: the score is at least each matching
/// score and is one of them. A blank query keeps every item unscored.
pub proof fn lemma_uri_field_takes_the_better_match(query: Seq<char>, item: ItemView, a: u32, b: u32)
    ensures
        blank(query) ==> optional_uri_score_spec(query, item) == Some(None::<u32>),
        !blank(query) && optional_score_spec(query, item.location) == Some(Some(a)) ==> (optional_uri_score_spec(
            query,
            item,
        ) matches Some(Some(s)) && a <= s),
        !blank(query) && item.source is Some && optional_score_spec(query, item.source.unwrap().uri) == Some(Some(b))
            ==> (optional_uri_score_spec(query, item) matches Some(Some(s)) && b <= s),
        !blank(query) && optional_score_spec(query, item.location) is None && (item.source is None
            || optional_score_spec(query, item.source.unwrap().uri) is None) ==> optional_uri_score_spec(
            query,
            item,
        ) is None,
        !blank(query) && optional_uri_score_spec(query, item) == Some(Some(b)) ==> (optional_score_spec(
            query,
            item.location,
        ) == Some(Some(b)) || (item.source is Some && optional_score_spec(query, item.source.unwrap().uri) == Some(
            Some(b),
        ))),
{
}

} // verus!
