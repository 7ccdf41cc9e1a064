//! Literature retrieval over alphaXiv, OpenAlex, or bioRxiv.
//!
//! The source to search honors the literature sources disabled in Settings;
//! alphaXiv runs keyword, semantic and (for collision-prone names) acronym
//! retrieval side by side, and the hits of all strategies are merged in the
//! order the strategies ran, each paper once. This module holds that logic
//! and the text the results are shown as; the searches themselves are
//! network calls.

use vstd::prelude::*;

use crate::text::{
    char_is_alphabetic, char_is_alphanumeric, char_is_uppercase, char_is_whitespace, chars_of,
    decimal, is_alphabetic, is_alphanumeric, is_uppercase, is_whitespace, owned, push_char,
    join_with, push_decimal, push_str, str_eq, string_of_range, trim, trim_seq, views,
};

verus! {

// ---------------------------------------------------------------------------
// Sources
// ---------------------------------------------------------------------------

/// A literature source.
#[derive(Debug, Clone, Copy, PartialEq, Eq, Structural)]
pub enum LitSource {
    Alphaxiv,
    Openalex,
    Biorxiv,
}

impl LitSource {
    /// The source's id, as the Settings disable-set names it.
    pub open spec fn id(self) -> Seq<char> {
        match self {
            LitSource::Alphaxiv => "alphaxiv"@,
            LitSource::Openalex => "openalex"@,
            LitSource::Biorxiv => "biorxiv"@,
        }
    }

    /// The source's human-readable name.
    pub open spec fn display(self) -> Seq<char> {
        match self {
            LitSource::Alphaxiv => "alphaXiv"@,
            LitSource::Openalex => "OpenAlex"@,
            LitSource::Biorxiv => "bioRxiv"@,
        }
    }

    /// The source's id.
    pub fn as_str(&self) -> (r: &'static str)
        ensures
            r@ == self.id(),
    {
        match self {
            LitSource::Alphaxiv => "alphaxiv",
            LitSource::Openalex => "openalex",
            LitSource::Biorxiv => "biorxiv",
        }
    }

    /// The source's human-readable name.
    pub fn display_name(&self) -> (r: &'static str)
        ensures
            r@ == self.display(),
    {
        match self {
            LitSource::Alphaxiv => "alphaXiv",
            LitSource::Openalex => "OpenAlex",
            LitSource::Biorxiv => "bioRxiv",
        }
    }
}

/// The sources in preference order: alphaXiv, OpenAlex, bioRxiv.
pub open spec fn all_sources() -> Seq<LitSource> {
    seq![LitSource::Alphaxiv, LitSource::Openalex, LitSource::Biorxiv]
}

/// The sources in preference order.
pub fn all_lit_sources() -> (r: Vec<LitSource>)
    ensures
        r@ == all_sources(),
{
    let v = vec![LitSource::Alphaxiv, LitSource::Openalex, LitSource::Biorxiv];
    assert(v@ =~= all_sources());
    v
}

/// The disable-set names this id.
pub open spec fn names(disabled: Seq<String>, id: Seq<char>) -> bool {
    exists|i: int| 0 <= i < disabled.len() && #[trigger] disabled[i]@ == id
}

/// Whether the disable-set names `id`.
pub fn is_named(disabled: &[String], id: &str) -> (r: bool)
    ensures
        r == names(disabled@, id@),
{
    let mut i: usize = 0;
    while i < disabled.len()
        invariant
            i <= disabled@.len(),
            forall|k: int| 0 <= k < i ==> disabled@[k]@ != id@,
        decreases disabled@.len() - i,
    {
        if str_eq(disabled[i].as_str(), id) {
            return true;
        }
        i = i + 1;
    }
    false
}

/// The error for an explicitly requested but disabled source.
pub open spec fn source_disabled_message(s: LitSource) -> Seq<char> {
    s.display()
        + " is disabled by your OpenResearch literature-source configuration. Re-enable it or pick another --source."@
}

/// The error when every source is disabled.
pub open spec fn all_disabled_message() -> Seq<char> {
    "All literature sources are disabled by your OpenResearch configuration."@
}

/// The source to search: an explicit choice unless it is disabled, else the
/// first enabled source in preference order.
pub open spec fn resolve_lit_source_spec(explicit: Option<LitSource>, disabled: Seq<String>) -> Result<
    LitSource,
    Seq<char>,
> {
    match explicit {
        Some(s) => if names(disabled, s.id()) {
            Err(source_disabled_message(s))
        } else {
            Ok(s)
        },
        None => if !names(disabled, LitSource::Alphaxiv.id()) {
            Ok(LitSource::Alphaxiv)
        } else if !names(disabled, LitSource::Openalex.id()) {
            Ok(LitSource::Openalex)
        } else if !names(disabled, LitSource::Biorxiv.id()) {
            Ok(LitSource::Biorxiv)
        } else {
            Err(all_disabled_message())
        },
    }
}

/// Pick the source to search, honoring the Settings disable-set. An explicit
/// `--source` that is disabled is an error; with no `--source`, fall back to
/// the first enabled source in preference order (all disabled: an error).
pub fn resolve_lit_source(explicit: Option<LitSource>, disabled: &[String]) -> (r: Result<
    LitSource,
    String,
>)
    ensures
        match (r, resolve_lit_source_spec(explicit, disabled@)) {
            (Ok(a), Ok(b)) => a == b,
            (Err(e), Err(m)) => e@ == m,
            _ => false,
        },
{
    match explicit {
        Some(s) => {
            if is_named(disabled, s.as_str()) {
                let mut m = owned(s.display_name());
                push_str(
                    &mut m,
                    " is disabled by your OpenResearch literature-source configuration. Re-enable it or pick another --source.",
                );
                return Err(m);
            }
            Ok(s)
        },
        None => {
            let all = all_lit_sources();
            assert(all@[0] == LitSource::Alphaxiv && all@[1] == LitSource::Openalex && all@[2]
                == LitSource::Biorxiv);
            let mut i: usize = 0;
            while i < all.len()
                invariant
                    all@ == all_sources(),
                    all@[0] == LitSource::Alphaxiv && all@[1] == LitSource::Openalex && all@[2]
                        == LitSource::Biorxiv,
                    explicit is None,
                    i <= 3,
                    forall|k: int| 0 <= k < i ==> names(disabled@, #[trigger] all@[k].id()),
                decreases 3 - i,
            {
                if !is_named(disabled, all[i].as_str()) {
                    proof {
                        if i >= 1 {
                            assert(names(disabled@, all@[0].id()));
                        }
                        if i >= 2 {
                            assert(names(disabled@, all@[1].id()));
                        }
                    }
                    return Ok(all[i]);
                }
                i = i + 1;
            }
            assert(names(disabled@, all@[0].id()));
            assert(names(disabled@, all@[1].id()));
            assert(names(disabled@, all@[2].id()));
            Err(owned("All literature sources are disabled by your OpenResearch configuration."))
        },
    }
}

/// Refuse the alphaXiv-only options on another source; the message explains
/// a silent fallback from a disabled alphaXiv.
pub open spec fn validate_alphaxiv_options_spec(
    explicit: Option<LitSource>,
    resolved: LitSource,
    has_alphaxiv_options: bool,
) -> Result<(), Seq<char>> {
    if !has_alphaxiv_options || resolved == LitSource::Alphaxiv {
        Ok(())
    } else if explicit is None {
        Err(
            "--keyword, --prioritize, --published-after, and --published-before require alphaXiv, but alphaXiv is disabled in Settings. Re-enable it or remove those options to search "@
                + resolved.display() + "."@,
        )
    } else {
        Err(
            "--keyword, --prioritize, --published-after, and --published-before are supported only for alphaXiv searches"@,
        )
    }
}

/// The keyword, priority and date options are alphaXiv-only.
pub fn validate_alphaxiv_options_source(
    explicit: Option<LitSource>,
    resolved: LitSource,
    has_alphaxiv_options: bool,
) -> (r: Result<(), String>)
    ensures
        match (r, validate_alphaxiv_options_spec(explicit, resolved, has_alphaxiv_options)) {
            (Ok(()), Ok(())) => true,
            (Err(e), Err(m)) => e@ == m,
            _ => false,
        },
{
    if !has_alphaxiv_options || resolved == LitSource::Alphaxiv {
        return Ok(());
    }
    if explicit.is_none() {
        let mut m = owned(
            "--keyword, --prioritize, --published-after, and --published-before require alphaXiv, but alphaXiv is disabled in Settings. Re-enable it or remove those options to search ",
        );
        push_str(&mut m, resolved.display_name());
        push_str(&mut m, ".");
        return Err(m);
    }
    Err(
        owned(
            "--keyword, --prioritize, --published-after, and --published-before are supported only for alphaXiv searches",
        ),
    )
}

/// The error of `orx discover` when alphaXiv is disabled.
pub open spec fn alphaxiv_disabled_message() -> Seq<char> {
    "alphaXiv is disabled by your OpenResearch literature-source configuration. Re-enable it to discover alphaXiv papers."@
}

/// alphaXiv discovery needs alphaXiv enabled.
pub fn ensure_alphaxiv_enabled(disabled: &[String]) -> (r: Result<(), String>)
    ensures
        match r {
            Ok(()) => !names(disabled@, "alphaxiv"@),
            Err(e) => names(disabled@, "alphaxiv"@) && e@ == alphaxiv_disabled_message(),
        },
{
    if is_named(disabled, "alphaxiv") {
        return Err(
            owned(
                "alphaXiv is disabled by your OpenResearch literature-source configuration. Re-enable it to discover alphaXiv papers.",
            ),
        );
    }
    Ok(())
}

/// The default number of hits: fifteen on alphaXiv, five elsewhere.
pub fn default_limit(limit: Option<u32>, source: LitSource) -> (r: u32)
    ensures
        r == match limit {
            Some(l) => l,
            None => if source == LitSource::Alphaxiv {
                15u32
            } else {
                5u32
            },
        },
{
    match limit {
        Some(l) => l,
        None => if source == LitSource::Alphaxiv {
            15
        } else {
            5
        },
    }
}

// ---------------------------------------------------------------------------
// Acronyms
// ---------------------------------------------------------------------------

/// The number of Uppercase characters.
pub open spec fn count_upper(s: Seq<char>) -> nat
    decreases s.len(),
{
    if s.len() == 0 {
        0
    } else {
        count_upper(s.drop_last()) + if char_is_uppercase(s.last()) {
            1nat
        } else {
            0nat
        }
    }
}

/// A collision-prone name: two to ten characters, starting with a letter,
/// letters, digits and dashes only, with at least two capitals.
pub open spec fn is_acronym_spec(t: Seq<char>) -> bool {
    &&& 2 <= t.len() <= 10
    &&& char_is_alphabetic(t[0])
    &&& forall|i: int| 0 <= i < t.len() ==> char_is_alphanumeric(#[trigger] t[i]) || t[i] == '-'
    &&& count_upper(t) >= 2
}

/// Whether a search term looks like an acronym (mirrors alphaXiv's recovery
/// heuristic for collision-prone names).
pub fn is_acronym(term: &str) -> (r: bool)
    ensures
        r == is_acronym_spec(term@),
{
    let v = chars_of(term);
    if v.len() < 2 || v.len() > 10 {
        return false;
    }
    if !is_alphabetic(v[0]) {
        return false;
    }
    let mut upper: usize = 0;
    let mut i: usize = 0;
    while i < v.len()
        invariant
            v@ == term@,
            i <= v.len() <= 10,
            upper == count_upper(v@.take(i as int)),
            upper <= i,
            forall|k: int| 0 <= k < i ==> char_is_alphanumeric(#[trigger] v@[k]) || v@[k] == '-',
        decreases v.len() - i,
    {
        let c = v[i];
        if !(is_alphanumeric(c) || c == '-') {
            return false;
        }
        assert(v@.take(i + 1).drop_last() =~= v@.take(i as int));
        if is_uppercase(c) {
            upper = upper + 1;
        }
        i = i + 1;
    }
    assert(v@.take(v.len() as int) =~= v@);
    upper >= 2
}

/// The trimmed keywords that are acronyms, in order.
pub open spec fn acronyms_of(keywords: Seq<Seq<char>>) -> Seq<Seq<char>>
    decreases keywords.len(),
{
    if keywords.len() == 0 {
        Seq::empty()
    } else {
        let rest = acronyms_of(keywords.drop_last());
        let t = trim_seq(keywords.last());
        if is_acronym_spec(t) {
            rest.push(t)
        } else {
            rest
        }
    }
}

/// Words joined by single spaces.
pub open spec fn join_spaces(words: Seq<Seq<char>>) -> Seq<char>
    decreases words.len(),
{
    if words.len() == 0 {
        Seq::empty()
    } else if words.len() == 1 {
        words[0]
    } else {
        join_spaces(words.drop_last()) + " "@ + words.last()
    }
}

pub open spec fn string_views(v: Seq<String>) -> Seq<Seq<char>> {
    v.map_values(|s: String| s@)
}

proof fn lemma_acronyms_len(keywords: Seq<Seq<char>>)
    ensures
        acronyms_of(keywords).len() <= keywords.len(),
    decreases keywords.len(),
{
    if keywords.len() > 0 {
        lemma_acronyms_len(keywords.drop_last());
    }
}

/// The acronym-only query: the acronyms among the keywords, when there are
/// some but not only acronyms (otherwise the keyword search already is one).
pub open spec fn acronym_only_query_spec(keywords: Seq<Seq<char>>) -> Option<Seq<char>> {
    let a = acronyms_of(keywords);
    if a.len() == 0 || a.len() == keywords.len() {
        None
    } else {
        Some(join_spaces(a))
    }
}

/// The acronym-only query for the given keywords.
pub fn acronym_only_query(keywords: &[String]) -> (r: Option<String>)
    ensures
        match r {
            Some(q) => acronym_only_query_spec(string_views(keywords@)) == Some(q@),
            None => acronym_only_query_spec(string_views(keywords@)) is None,
        },
{
    let ghost ks = string_views(keywords@);
    let mut joined = String::new();
    let mut count: usize = 0;
    let mut i: usize = 0;
    while i < keywords.len()
        invariant
            i <= keywords@.len(),
            ks == string_views(keywords@),
            count == acronyms_of(ks.take(i as int)).len(),
            count <= i,
            joined@ == join_spaces(acronyms_of(ks.take(i as int))),
        decreases keywords@.len() - i,
    {
        let t = trim(keywords[i].as_str());
        assert(ks.take(i + 1).drop_last() =~= ks.take(i as int));
        assert(ks.take(i + 1).last() == keywords@[i as int]@);
        proof {
            lemma_acronyms_len(ks.take(i as int));
        }
        if is_acronym(t.as_str()) {
            if count > 0 {
                push_str(&mut joined, " ");
            }
            push_str(&mut joined, t.as_str());
            proof {
                let a = acronyms_of(ks.take(i as int));
                if count == 0 {
                    assert(a.push(t@).len() == 1);
                    assert(Seq::<char>::empty() + t@ =~= t@);
                    assert(a =~= Seq::<Seq<char>>::empty());
                    assert(a.push(t@)[0] == t@);
                } else {
                    assert(a.push(t@).drop_last() =~= a);
                }
            }
            count = count + 1;
        }
        i = i + 1;
    }
    assert(ks.take(keywords@.len() as int) =~= ks);
    if count == 0 || count == keywords.len() {
        return None;
    }
    Some(joined)
}

// ---------------------------------------------------------------------------
// Hits
// ---------------------------------------------------------------------------

/// A text snippet of a hit, with the page it was found on.
#[derive(Debug)]
pub struct LitSnippet {
    pub page_number: u64,
    pub snippet: String,
}

/// One search result.
#[derive(Debug)]
pub struct LitHit {
    pub id: String,
    pub title: String,
    pub abstract_: String,
    pub publication_date: Option<String>,
    pub votes: Option<u64>,
    pub citations: Option<u64>,
    pub snippets: Vec<LitSnippet>,
}

/// What a hit carries, as plain values.
pub struct HitView {
    pub id: Seq<char>,
    pub title: Seq<char>,
    pub abstract_: Seq<char>,
    pub publication_date: Option<Seq<char>>,
    pub votes: Option<u64>,
    pub citations: Option<u64>,
    pub snippets: Seq<(u64, Seq<char>)>,
}

impl View for LitHit {
    type V = HitView;

    open spec fn view(&self) -> HitView {
        HitView {
            id: self.id@,
            title: self.title@,
            abstract_: self.abstract_@,
            publication_date: match self.publication_date {
                Some(d) => Some(d@),
                None => None,
            },
            votes: self.votes,
            citations: self.citations,
            snippets: self.snippets@.map_values(|s: LitSnippet| (s.page_number, s.snippet@)),
        }
    }
}

fn clone_string(s: &String) -> (r: String)
    ensures
        r@ == s@,
{
    owned(s.as_str())
}

/// A copy of a hit.
pub fn clone_hit(h: &LitHit) -> (r: LitHit)
    ensures
        r@ == h@,
{
    let mut snippets: Vec<LitSnippet> = Vec::new();
    let mut i: usize = 0;
    while i < h.snippets.len()
        invariant
            i <= h.snippets@.len(),
            snippets@.map_values(|s: LitSnippet| (s.page_number, s.snippet@)) == h.snippets@.take(
                i as int,
            ).map_values(|s: LitSnippet| (s.page_number, s.snippet@)),
        decreases h.snippets@.len() - i,
    {
        let s = &h.snippets[i];
        snippets.push(LitSnippet { page_number: s.page_number, snippet: clone_string(&s.snippet) });
        assert(h.snippets@.take(i + 1).map_values(|s: LitSnippet| (s.page_number, s.snippet@))
            =~= h.snippets@.take(i as int).map_values(|s: LitSnippet| (s.page_number, s.snippet@)).push(
            (h.snippets@[i as int].page_number, h.snippets@[i as int].snippet@),
        ));
        assert(snippets@.map_values(|s: LitSnippet| (s.page_number, s.snippet@)) =~= h.snippets@.take(
            i + 1,
        ).map_values(|s: LitSnippet| (s.page_number, s.snippet@)));
        i = i + 1;
    }
    assert(h.snippets@.take(h.snippets@.len() as int) =~= h.snippets@);
    let r = LitHit {
        id: clone_string(&h.id),
        title: clone_string(&h.title),
        abstract_: clone_string(&h.abstract_),
        publication_date: match &h.publication_date {
            Some(d) => Some(clone_string(d)),
            None => None,
        },
        votes: h.votes,
        citations: h.citations,
        snippets,
    };
    assert(r@.snippets =~= h@.snippets);
    r
}

/// The hits of one retrieval strategy.
pub struct RetrievalSet {
    pub label: &'static str,
    pub query: String,
    pub hits: Vec<LitHit>,
}

/// The hits of all sets, in order.
pub open spec fn all_hits(sets: Seq<RetrievalSet>) -> Seq<HitView>
    decreases sets.len(),
{
    if sets.len() == 0 {
        Seq::empty()
    } else {
        all_hits(sets.drop_last()) + sets.last().hits@.map_values(|h: LitHit| h@)
    }
}

/// Some hit in `hits` has this id.
pub open spec fn has_id(hits: Seq<HitView>, id: Seq<char>) -> bool {
    exists|i: int| 0 <= i < hits.len() && #[trigger] hits[i].id == id
}

/// The hits with each id kept once, at its first occurrence.
pub open spec fn first_of_each_id(hits: Seq<HitView>) -> Seq<HitView>
    decreases hits.len(),
{
    if hits.len() == 0 {
        Seq::empty()
    } else {
        let kept = first_of_each_id(hits.drop_last());
        if has_id(kept, hits.last().id) {
            kept
        } else {
            kept.push(hits.last())
        }
    }
}

fn contains_id(out: &Vec<LitHit>, id: &String) -> (r: bool)
    ensures
        r == has_id(out@.map_values(|h: LitHit| h@), id@),
{
    let ghost views = out@.map_values(|h: LitHit| h@);
    let mut i: usize = 0;
    while i < out.len()
        invariant
            i <= out@.len(),
            views == out@.map_values(|h: LitHit| h@),
            forall|k: int| 0 <= k < i ==> views[k].id != id@,
        decreases out@.len() - i,
    {
        if str_eq(out[i].id.as_str(), id.as_str()) {
            assert(views[i as int].id == id@);
            return true;
        }
        i = i + 1;
    }
    false
}

/// Merge the sets' hits in strategy order, each paper once (its first hit).
pub fn merge_hits(sets: &[RetrievalSet]) -> (r: Vec<LitHit>)
    ensures
        r@.map_values(|h: LitHit| h@) == first_of_each_id(all_hits(sets@)),
{
    let mut out: Vec<LitHit> = Vec::new();
    let ghost mut seen: Seq<HitView> = Seq::empty();
    let mut s: usize = 0;
    while s < sets.len()
        invariant
            s <= sets@.len(),
            seen == all_hits(sets@.take(s as int)),
            out@.map_values(|h: LitHit| h@) == first_of_each_id(seen),
        decreases sets@.len() - s,
    {
        let set = &sets[s];
        assert(sets@.take(s + 1).drop_last() =~= sets@.take(s as int));
        let mut k: usize = 0;
        while k < set.hits.len()
            invariant
                k <= set.hits@.len(),
                s < sets@.len(),
                *set == sets@[s as int],
                out@.map_values(|h: LitHit| h@) == first_of_each_id(
                    seen + set.hits@.take(k as int).map_values(|h: LitHit| h@),
                ),
            decreases set.hits@.len() - k,
        {
            let hit = &set.hits[k];
            let ghost before = seen + set.hits@.take(k as int).map_values(|h: LitHit| h@);
            let ghost after = seen + set.hits@.take(k + 1).map_values(|h: LitHit| h@);
            assert(after.drop_last() =~= before);
            assert(after.last() == hit@);
            if !contains_id(&out, &hit.id) {
                let c = clone_hit(hit);
                let ghost prev = out@;
                out.push(c);
                assert(out@.map_values(|h: LitHit| h@) =~= prev.map_values(|h: LitHit| h@).push(
                    c@,
                ));
            }
            k = k + 1;
        }
        assert(set.hits@.take(set.hits@.len() as int) =~= set.hits@);
        proof {
            seen = seen + set.hits@.map_values(|h: LitHit| h@);
        }
        assert(all_hits(sets@.take(s + 1)) == seen);
        s = s + 1;
    }
    assert(sets@.take(sets@.len() as int) =~= sets@);
    out
}

/// A merge keeps every paper once: no two merged hits share an id.
pub proof fn law_merged_ids_are_distinct(hits: Seq<HitView>)
    ensures
        forall|i: int, j: int|
            0 <= i < j < first_of_each_id(hits).len() ==> first_of_each_id(hits)[i].id
                != first_of_each_id(hits)[j].id,
    decreases hits.len(),
{
    if hits.len() > 0 {
        law_merged_ids_are_distinct(hits.drop_last());
        let kept = first_of_each_id(hits.drop_last());
        if !has_id(kept, hits.last().id) {
            assert forall|i: int, j: int|
                0 <= i < j < first_of_each_id(hits).len() implies first_of_each_id(hits)[i].id
                != first_of_each_id(hits)[j].id by {
                if j == kept.len() {
                    assert(kept[i].id != hits.last().id);
                }
            }
        }
    }
}

/// A merge loses no paper: every id of the input is the id of some merged hit.
pub proof fn law_merge_keeps_every_id(hits: Seq<HitView>, i: int)
    requires
        0 <= i < hits.len(),
    ensures
        has_id(first_of_each_id(hits), hits[i].id),
    decreases hits.len(),
{
    let kept = first_of_each_id(hits.drop_last());
    if i < hits.len() - 1 {
        law_merge_keeps_every_id(hits.drop_last(), i);
        let j = choose|j: int| 0 <= j < kept.len() && #[trigger] kept[j].id == hits[i].id;
        if !has_id(kept, hits.last().id) {
            assert(first_of_each_id(hits)[j] == kept[j]);
        }
    } else {
        if !has_id(kept, hits.last().id) {
            assert(first_of_each_id(hits)[kept.len() as int].id == hits.last().id);
        }
    }
}

/// The failure line of a strategy that did not answer.
pub open spec fn unavailable_message(label: Seq<char>, error: Seq<char>) -> Seq<char> {
    label + " unavailable: "@ + error
}

/// Keep a strategy's hits, or record why it failed: one set or one failure per call.
pub fn collect_retrieval_result(
    sets: &mut Vec<RetrievalSet>,
    failures: &mut Vec<String>,
    label: &'static str,
    query: String,
    result: Result<Vec<LitHit>, String>,
)
    ensures
        match result {
            Ok(hits) => {
                &&& final(failures)@ == old(failures)@
                &&& final(sets)@.len() == old(sets)@.len() + 1
                &&& final(sets)@.take(old(sets)@.len() as int) == old(sets)@
                &&& final(sets)@.last() == (RetrievalSet { label, query, hits })
            },
            Err(error) => {
                &&& final(sets)@ == old(sets)@
                &&& final(failures)@.len() == old(failures)@.len() + 1
                &&& final(failures)@.take(old(failures)@.len() as int) == old(failures)@
                &&& final(failures)@.last()@ == unavailable_message(label@, error@)
            },
        },
{
    match result {
        Ok(hits) => {
            sets.push(RetrievalSet { label, query, hits });
            assert(sets@.take(old(sets)@.len() as int) =~= old(sets)@);
        },
        Err(error) => {
            let mut m = owned(label);
            push_str(&mut m, " unavailable: ");
            push_str(&mut m, error.as_str());
            failures.push(m);
            assert(failures@.take(old(failures)@.len() as int) =~= old(failures)@);
        },
    }
}

// ---------------------------------------------------------------------------
// Formatting a hit
// ---------------------------------------------------------------------------

/// The text before the first `T` (the date of an ISO timestamp), or the
/// whole text when it has none.
pub open spec fn before_t(s: Seq<char>) -> Seq<char>
    decreases s.len(),
{
    if s.len() == 0 {
        s
    } else if s[0] == 'T' {
        Seq::empty()
    } else {
        seq![s[0]] + before_t(s.drop_first())
    }
}

/// The date a hit was published, or `—`.
pub open spec fn publication_date_spec(h: HitView) -> Seq<char> {
    match h.publication_date {
        Some(d) => before_t(d),
        None => "—"@,
    }
}

proof fn lemma_before_t_prefix(s: Seq<char>, i: int)
    requires
        0 <= i <= s.len(),
        forall|k: int| 0 <= k < i ==> s[k] != 'T',
        i == s.len() || s[i] == 'T',
    ensures
        before_t(s) == s.take(i),
    decreases s.len(),
{
    if s.len() > 0 && i > 0 {
        assert forall|k: int| 0 <= k < i - 1 implies s.drop_first()[k] != 'T' by {
            assert(s.drop_first()[k] == s[k + 1]);
        }
        lemma_before_t_prefix(s.drop_first(), i - 1);
        assert(seq![s[0]] + s.drop_first().take(i - 1) =~= s.take(i));
    } else if i == 0 {
        assert(s.take(0) =~= Seq::<char>::empty());
    }
}

/// The date part of a hit's publication timestamp, or `—` when it has none.
pub fn publication_date(hit: &LitHit) -> (r: String)
    ensures
        r@ == publication_date_spec(hit@),
{
    match &hit.publication_date {
        Some(d) => {
            let v = chars_of(d.as_str());
            let mut i: usize = 0;
            while i < v.len() && v[i] != 'T'
                invariant
                    i <= v.len(),
                    forall|k: int| 0 <= k < i ==> v@[k] != 'T',
                decreases v.len() - i,
            {
                i = i + 1;
            }
            proof {
                lemma_before_t_prefix(v@, i as int);
            }
            assert(v@.take(i as int) =~= v@.subrange(0, i as int));
            string_of_range(&v, 0, i)
        },
        None => owned("—"),
    }
}

/// "<n> votes", else "<n> citations", else `—`.
pub open spec fn metric_spec(h: HitView) -> Seq<char> {
    match (h.votes, h.citations) {
        (Some(v), _) => decimal(v as nat) + " votes"@,
        (None, Some(c)) => decimal(c as nat) + " citations"@,
        (None, None) => "—"@,
    }
}

/// The per-source relevance or impact metric shown under each hit.
pub fn metric(h: &LitHit) -> (r: String)
    ensures
        r@ == metric_spec(h@),
{
    if let Some(v) = h.votes {
        let mut s = String::new();
        push_decimal(&mut s, v);
        push_str(&mut s, " votes");
        assert(Seq::<char>::empty() + decimal(v as nat) =~= decimal(v as nat));
        s
    } else if let Some(c) = h.citations {
        let mut s = String::new();
        push_decimal(&mut s, c);
        push_str(&mut s, " citations");
        assert(Seq::<char>::empty() + decimal(c as nat) =~= decimal(c as nat));
        s
    } else {
        owned("—")
    }
}

/// Whitespace collapsed: the text's runs of non-White_Space characters,
/// joined by single spaces (scanned left to right: the output so far, and
/// whether the scan is inside a word).
pub open spec fn collapse_scan(s: Seq<char>) -> (Seq<char>, bool)
    decreases s.len(),
{
    if s.len() == 0 {
        (Seq::empty(), false)
    } else {
        let (out, in_word) = collapse_scan(s.drop_last());
        let c = s.last();
        if char_is_whitespace(c) {
            (out, false)
        } else if in_word || out.len() == 0 {
            (out.push(c), true)
        } else {
            (out.push(' ').push(c), true)
        }
    }
}

/// `s.split_whitespace().collect::<Vec<_>>().join(" ")`.
pub open spec fn collapse_ws_spec(s: Seq<char>) -> Seq<char> {
    collapse_scan(s).0
}

/// Collapse runs of whitespace (newlines included) into single spaces and trim.
pub fn collapse_ws(s: &str) -> (r: String)
    ensures
        r@ == collapse_ws_spec(s@),
{
    let v = chars_of(s);
    let mut out = String::new();
    let mut in_word = false;
    let mut empty = true;
    let mut i: usize = 0;
    while i < v.len()
        invariant
            i <= v.len(),
            v@ == s@,
            (out@, in_word) == collapse_scan(v@.take(i as int)),
            empty == (out@.len() == 0),
        decreases v.len() - i,
    {
        let c = v[i];
        assert(v@.take(i + 1).drop_last() =~= v@.take(i as int));
        if is_whitespace(c) {
            in_word = false;
        } else {
            if !in_word && !empty {
                push_char(&mut out, ' ');
            }
            push_char(&mut out, c);
            in_word = true;
            empty = false;
        }
        i = i + 1;
    }
    assert(v@.take(v.len() as int) =~= v@);
    out
}

/// At most `max` characters: unchanged when short enough, else the first
/// `max` characters and `…`.
pub open spec fn truncate_chars_spec(s: Seq<char>, max: nat) -> Seq<char> {
    if s.len() <= max {
        s
    } else {
        s.take(max as int).push('…')
    }
}

/// Truncate to at most `max` characters, appending `…` when shortened.
pub fn truncate_chars(s: &str, max: usize) -> (r: String)
    ensures
        r@ == truncate_chars_spec(s@, max as nat),
{
    let v = chars_of(s);
    if v.len() <= max {
        assert(v@.subrange(0, v@.len() as int) =~= v@);
        return string_of_range(&v, 0, v.len());
    }
    let mut out = string_of_range(&v, 0, max);
    push_char(&mut out, '…');
    assert(v@.subrange(0, max as int) =~= v@.take(max as int));
    out
}

// ---------------------------------------------------------------------------
// The text shown for the results
// ---------------------------------------------------------------------------

/// A snippet as shown: its page and its text with white space collapsed.
pub open spec fn snippet_text(s: (u64, Seq<char>)) -> Seq<char> {
    "[p."@ + decimal(s.0 as nat) + "] "@ + collapse_ws_spec(s.1)
}

/// The snippets shown for a hit: its first two, separated by ` | `.
pub open spec fn snippets_text(snippets: Seq<(u64, Seq<char>)>) -> Seq<char> {
    let shown = if snippets.len() <= 2 {
        snippets
    } else {
        snippets.take(2)
    };
    join_with(shown.map_values(|s: (u64, Seq<char>)| snippet_text(s)), " | "@)
}

/// The entry of the `i`-th paper of a retrieval set: id, title, date,
/// metric and the start of its abstract, then its matching snippets.
pub open spec fn hit_entry(i: nat, h: HitView) -> Seq<char> {
    let m = snippets_text(h.snippets);
    decimal(i) + ". [ID="@ + h.id + "] **"@ + h.title + "**. Published "@ + publication_date_spec(h)
        + " · "@ + metric_spec(h) + ": "@ + truncate_chars_spec(collapse_ws_spec(h.abstract_), 200)
        + "\n"@ + if m.len() > 0 {
        "   Matches: "@ + m + "\n"@
    } else {
        Seq::empty()
    }
}

/// A retrieval set's hits read in order: the ids printed so far, how many
/// of the set's papers were shown, and their entries. A paper already shown
/// (by this set or an earlier one) is skipped.
pub open spec fn set_scan(hits: Seq<HitView>, printed: Seq<Seq<char>>) -> (Seq<Seq<char>>, nat, Seq<char>)
    decreases hits.len(),
{
    if hits.len() == 0 {
        (printed, 0, Seq::empty())
    } else {
        let (p, n, t) = set_scan(hits.drop_last(), printed);
        let h = hits.last();
        if p.contains(h.id) {
            (p, n, t)
        } else {
            (p.push(h.id), n + 1, t + hit_entry(n + 1, h))
        }
    }
}

/// The ids of hits, in order.
pub open spec fn hit_ids(hits: Seq<HitView>) -> Seq<Seq<char>> {
    hits.map_values(|h: HitView| h.id)
}

/// The hits of a set that are shown: those whose paper was not shown
/// before (in `printed`) nor earlier in the set, in order.
pub open spec fn newly_shown(hits: Seq<HitView>, printed: Seq<Seq<char>>) -> Seq<HitView>
    decreases hits.len(),
{
    if hits.len() == 0 {
        Seq::empty()
    } else {
        let h = hits.last();
        let rest = newly_shown(hits.drop_last(), printed);
        if printed.contains(h.id) || hit_ids(hits.drop_last()).contains(h.id) {
            rest
        } else {
            rest.push(h)
        }
    }
}

/// The entries of the hits numbered consecutively from `first`.
pub open spec fn numbered_entries(hits: Seq<HitView>, first: nat) -> Seq<char>
    decreases hits.len(),
{
    if hits.len() == 0 {
        Seq::empty()
    } else {
        numbered_entries(hits.drop_last(), first) + hit_entry(
            (first + hits.len() - 1) as nat,
            hits.last(),
        )
    }
}

proof fn lemma_shown_ids(hits: Seq<HitView>, printed: Seq<Seq<char>>, x: Seq<char>)
    ensures
        hit_ids(newly_shown(hits, printed)).contains(x) ==> hit_ids(hits).contains(x)
            && !printed.contains(x),
        hit_ids(hits).contains(x) && !printed.contains(x) ==> hit_ids(newly_shown(hits, printed)).contains(x),
    decreases hits.len(),
{
    if hits.len() > 0 {
        let d = hits.drop_last();
        let h = hits.last();
        lemma_shown_ids(d, printed, x);
        let nd = newly_shown(d, printed);
        let n = newly_shown(hits, printed);
        assert(hit_ids(hits) =~= hit_ids(d).push(h.id));
        if !(printed.contains(h.id) || hit_ids(d).contains(h.id)) {
            assert(hit_ids(n) =~= hit_ids(nd).push(h.id));
        }
        if hit_ids(n).contains(x) {
            let j = choose|j: int| 0 <= j < hit_ids(n).len() && hit_ids(n)[j] == x;
            if j < nd.len() {
                assert(hit_ids(nd)[j] == x);
                assert(hit_ids(nd).contains(x));
                let q = choose|q: int| 0 <= q < hit_ids(d).len() && hit_ids(d)[q] == x;
                assert(hit_ids(hits)[q] == x);
            } else {
                assert(n =~= nd.push(h));
                assert(x == h.id);
                assert(hit_ids(hits)[hits.len() - 1] == x);
            }
        }
        if hit_ids(hits).contains(x) && !printed.contains(x) {
            let j = choose|j: int| 0 <= j < hit_ids(hits).len() && hit_ids(hits)[j] == x;
            if j < d.len() {
                assert(hit_ids(d)[j] == x);
                let q = choose|q: int| 0 <= q < hit_ids(nd).len() && hit_ids(nd)[q] == x;
                assert(hit_ids(n)[q] == x);
            } else if !hit_ids(d).contains(x) {
                assert(hit_ids(n)[n.len() - 1] == x);
            } else {
                let q = choose|q: int| 0 <= q < hit_ids(nd).len() && hit_ids(nd)[q] == x;
                assert(hit_ids(n)[q] == x);
            }
        }
    }
}

/// A set's papers are listed once each, numbered 1, 2, … among the papers
/// the set shows: the papers shown before, and repeats within the set, are
/// skipped without using up a number; each entry opens with its number
/// and the paper's id. Reading the set adds exactly the shown papers' ids
/// to those printed.
pub proof fn law_entries_are_numbered_from_one(hits: Seq<HitView>, printed: Seq<Seq<char>>)
    ensures
        set_scan(hits, printed).0 == printed + hit_ids(newly_shown(hits, printed)),
        set_scan(hits, printed).1 == newly_shown(hits, printed).len(),
        set_scan(hits, printed).2 == numbered_entries(newly_shown(hits, printed), 1),
        forall|i: nat, h: HitView|
            #![trigger hit_entry(i, h)]
            (decimal(i) + ". [ID="@ + h.id + "] **"@).is_prefix_of(hit_entry(i, h)),
    decreases hits.len(),
{
    assert forall|i: nat, h: HitView|
        #![trigger hit_entry(i, h)]
        (decimal(i) + ". [ID="@ + h.id + "] **"@).is_prefix_of(hit_entry(i, h)) by {
        let pre = decimal(i) + ". [ID="@ + h.id + "] **"@;
        let e = hit_entry(i, h);
        assert(e.subrange(0, pre.len() as int) =~= pre);
    }
    if hits.len() > 0 {
        let d = hits.drop_last();
        let h = hits.last();
        law_entries_are_numbered_from_one(d, printed);
        let nd = newly_shown(d, printed);
        let p = printed + hit_ids(nd);
        lemma_shown_ids(d, printed, h.id);
        if printed.contains(h.id) || hit_ids(d).contains(h.id) {
            if printed.contains(h.id) {
                let j = choose|j: int| 0 <= j < printed.len() && printed[j] == h.id;
                assert(p[j] == h.id);
            } else {
                let q = choose|q: int| 0 <= q < hit_ids(nd).len() && hit_ids(nd)[q] == h.id;
                assert(p[printed.len() + q] == h.id);
            }
        } else {
            if p.contains(h.id) {
                let j = choose|j: int| 0 <= j < p.len() && p[j] == h.id;
                if j < printed.len() {
                    assert(printed[j] == h.id);
                } else {
                    assert(hit_ids(nd)[j - printed.len()] == h.id);
                }
            }
            let n = nd.push(h);
            assert(n.drop_last() =~= nd);
            assert(hit_ids(n) =~= hit_ids(nd).push(h.id));
            assert(p.push(h.id) =~= printed + hit_ids(n));
        }
    }
}

/// The text of a retrieval set: a heading with the strategy and its query,
/// the entries of the papers not shown yet, or a note that there are none.
pub open spec fn retrieval_text(label: Seq<char>, query: Seq<char>, hits: Seq<HitView>, printed: Seq<Seq<char>>) -> Seq<char> {
    let (_, n, t) = set_scan(hits, printed);
    "## "@ + label + "\nQuery: "@ + query + "\n\n"@ + t + if n == 0 {
        "No additional papers found.\n"@
    } else {
        Seq::empty()
    } + "\n"@
}

/// The snippets shown for a hit.
fn render_snippets(h: &LitHit) -> (r: String)
    ensures
        r@ == snippets_text(h@.snippets),
{
    let n = if h.snippets.len() <= 2 {
        h.snippets.len()
    } else {
        2
    };
    let ghost all = h@.snippets;
    let ghost shown = if all.len() <= 2 {
        all
    } else {
        all.take(2)
    };
    let mut pieces: Vec<String> = Vec::new();
    let mut i: usize = 0;
    while i < n
        invariant
            n == shown.len(),
            i <= n,
            all == h@.snippets,
            shown == (if all.len() <= 2 {
                all
            } else {
                all.take(2)
            }),
            n <= h.snippets@.len(),
            views(pieces@) == shown.take(i as int).map_values(|s: (u64, Seq<char>)| snippet_text(s)),
        decreases n - i,
    {
        let sn = &h.snippets[i];
        assert(all[i as int] == (sn.page_number, sn.snippet@));
        assert(shown[i as int] == all[i as int]);
        let mut piece = owned("[p.");
        push_decimal(&mut piece, sn.page_number);
        push_str(&mut piece, "] ");
        let c = collapse_ws(sn.snippet.as_str());
        push_str(&mut piece, c.as_str());
        let ghost prev = views(pieces@);
        pieces.push(piece);
        assert(views(pieces@) =~= prev.push(snippet_text(shown[i as int])));
        assert(shown.take(i + 1).map_values(|s: (u64, Seq<char>)| snippet_text(s)) =~= shown.take(
            i as int,
        ).map_values(|s: (u64, Seq<char>)| snippet_text(s)).push(snippet_text(shown[i as int])));
        i = i + 1;
    }
    assert(shown.take(n as int) =~= shown);
    crate::text::join(&pieces, " | ")
}

/// The entry of the `i`-th paper of a retrieval set.
fn render_hit(i: u64, h: &LitHit) -> (r: String)
    ensures
        r@ == hit_entry(i as nat, h@),
{
    let mut out = String::new();
    push_decimal(&mut out, i);
    push_str(&mut out, ". [ID=");
    push_str(&mut out, h.id.as_str());
    push_str(&mut out, "] **");
    push_str(&mut out, h.title.as_str());
    push_str(&mut out, "**. Published ");
    let date = publication_date(h);
    push_str(&mut out, date.as_str());
    push_str(&mut out, " · ");
    let m = metric(h);
    push_str(&mut out, m.as_str());
    push_str(&mut out, ": ");
    let a = collapse_ws(h.abstract_.as_str());
    let t = truncate_chars(a.as_str(), 200);
    push_str(&mut out, t.as_str());
    push_str(&mut out, "\n");
    let sn = render_snippets(h);
    if !sn.as_str().is_empty() {
        push_str(&mut out, "   Matches: ");
        push_str(&mut out, sn.as_str());
        push_str(&mut out, "\n");
    }
    proof {
        assert(out@ =~= hit_entry(i as nat, h@));
    }
    out
}

/// Whether an id was printed already.
fn was_printed(printed: &Vec<String>, id: &String) -> (r: bool)
    ensures
        r == views(printed@).contains(id@),
{
    let mut i: usize = 0;
    while i < printed.len()
        invariant
            i <= printed@.len(),
            forall|k: int| 0 <= k < i ==> printed@[k]@ != id@,
        decreases printed@.len() - i,
    {
        if str_eq(printed[i].as_str(), id.as_str()) {
            assert(views(printed@)[i as int] == id@);
            return true;
        }
        i = i + 1;
    }
    proof {
        if views(printed@).contains(id@) {
            let k = choose|k: int| 0 <= k < views(printed@).len() && views(printed@)[k] == id@;
            assert(printed@[k]@ == id@);
        }
    }
    false
}

/// The text of a retrieval set; the ids it shows are added to `printed`.
pub fn render_retrieval_set(set: &RetrievalSet, printed: &mut Vec<String>) -> (r: String)
    ensures
        r@ == retrieval_text(set.label@, set.query@, set.hits@.map_values(|h: LitHit| h@), views(old(printed)@)),
        views(final(printed)@) == set_scan(set.hits@.map_values(|h: LitHit| h@), views(old(printed)@)).0,
{
    let ghost hv = set.hits@.map_values(|h: LitHit| h@);
    let ghost p0 = views(printed@);
    let mut body = String::new();
    let mut index: u64 = 0;
    let mut k: usize = 0;
    while k < set.hits.len()
        invariant
            k <= set.hits@.len(),
            hv == set.hits@.map_values(|h: LitHit| h@),
            (views(printed@), index as nat, body@) == set_scan(hv.take(k as int), p0),
            index <= k,
        decreases set.hits@.len() - k,
    {
        let ghost t = hv.take(k + 1);
        assert(t.drop_last() =~= hv.take(k as int));
        assert(t.last() == set.hits@[k as int]@);
        let h = &set.hits[k];
        if !was_printed(printed, &h.id) {
            let ghost prev = views(printed@);
            printed.push(h.id.clone());
            assert(views(printed@) =~= prev.push(h.id@));
            index = index + 1;
            let e = render_hit(index, h);
            push_str(&mut body, e.as_str());
        }
        k = k + 1;
    }
    assert(hv.take(set.hits@.len() as int) =~= hv);
    let mut out = owned("## ");
    push_str(&mut out, set.label);
    push_str(&mut out, "\nQuery: ");
    push_str(&mut out, set.query.as_str());
    push_str(&mut out, "\n\n");
    push_str(&mut out, body.as_str());
    if index == 0 {
        push_str(&mut out, "No additional papers found.\n");
    }
    push_str(&mut out, "\n");
    proof {
        assert(out@ =~= retrieval_text(set.label@, set.query@, hv, p0));
    }
    out
}

/// The entry of a paper in a plain result list: id and title, then date
/// and metric, then the start of its abstract when it has one, indented.
pub open spec fn flat_entry(h: HitView) -> Seq<char> {
    let a = collapse_ws_spec(h.abstract_);
    h.id + "  "@ + h.title + "\n            "@ + publication_date_spec(h) + " · "@ + metric_spec(h) + "\n"@
        + if a.len() > 0 {
        "            "@ + truncate_chars_spec(a, 300) + "\n"@
    } else {
        Seq::empty()
    } + "\n"@
}

/// The entries of some papers, in order.
pub open spec fn flat_text(hits: Seq<HitView>) -> Seq<char>
    decreases hits.len(),
{
    if hits.len() == 0 {
        Seq::empty()
    } else {
        flat_text(hits.drop_last()) + flat_entry(hits.last())
    }
}

/// The text of a plain result list (OpenAlex and bioRxiv).
pub fn render_flat_results(hits: &Vec<LitHit>) -> (r: String)
    ensures
        r@ == flat_text(hits@.map_values(|h: LitHit| h@)),
{
    let ghost hv = hits@.map_values(|h: LitHit| h@);
    let mut out = String::new();
    let mut k: usize = 0;
    while k < hits.len()
        invariant
            k <= hits@.len(),
            hv == hits@.map_values(|h: LitHit| h@),
            out@ == flat_text(hv.take(k as int)),
        decreases hits@.len() - k,
    {
        let ghost t = hv.take(k + 1);
        assert(t.drop_last() =~= hv.take(k as int));
        assert(t.last() == hits@[k as int]@);
        let h = &hits[k];
        let ghost before = out@;
        push_str(&mut out, h.id.as_str());
        push_str(&mut out, "  ");
        push_str(&mut out, h.title.as_str());
        push_str(&mut out, "\n            ");
        let date = publication_date(h);
        push_str(&mut out, date.as_str());
        push_str(&mut out, " · ");
        let m = metric(h);
        push_str(&mut out, m.as_str());
        push_str(&mut out, "\n");
        let a = collapse_ws(h.abstract_.as_str());
        if !a.as_str().is_empty() {
            push_str(&mut out, "            ");
            let t = truncate_chars(a.as_str(), 300);
            push_str(&mut out, t.as_str());
            push_str(&mut out, "\n");
        }
        push_str(&mut out, "\n");
        assert(out@ =~= before + flat_entry(hv[k as int]));
        k = k + 1;
    }
    assert(hv.take(hits@.len() as int) =~= hv);
    out
}

} // verus!
