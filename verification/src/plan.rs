//! The decisions of a search: which tiers of queries run, with which SQL
//! and which parameters, how the rows of two tiers are merged, and in which
//! order the results are returned. The database work itself is done by the
//! caller.
use vstd::prelude::*;
use crate::search::{prepare_trigram_query, search_form, search_form_of, sql_norm, trigram_query};
use crate::text::{
    byte_len, byte_len_of, chars_eq, chars_of, extend_chars, extend_str, split_words,
    string_of, trim_chars, trimmed, views, words, Splitter,
};

verus! {

broadcast use vstd::seq_lib::group_seq_properties;

/// The most results a search returns.
pub const RESULT_LIMIT: usize = 25;

/// The score of a row from the title's token score.
pub const TITLE_BONUS: &'static str = "token_score(:nq, title)";

/// The score of a row from the folder that holds it.
pub const FOLDER_BOOST: &'static str = "CASE WHEN path LIKE '%/Downloads/%' THEN 1.5 WHEN path LIKE '%/Desktop/%' THEN 1.5 WHEN path LIKE '%/Documents/%' THEN 0.8 WHEN path LIKE '%/.qfinder/notes/%' THEN 0.8 ELSE 0.0 END";

/// The title's token score where the full-text table, which has a title
/// column too, is joined in.
pub const ITEM_TITLE_BONUS: &'static str = "token_score(:nq, items.title)";

/// The score of a row from how recently it was used.
pub const RECENCY: &'static str = "CASE WHEN (:now - last_accessed) < 3600 THEN 1.5 WHEN (:now - last_accessed) < 86400 THEN 0.8 WHEN (:now - last_accessed) < 604800 THEN 0.3 ELSE 0.0 END";

/// The row filter for the `note` scope.
pub const NOTE_FILTER: &'static str = "AND (items.type = 'note' OR items.type = 'pdf')";

/// The row filter for the `file` scope.
pub const FILE_FILTER: &'static str = "AND (items.type = 'file' OR items.type = 'image' OR items.type = 'video' OR items.type = 'pdf')";

/// The row filter for the `clipboard` scope.
pub const CLIPBOARD_FILTER: &'static str = "AND items.type = 'clipboard'";

/// The characters of an optional string.
pub open spec fn opt_view(o: Option<&str>) -> Option<Seq<char>> {
    match o {
        Some(s) => Some(s@),
        None => None,
    }
}

/// The row filter for a scope: notes, files, clipboard entries, or every
/// row for no scope or any other.
pub open spec fn scope_filter(scope: Option<Seq<char>>) -> Seq<char> {
    match scope {
        Some(s) => if s == "note"@ {
            NOTE_FILTER@
        } else if s == "file"@ {
            FILE_FILTER@
        } else if s == "clipboard"@ {
            CLIPBOARD_FILTER@
        } else {
            Seq::empty()
        },
        None => Seq::empty(),
    }
}

/// Whether the characters `v` are those of the literal `lit`.
fn is_literal(v: &Vec<char>, lit: &str) -> (r: bool)
    ensures
        r == (v@ == lit@),
{
    let l = chars_of(lit);
    chars_eq(v, &l)
}

/// The SQL row filter for `scope`.
pub fn type_filter(scope: Option<&str>) -> (r: String)
    ensures
        r@ == scope_filter(opt_view(scope)),
{
    match scope {
        Some(s) => {
            let v = chars_of(s);
            if is_literal(&v, "note") {
                NOTE_FILTER.to_owned()
            } else if is_literal(&v, "file") {
                FILE_FILTER.to_owned()
            } else if is_literal(&v, "clipboard") {
                CLIPBOARD_FILTER.to_owned()
            } else {
                String::new()
            }
        },
        None => String::new(),
    }
}

/// The word kept while folding from the left: a later word replaces the
/// best so far when its byte length is at least as large (so among equally
/// long words the last wins, as `Iterator::max_by_key` does).
pub open spec fn longest_word(ws: Seq<Seq<char>>) -> Seq<char>
    decreases ws.len(),
{
    if ws.len() <= 1 {
        if ws.len() == 1 {
            ws[0]
        } else {
            Seq::empty()
        }
    } else {
        let best = longest_word(ws.drop_last());
        if byte_len(ws.last()) >= byte_len(best) {
            ws.last()
        } else {
            best
        }
    }
}

/// The anchor of a normalised query: its longest whitespace-separated word,
/// or the whole text when it has no word.
pub open spec fn anchor_of(n: Seq<char>) -> Seq<char> {
    let ws = words(n, Splitter::Whitespace);
    if ws.len() == 0 {
        n
    } else {
        longest_word(ws)
    }
}

/// Law: the anchor is a longest word of the normalised query (in bytes),
/// the last of the longest when several tie; a query without words is its
/// own anchor.
pub proof fn law_anchor_is_a_longest_word(n: Seq<char>)
    ensures
        words(n, Splitter::Whitespace).len() == 0 ==> anchor_of(n) == n,
        words(n, Splitter::Whitespace).len() > 0 ==> exists|k: int|
            0 <= k < words(n, Splitter::Whitespace).len() && words(n, Splitter::Whitespace)[k] == anchor_of(n)
                && (forall|j: int|
                0 <= j < words(n, Splitter::Whitespace).len() ==> byte_len(
                    #[trigger] words(n, Splitter::Whitespace)[j],
                ) <= byte_len(anchor_of(n))) && (forall|j: int|
                k < j < words(n, Splitter::Whitespace).len() ==> byte_len(
                    #[trigger] words(n, Splitter::Whitespace)[j],
                ) < byte_len(anchor_of(n))),
{
    let ws = words(n, Splitter::Whitespace);
    if ws.len() > 0 {
        lemma_longest_word(ws);
    }
}

/// `longest_word` picks a longest element, the last of the longest.
proof fn lemma_longest_word(ws: Seq<Seq<char>>)
    requires
        ws.len() > 0,
    ensures
        exists|k: int|
            0 <= k < ws.len() && ws[k] == longest_word(ws) && (forall|j: int|
                0 <= j < ws.len() ==> byte_len(#[trigger] ws[j]) <= byte_len(longest_word(ws))) && (
            forall|j: int| k < j < ws.len() ==> byte_len(#[trigger] ws[j]) < byte_len(longest_word(ws))),
    decreases ws.len(),
{
    if ws.len() == 1 {
        assert(ws[0] == longest_word(ws));
    } else {
        let p = ws.drop_last();
        lemma_longest_word(p);
        let k0 = choose|k: int|
            0 <= k < p.len() && p[k] == longest_word(p) && (forall|j: int|
                0 <= j < p.len() ==> byte_len(#[trigger] p[j]) <= byte_len(longest_word(p))) && (
            forall|j: int| k < j < p.len() ==> byte_len(#[trigger] p[j]) < byte_len(longest_word(p)));
        let best = longest_word(p);
        let last = ws[ws.len() - 1];
        if byte_len(last) >= byte_len(best) {
            assert(longest_word(ws) == last);
            assert forall|j: int| 0 <= j < ws.len() implies byte_len(#[trigger] ws[j]) <= byte_len(
                longest_word(ws),
            ) by {
                if j < p.len() {
                    assert(ws[j] == p[j]);
                }
            }
            let k = ws.len() - 1;
            assert(0 <= k < ws.len() && ws[k] == longest_word(ws));
        } else {
            assert(longest_word(ws) == best);
            assert forall|j: int| 0 <= j < ws.len() implies byte_len(#[trigger] ws[j]) <= byte_len(
                longest_word(ws),
            ) by {
                if j < p.len() {
                    assert(ws[j] == p[j]);
                }
            }
            assert forall|j: int| k0 < j < ws.len() implies byte_len(#[trigger] ws[j]) < byte_len(
                longest_word(ws),
            ) by {
                if j < p.len() {
                    assert(ws[j] == p[j]);
                }
            }
            assert(ws[k0] == p[k0]);
        }
    }
}

/// The anchor of the normalised query `n`.
pub fn anchor(n: &Vec<char>) -> (r: Vec<char>)
    ensures
        r@ == anchor_of(n@),
{
    let ws = split_words(n, Splitter::Whitespace);
    if ws.len() == 0 {
        let mut r: Vec<char> = Vec::new();
        extend_chars(&mut r, n);
        return r;
    }
    let mut best: usize = 0;
    let mut best_len = byte_len_of(&ws[0]);
    let mut i: usize = 1;
    assert(views(ws@).take(1).len() == 1);
    while i < ws.len()
        invariant
            1 <= i <= ws.len(),
            best < ws.len(),
            views(ws@) == words(n@, Splitter::Whitespace),
            ws@[best as int]@ == longest_word(views(ws@).take(i as int)),
            best_len == byte_len(ws@[best as int]@),
        decreases ws.len() - i,
    {
        let l = byte_len_of(&ws[i]);
        assert(views(ws@).take(i + 1).drop_last() =~= views(ws@).take(i as int));
        if l >= best_len {
            best = i;
            best_len = l;
        }
        i += 1;
    }
    assert(views(ws@).take(i as int) =~= views(ws@));
    let mut r: Vec<char> = Vec::new();
    extend_chars(&mut r, &ws[best]);
    r
}

/// What a search will do for a query.
pub struct SearchPlan {
    /// The query without surrounding whitespace.
    pub clean_query: String,
    /// The query in search form (separators spaced, lowercased).
    pub norm_query: String,
    /// The SQL row filter of the scope.
    pub type_filter: String,
    /// The query is shorter than three bytes: only titles are matched.
    pub short: bool,
    /// The full-text query; the full-text tier runs when it is not empty.
    pub fts_query: String,
    /// The word that titles must contain in the title tier.
    pub anchor: String,
    /// Whether the title tier runs.
    pub use_anchor: bool,
}

/// Plans the search for `query` within `scope`: `None` when the query is
/// blank (no results); otherwise the trimmed query, its search form, the
/// scope's filter, whether it is a short query, its full-text query, and
/// the anchor of the title tier, which runs when the anchor has at least
/// two bytes.
pub fn plan_search(query: &str, scope: Option<&str>) -> (r: Option<SearchPlan>)
    ensures
        r is None <==> trimmed(query@).len() == 0,
        r matches Some(p) ==> {
            let clean = trimmed(query@);
            &&& p.clean_query@ == clean
            &&& p.norm_query@ == search_form(clean)
            &&& p.type_filter@ == scope_filter(opt_view(scope))
            &&& p.short == (byte_len(clean) < 3)
            &&& p.fts_query@ == trigram_query(clean)
            &&& p.anchor@ == anchor_of(search_form(clean))
            &&& p.use_anchor == (byte_len(anchor_of(search_form(clean))) >= 2)
        },
{
    let q = chars_of(query);
    let clean = trim_chars(&q);
    if clean.len() == 0 {
        return None;
    }
    let clean_query = string_of(&clean);
    let norm = search_form_of(&clean);
    let a = anchor(&norm);
    let use_anchor = byte_len_of(&a) >= 2;
    let fts_query = prepare_trigram_query(clean_query.as_str());
    Some(SearchPlan {
        clean_query,
        norm_query: string_of(&norm),
        type_filter: type_filter(scope),
        short: byte_len_of(&clean) < 3,
        fts_query,
        anchor: string_of(&a),
        use_anchor,
    })
}

// ---------------------------------------------------------------------------
// The SQL of each tier
// ---------------------------------------------------------------------------

/// The queries a search may run.
#[derive(Clone, Copy, PartialEq, Eq, Structural, Debug)]
pub enum Tier {
    /// A query shorter than three bytes: titles containing it.
    Short,
    /// The full-text index (titles and contents), re-scored by the items'
    /// titles.
    FullText,
    /// Titles containing the anchor.
    Title,
    /// Titles close to the query by edit distance.
    Fuzzy,
}

/// The normalised title column.
pub open spec fn title_norm() -> Seq<char> {
    "replace(replace(lower("@ + "title"@ + "), '-', ' '), '_', ' ')"@
}

/// The sum of the title, folder and recency scores.
pub open spec fn base_score() -> Seq<char> {
    TITLE_BONUS@ + " + "@ + FOLDER_BOOST@ + " + "@ + RECENCY@
}

/// The SQL of `tier` with the row filter `filter`.
pub open spec fn tier_sql(tier: Tier, filter: Seq<char>) -> Seq<char> {
    match tier {
        Tier::Short => "SELECT id, type, title, path, ("@ + base_score() + ") as score FROM items WHERE "@
            + title_norm() + " LIKE '%' || lower(:nq) || '%' "@ + filter
            + " ORDER BY score DESC, last_accessed DESC LIMIT 25"@,
        Tier::FullText => "SELECT items.id, items.type, items.title, items.path, ((-bm25(search) * 0.8) + "@ + ITEM_TITLE_BONUS@
            + " + "@ + FOLDER_BOOST@ + " + (0.2 * MIN(access_count,10)) + "@ + RECENCY@
            + ") as score FROM items JOIN search ON items.id = search.rowid WHERE search MATCH :fts "@
            + filter + " ORDER BY score DESC LIMIT 50"@,
        Tier::Title => "SELECT id, type, title, path, ("@ + base_score() + ") as score FROM items WHERE "@
            + title_norm() + " LIKE '%' || :anchor || '%' "@ + filter
            + " ORDER BY score DESC, last_accessed DESC LIMIT 50"@,
        Tier::Fuzzy => "SELECT id, type, title, path, fuzzy_score(:q, title) AS similarity FROM items WHERE abs(length(title) - length(:q)) <= 5 AND similarity > 0.35 "@
            + filter + " ORDER BY similarity DESC LIMIT 25"@,
    }
}

/// Appends the sum of the title, folder and recency scores.
fn push_base_score(v: &mut Vec<char>)
    ensures
        final(v)@ == old(v)@ + base_score(),
{
    extend_str(v, TITLE_BONUS);
    extend_str(v, " + ");
    extend_str(v, FOLDER_BOOST);
    extend_str(v, " + ");
    extend_str(v, RECENCY);
    assert(v@ =~= old(v)@ + base_score());
}

/// The SQL that `tier` runs with the row filter `filter`.
pub fn search_sql(tier: Tier, filter: &str) -> (r: String)
    ensures
        r@ == tier_sql(tier, filter@),
{
    let mut v: Vec<char> = Vec::new();
    match tier {
        Tier::Short => {
            extend_str(&mut v, "SELECT id, type, title, path, (");
            push_base_score(&mut v);
            extend_str(&mut v, ") as score FROM items WHERE ");
            let tn = sql_norm("title");
            extend_str(&mut v, tn.as_str());
            extend_str(&mut v, " LIKE '%' || lower(:nq) || '%' ");
            extend_str(&mut v, filter);
            extend_str(&mut v, " ORDER BY score DESC, last_accessed DESC LIMIT 25");
        },
        Tier::FullText => {
            extend_str(&mut v, "SELECT items.id, items.type, items.title, items.path, ((-bm25(search) * 0.8) + ");
            extend_str(&mut v, ITEM_TITLE_BONUS);
            extend_str(&mut v, " + ");
            extend_str(&mut v, FOLDER_BOOST);
            extend_str(&mut v, " + (0.2 * MIN(access_count,10)) + ");
            extend_str(&mut v, RECENCY);
            extend_str(&mut v, ") as score FROM items JOIN search ON items.id = search.rowid WHERE search MATCH :fts ");
            extend_str(&mut v, filter);
            extend_str(&mut v, " ORDER BY score DESC LIMIT 50");
        },
        Tier::Title => {
            extend_str(&mut v, "SELECT id, type, title, path, (");
            push_base_score(&mut v);
            extend_str(&mut v, ") as score FROM items WHERE ");
            let tn = sql_norm("title");
            extend_str(&mut v, tn.as_str());
            extend_str(&mut v, " LIKE '%' || :anchor || '%' ");
            extend_str(&mut v, filter);
            extend_str(&mut v, " ORDER BY score DESC, last_accessed DESC LIMIT 50");
        },
        Tier::Fuzzy => {
            extend_str(&mut v, "SELECT id, type, title, path, fuzzy_score(:q, title) AS similarity FROM items WHERE abs(length(title) - length(:q)) <= 5 AND similarity > 0.35 ");
            extend_str(&mut v, filter);
            extend_str(&mut v, " ORDER BY similarity DESC LIMIT 25");
        },
    }
    assert(v@ =~= tier_sql(tier, filter@));
    string_of(&v)
}

// ---------------------------------------------------------------------------
// The parameters of each tier
// ---------------------------------------------------------------------------

/// A value bound to a named SQL parameter.
pub enum ParamValue {
    /// A text value.
    Text(String),
    /// A time, in seconds since the Unix epoch.
    Time(i64),
}

/// A parameter value as plain data.
pub enum ParamView {
    /// A text value.
    Text(Seq<char>),
    /// A time.
    Time(i64),
}

/// The plain data of a parameter value.
pub open spec fn param_view(v: ParamValue) -> ParamView {
    match v {
        ParamValue::Text(s) => ParamView::Text(s@),
        ParamValue::Time(t) => ParamView::Time(t),
    }
}

/// The plain data of a list of named parameters.
pub open spec fn params_view(ps: Seq<(&'static str, ParamValue)>) -> Seq<(Seq<char>, ParamView)> {
    Seq::new(ps.len(), |i: int| (ps[i].0@, param_view(ps[i].1)))
}

/// The parameters that the SQL of `tier` reads, for a plan with the search
/// form `norm`, full-text query `fts`, anchor `anchor` and trimmed query
/// `clean`, at time `now`.
pub open spec fn tier_params(
    tier: Tier,
    norm: Seq<char>,
    fts: Seq<char>,
    anchor: Seq<char>,
    clean: Seq<char>,
    now: i64,
) -> Seq<(Seq<char>, ParamView)> {
    match tier {
        Tier::Short => seq![(":nq"@, ParamView::Text(norm)), (":now"@, ParamView::Time(now))],
        Tier::FullText => seq![
            (":fts"@, ParamView::Text(fts)),
            (":nq"@, ParamView::Text(norm)),
            (":now"@, ParamView::Time(now)),
        ],
        Tier::Title => seq![
            (":nq"@, ParamView::Text(norm)),
            (":anchor"@, ParamView::Text(anchor)),
            (":now"@, ParamView::Time(now)),
        ],
        Tier::Fuzzy => seq![(":q"@, ParamView::Text(clean))],
    }
}

/// The named parameters to bind when running the SQL of `tier` for `plan`
/// at time `now`: the search form as `:nq`, the full-text query as `:fts`,
/// the anchor as `:anchor`, the trimmed query as `:q`, and the time as
/// `:now`, each where that tier's SQL reads it.
pub fn search_params(plan: &SearchPlan, tier: Tier, now: i64) -> (r: Vec<(&'static str, ParamValue)>)
    ensures
        params_view(r@) == tier_params(
            tier,
            plan.norm_query@,
            plan.fts_query@,
            plan.anchor@,
            plan.clean_query@,
            now,
        ),
{
    let r = match tier {
        Tier::Short => vec![
            (":nq", ParamValue::Text(plan.norm_query.clone())),
            (":now", ParamValue::Time(now)),
        ],
        Tier::FullText => vec![
            (":fts", ParamValue::Text(plan.fts_query.clone())),
            (":nq", ParamValue::Text(plan.norm_query.clone())),
            (":now", ParamValue::Time(now)),
        ],
        Tier::Title => vec![
            (":nq", ParamValue::Text(plan.norm_query.clone())),
            (":anchor", ParamValue::Text(plan.anchor.clone())),
            (":now", ParamValue::Time(now)),
        ],
        Tier::Fuzzy => vec![(":q", ParamValue::Text(plan.clean_query.clone()))],
    };
    assert(params_view(r@) =~= tier_params(
        tier,
        plan.norm_query@,
        plan.fts_query@,
        plan.anchor@,
        plan.clean_query@,
        now,
    ));
    r
}

// ---------------------------------------------------------------------------
// The order of the steps
// ---------------------------------------------------------------------------

/// A step of a search.
#[derive(Clone, Copy, PartialEq, Eq, Structural, Debug)]
pub enum SearchStep {
    /// Run the query of a tier and collect its rows.
    Query(Tier),
    /// Put the collected rows in order and keep the best (`rank_results`).
    Rank,
    /// Return the collected rows.
    Finish,
}

/// The step after `prev` (`None` at the start), for a plan that is `short`,
/// has a full-text query (`has_fts`) and uses the anchor (`use_anchor`),
/// when the collected rows are empty (`no_rows`): a short query runs the
/// short tier only; otherwise the full-text tier (when there is a query),
/// then the title tier (when the anchor is used), then ranking, then the
/// fuzzy tier only when ranking left no row.
pub open spec fn step_after(
    short: bool,
    has_fts: bool,
    use_anchor: bool,
    prev: Option<SearchStep>,
    no_rows: bool,
) -> SearchStep {
    match prev {
        None => if short {
            SearchStep::Query(Tier::Short)
        } else if has_fts {
            SearchStep::Query(Tier::FullText)
        } else if use_anchor {
            SearchStep::Query(Tier::Title)
        } else {
            SearchStep::Rank
        },
        Some(SearchStep::Query(Tier::Short)) => SearchStep::Finish,
        Some(SearchStep::Query(Tier::FullText)) => if use_anchor {
            SearchStep::Query(Tier::Title)
        } else {
            SearchStep::Rank
        },
        Some(SearchStep::Query(Tier::Title)) => SearchStep::Rank,
        Some(SearchStep::Rank) => if no_rows {
            SearchStep::Query(Tier::Fuzzy)
        } else {
            SearchStep::Finish
        },
        Some(SearchStep::Query(Tier::Fuzzy)) => SearchStep::Finish,
        Some(SearchStep::Finish) => SearchStep::Finish,
    }
}

/// The step of the search planned by `plan` after `prev` (`None` at the
/// start), given whether the rows collected so far are empty.
pub fn next_search_step(plan: &SearchPlan, prev: Option<SearchStep>, no_rows: bool) -> (r: SearchStep)
    ensures
        r == step_after(plan.short, plan.fts_query@.len() > 0, plan.use_anchor, prev, no_rows),
{
    let has_fts = !plan.fts_query.as_str().is_empty();
    match prev {
        None => if plan.short {
            SearchStep::Query(Tier::Short)
        } else if has_fts {
            SearchStep::Query(Tier::FullText)
        } else if plan.use_anchor {
            SearchStep::Query(Tier::Title)
        } else {
            SearchStep::Rank
        },
        Some(SearchStep::Query(Tier::Short)) => SearchStep::Finish,
        Some(SearchStep::Query(Tier::FullText)) => if plan.use_anchor {
            SearchStep::Query(Tier::Title)
        } else {
            SearchStep::Rank
        },
        Some(SearchStep::Query(Tier::Title)) => SearchStep::Rank,
        Some(SearchStep::Rank) => if no_rows {
            SearchStep::Query(Tier::Fuzzy)
        } else {
            SearchStep::Finish
        },
        Some(SearchStep::Query(Tier::Fuzzy)) => SearchStep::Finish,
        Some(SearchStep::Finish) => SearchStep::Finish,
    }
}

/// The steps a search takes from the start to `Finish`, when ranking leaves
/// no row exactly when `empty_after_rank`.
pub open spec fn search_steps(short: bool, has_fts: bool, use_anchor: bool, empty_after_rank: bool) -> Seq<SearchStep> {
    if short {
        seq![SearchStep::Query(Tier::Short), SearchStep::Finish]
    } else {
        (if has_fts { seq![SearchStep::Query(Tier::FullText)] } else { Seq::empty() })
            + (if use_anchor { seq![SearchStep::Query(Tier::Title)] } else { Seq::empty() })
            + seq![SearchStep::Rank]
            + (if empty_after_rank { seq![SearchStep::Query(Tier::Fuzzy)] } else { Seq::empty() })
            + seq![SearchStep::Finish]
    }
}

/// The number of queries among `steps`.
pub open spec fn query_count(steps: Seq<SearchStep>) -> nat
    decreases steps.len(),
{
    if steps.len() == 0 {
        0
    } else {
        query_count(steps.drop_last()) + if steps.last() is Query {
            1nat
        } else {
            0nat
        }
    }
}

/// Law: following `step_after` from the start gives exactly
/// `search_steps`: a short query runs one query (the title match); any
/// other runs the full-text and title tiers as planned, then ranks, then
/// runs the fuzzy tier only when ranking left no row, so at most three
/// queries; a search always finishes.
#[verifier::spinoff_prover]
#[verifier::rlimit(40)]
pub proof fn law_search_steps(short: bool, has_fts: bool, use_anchor: bool, empty_after_rank: bool)
    ensures
        ({
            let steps = search_steps(short, has_fts, use_anchor, empty_after_rank);
            &&& steps.len() > 0
            &&& steps[0] == step_after(short, has_fts, use_anchor, None, empty_after_rank)
            &&& forall|i: int|
                0 < i < steps.len() ==> #[trigger] steps[i] == step_after(
                    short,
                    has_fts,
                    use_anchor,
                    Some(steps[i - 1]),
                    empty_after_rank,
                )
            &&& steps.last() == SearchStep::Finish
            &&& forall|i: int| 0 <= i < steps.len() - 1 ==> #[trigger] steps[i] != SearchStep::Finish
            &&& short ==> query_count(steps) == 1
            &&& query_count(steps) <= 3
            &&& steps.contains(SearchStep::Query(Tier::Fuzzy)) <==> (!short && empty_after_rank)
        }),
{
    let steps = search_steps(short, has_fts, use_anchor, empty_after_rank);
    let f = if has_fts { seq![SearchStep::Query(Tier::FullText)] } else { Seq::<SearchStep>::empty() };
    let t = if use_anchor { seq![SearchStep::Query(Tier::Title)] } else { Seq::<SearchStep>::empty() };
    let z = if empty_after_rank { seq![SearchStep::Query(Tier::Fuzzy)] } else { Seq::<SearchStep>::empty() };
    if short {
        assert(steps =~= seq![SearchStep::Query(Tier::Short), SearchStep::Finish]);
        assert(steps.drop_last() =~= seq![SearchStep::Query(Tier::Short)]);
        assert(steps.drop_last().drop_last() =~= Seq::<SearchStep>::empty());
        assert(!steps.contains(SearchStep::Query(Tier::Fuzzy))) by {
            if steps.contains(SearchStep::Query(Tier::Fuzzy)) {
                let k = choose|k: int| 0 <= k < steps.len() && steps[k] == SearchStep::Query(Tier::Fuzzy);
            }
        }
    } else {
        let b = f + t + seq![SearchStep::Rank] + z;
        assert(steps =~= b.push(SearchStep::Finish));
        reveal_with_fuel(query_count, 6);
        if has_fts {
            if use_anchor {
                if empty_after_rank {
                    assert(steps =~= seq![SearchStep::Query(Tier::FullText), SearchStep::Query(Tier::Title), SearchStep::Rank, SearchStep::Query(Tier::Fuzzy), SearchStep::Finish]);
                } else {
                    assert(steps =~= seq![SearchStep::Query(Tier::FullText), SearchStep::Query(Tier::Title), SearchStep::Rank, SearchStep::Finish]);
                }
            } else {
                if empty_after_rank {
                    assert(steps =~= seq![SearchStep::Query(Tier::FullText), SearchStep::Rank, SearchStep::Query(Tier::Fuzzy), SearchStep::Finish]);
                } else {
                    assert(steps =~= seq![SearchStep::Query(Tier::FullText), SearchStep::Rank, SearchStep::Finish]);
                }
            }
        } else {
            if use_anchor {
                if empty_after_rank {
                    assert(steps =~= seq![SearchStep::Query(Tier::Title), SearchStep::Rank, SearchStep::Query(Tier::Fuzzy), SearchStep::Finish]);
                } else {
                    assert(steps =~= seq![SearchStep::Query(Tier::Title), SearchStep::Rank, SearchStep::Finish]);
                }
            } else {
                if empty_after_rank {
                    assert(steps =~= seq![SearchStep::Rank, SearchStep::Query(Tier::Fuzzy), SearchStep::Finish]);
                } else {
                    assert(steps =~= seq![SearchStep::Rank, SearchStep::Finish]);
                }
            }
        }
    }
}

// ---------------------------------------------------------------------------
// Merging and ranking
// ---------------------------------------------------------------------------

/// For each incoming row id, whether it is new: not among the ids the
/// earlier tiers returned.
pub fn unseen_rows(existing: &Vec<i64>, incoming: &Vec<i64>) -> (r: Vec<bool>)
    ensures
        r@.len() == incoming@.len(),
        forall|i: int| 0 <= i < incoming@.len() ==> r@[i] == !existing@.contains(#[trigger] incoming@[i]),
{
    let mut r: Vec<bool> = Vec::new();
    let mut i: usize = 0;
    while i < incoming.len()
        invariant
            i <= incoming.len(),
            r@.len() == i,
            forall|k: int| 0 <= k < i ==> r@[k] == !existing@.contains(#[trigger] incoming@[k]),
        decreases incoming.len() - i,
    {
        let id = incoming[i];
        let mut seen = false;
        let mut j: usize = 0;
        while j < existing.len()
            invariant
                j <= existing.len(),
                seen == exists|k: int| 0 <= k < j && existing@[k] == id,
            decreases existing.len() - j,
        {
            if existing[j] == id {
                seen = true;
            }
            j += 1;
        }
        r.push(!seen);
        i += 1;
    }
    r
}

/// Row `a` comes before row `b`: a higher score, or an equal score and an
/// earlier position (the order a stable sort by descending score gives).
pub open spec fn precedes(keys: Seq<u64>, a: int, b: int) -> bool {
    keys[a] > keys[b] || (keys[a] == keys[b] && a < b)
}

/// `order` lists positions of `keys`, each before the next.
pub open spec fn is_ranked(keys: Seq<u64>, order: Seq<usize>) -> bool {
    &&& forall|i: int| 0 <= i < order.len() ==> #[trigger] order[i] < keys.len()
    &&& forall|i: int, j: int|
        0 <= i < j < order.len() ==> precedes(keys, #[trigger] order[i] as int, #[trigger] order[j] as int)
}

/// Inserts position `p` (greater than every listed position) into the
/// ranked `order`.
fn insert_ranked(keys: &Vec<u64>, order: &mut Vec<usize>, p: usize)
    requires
        p < keys@.len(),
        is_ranked(keys@, old(order)@),
        forall|i: int| 0 <= i < old(order)@.len() ==> #[trigger] old(order)@[i] < p,
    ensures
        is_ranked(keys@, final(order)@),
        final(order)@.to_set() == old(order)@.to_set().insert(p),
        final(order)@.len() == old(order)@.len() + 1,
{
    let mut i: usize = 0;
    while i < order.len() && keys[order[i]] >= keys[p]
        invariant
            i <= order.len(),
            p < keys@.len(),
            is_ranked(keys@, order@),
            forall|k: int| 0 <= k < order@.len() ==> #[trigger] order@[k] < p,
            forall|k: int| 0 <= k < i ==> keys@[#[trigger] order@[k] as int] >= keys@[p as int],
        decreases order.len() - i,
    {
        i += 1;
    }
    let ghost before = order@;
    order.insert(i, p);
    assert(order@ == before.insert(i as int, p));
    assert forall|a: int, b: int| 0 <= a < b < order@.len() implies precedes(
        keys@,
        #[trigger] order@[a] as int,
        #[trigger] order@[b] as int,
    ) by {
        if b < i {
            assert(order@[a] == before[a] && order@[b] == before[b]);
        } else if b == i {
            assert(order@[a] == before[a]);
            assert(keys@[before[a] as int] >= keys@[p as int]);
        } else if a < i {
            assert(order@[a] == before[a] && order@[b] == before[b - 1]);
        } else if a == i {
            assert(order@[b] == before[b - 1]);
            assert(keys@[before[i as int] as int] < keys@[p as int]);
            if b - 1 > i {
                assert(precedes(keys@, before[i as int] as int, before[b - 1] as int));
            }
        } else {
            assert(order@[a] == before[a - 1] && order@[b] == before[b - 1]);
        }
    }
    assert forall|k: int| 0 <= k < order@.len() implies #[trigger] order@[k] < keys@.len() by {
        if k < i {
            assert(order@[k] == before[k]);
        } else if k > i {
            assert(order@[k] == before[k - 1]);
        }
    }
    assert(order@.to_set() =~= before.to_set().insert(p)) by {
        assert forall|x: usize| order@.contains(x) <==> before.contains(x) || x == p by {
            if order@.contains(x) {
                let k = choose|k: int| 0 <= k < order@.len() && order@[k] == x;
                if k < i {
                    assert(before[k] == x);
                } else if k > i {
                    assert(before[k - 1] == x);
                }
            }
            if before.contains(x) {
                let k = choose|k: int| 0 <= k < before.len() && before[k] == x;
                if k < i {
                    assert(order@[k] == x);
                } else {
                    assert(order@[k + 1] == x);
                }
            }
            if x == p {
                assert(order@[i as int] == p);
            }
        }
    }
}

/// The positions of the results to return, best first: ordered by
/// descending score key, equal keys in their given order, and cut to
/// the first `RESULT_LIMIT`. Every position left out comes after every
/// position kept.
pub fn rank_results(keys: &Vec<u64>) -> (r: Vec<usize>)
    ensures
        is_ranked(keys@, r@),
        r@.len() == if keys@.len() < RESULT_LIMIT { keys@.len() } else { RESULT_LIMIT as nat },
        forall|x: usize|
            x < keys@.len() && !r@.contains(x) ==> forall|i: int|
                0 <= i < r@.len() ==> precedes(keys@, #[trigger] r@[i] as int, x as int),
{
    let mut order: Vec<usize> = Vec::new();
    let mut p: usize = 0;
    while p < keys.len()
        invariant
            p <= keys@.len(),
            is_ranked(keys@, order@),
            order@.len() == p,
            order@.to_set() == Set::new(|x: usize| x < p),
        decreases keys.len() - p,
    {
        proof {
            assert forall|i: int| 0 <= i < order@.len() implies #[trigger] order@[i] < p by {
                assert(order@.to_set().contains(order@[i]));
            }
        }
        insert_ranked(keys, &mut order, p);
        p += 1;
        assert(order@.to_set() =~= Set::new(|x: usize| x < p));
    }
    let limit = if keys.len() < RESULT_LIMIT { keys.len() } else { RESULT_LIMIT };
    let mut r: Vec<usize> = Vec::new();
    let mut i: usize = 0;
    while i < limit
        invariant
            i <= limit <= order@.len(),
            r@ == order@.take(i as int),
        decreases limit - i,
    {
        r.push(order[i]);
        i += 1;
        assert(order@.take(i as int) =~= order@.take(i - 1).push(order@[i - 1]));
    }
    assert forall|x: usize|
        x < keys@.len() && !r@.contains(x) implies forall|k: int|
            0 <= k < r@.len() ==> precedes(keys@, #[trigger] r@[k] as int, x as int) by {
        assert(order@.to_set().contains(x));
        let m = choose|m: int| 0 <= m < order@.len() && order@[m] == x;
        if m < limit {
            assert(r@[m] == x);
        }
        assert forall|k: int| 0 <= k < r@.len() implies precedes(keys@, #[trigger] r@[k] as int, x as int) by {
            assert(r@[k] == order@[k]);
        }
    }
    r
}

} // verus!
