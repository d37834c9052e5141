use qfinder::plan::{
    plan_search, rank_results, search_sql, type_filter, unseen_rows, Tier, CLIPBOARD_FILTER,
    FILE_FILTER, FOLDER_BOOST, ITEM_TITLE_BONUS, next_search_step, search_params, ParamValue, SearchStep, NOTE_FILTER, RECENCY, RESULT_LIMIT, TITLE_BONUS,
};

#[test]
fn blank_queries_plan_nothing() {
    assert!(plan_search("", None).is_none());
    assert!(plan_search("   \t\n", Some("note")).is_none());
}

#[test]
fn short_query_plan() {
    let p = plan_search("  ab ", Some("note")).unwrap();
    assert_eq!(p.clean_query, "ab");
    assert_eq!(p.norm_query, "ab");
    assert!(p.short);
    assert_eq!(p.type_filter, NOTE_FILTER);
}

#[test]
fn full_query_plan() {
    let p = plan_search(" Spass-CV xyz ", Some("file")).unwrap();
    assert_eq!(p.clean_query, "Spass-CV xyz");
    assert_eq!(p.norm_query, "spass cv xyz");
    assert!(!p.short);
    assert_eq!(p.type_filter, FILE_FILTER);
    assert_eq!(p.fts_query, "\"Spass\" AND \"xyz\"");
    assert_eq!(p.anchor, "spass");
    assert!(p.use_anchor);
}

#[test]
fn anchor_prefers_the_last_of_equally_long_words() {
    let p = plan_search("abcd efgh", None).unwrap();
    assert_eq!(p.anchor, "efgh");
    let p = plan_search("ab c", None).unwrap();
    assert_eq!(p.anchor, "ab");
}

#[test]
fn anchor_of_a_query_without_words_is_the_query() {
    let p = plan_search("---", None).unwrap();
    assert_eq!(p.norm_query, "   ");
    assert_eq!(p.anchor, "   ");
    assert!(p.use_anchor);
    assert_eq!(p.fts_query, "");
}

#[test]
fn short_anchor_is_not_used() {
    let p = plan_search("a b c", None).unwrap();
    assert_eq!(p.anchor, "c");
    assert!(!p.use_anchor);
}

#[test]
fn scope_filters() {
    assert_eq!(type_filter(Some("note")), NOTE_FILTER);
    assert_eq!(type_filter(Some("file")), FILE_FILTER);
    assert_eq!(type_filter(Some("clipboard")), CLIPBOARD_FILTER);
    assert_eq!(type_filter(Some("other")), "");
    assert_eq!(type_filter(None), "");
}

#[test]
fn sql_of_each_tier() {
    let tn = "replace(replace(lower(title), '-', ' '), '_', ' ')";
    let base = format!("{} + {} + {}", TITLE_BONUS, FOLDER_BOOST, RECENCY);
    assert_eq!(
        search_sql(Tier::Short, "X"),
        format!("SELECT id, type, title, path, ({}) as score FROM items WHERE {} LIKE '%' || lower(:nq) || '%' X ORDER BY score DESC, last_accessed DESC LIMIT 25", base, tn)
    );
    assert_eq!(
        search_sql(Tier::FullText, ""),
        format!("SELECT items.id, items.type, items.title, items.path, ((-bm25(search) * 0.8) + {} + {} + (0.2 * MIN(access_count,10)) + {}) as score FROM items JOIN search ON items.id = search.rowid WHERE search MATCH :fts  ORDER BY score DESC LIMIT 50", ITEM_TITLE_BONUS, FOLDER_BOOST, RECENCY)
    );
    assert_eq!(
        search_sql(Tier::Title, "F"),
        format!("SELECT id, type, title, path, ({}) as score FROM items WHERE {} LIKE '%' || :anchor || '%' F ORDER BY score DESC, last_accessed DESC LIMIT 50", base, tn)
    );
    assert_eq!(
        search_sql(Tier::Fuzzy, "F"),
        "SELECT id, type, title, path, fuzzy_score(:q, title) AS similarity FROM items WHERE abs(length(title) - length(:q)) <= 5 AND similarity > 0.35 F ORDER BY similarity DESC LIMIT 25"
    );
}

#[test]
fn unseen_rows_marks_new_ids() {
    assert_eq!(unseen_rows(&vec![1, 2], &vec![2, 3, 2, 4]), vec![false, true, false, true]);
    assert_eq!(unseen_rows(&vec![], &vec![7]), vec![true]);
    assert_eq!(unseen_rows(&vec![7], &vec![]), Vec::<bool>::new());
}

#[test]
fn ranking_is_a_stable_descending_sort() {
    assert_eq!(rank_results(&vec![5, 9, 5, 7]), vec![1, 3, 0, 2]);
    assert_eq!(rank_results(&vec![]), Vec::<usize>::new());
    assert_eq!(rank_results(&vec![1, 1, 1]), vec![0, 1, 2]);
}

#[test]
fn ranking_keeps_the_best_results_only() {
    let keys: Vec<u64> = (0..40u64).map(|i| (i * 7) % 11).collect();
    let r = rank_results(&keys);
    assert_eq!(r.len(), RESULT_LIMIT);
    let mut expected: Vec<usize> = (0..keys.len()).collect();
    expected.sort_by(|a, b| keys[*b].cmp(&keys[*a]));
    expected.truncate(RESULT_LIMIT);
    assert_eq!(r, expected);
}

fn steps(query: &str, empty_after_rank: bool) -> Vec<SearchStep> {
    let plan = plan_search(query, None).unwrap();
    let mut out = Vec::new();
    let mut prev = None;
    loop {
        let no_rows = match prev {
            Some(SearchStep::Rank) => empty_after_rank,
            _ => false,
        };
        let s = next_search_step(&plan, prev, no_rows);
        out.push(s);
        if s == SearchStep::Finish {
            break;
        }
        prev = Some(s);
    }
    out
}

#[test]
fn short_search_runs_one_query() {
    assert_eq!(steps("ab", true), vec![SearchStep::Query(Tier::Short), SearchStep::Finish]);
}

#[test]
fn full_search_order() {
    assert_eq!(
        steps("budget cv", false),
        vec![SearchStep::Query(Tier::FullText), SearchStep::Query(Tier::Title), SearchStep::Rank, SearchStep::Finish]
    );
    assert_eq!(
        steps("budget cv", true),
        vec![
            SearchStep::Query(Tier::FullText),
            SearchStep::Query(Tier::Title),
            SearchStep::Rank,
            SearchStep::Query(Tier::Fuzzy),
            SearchStep::Finish
        ]
    );
    // no word of three bytes: no full-text query
    assert_eq!(
        steps("ab cd", true),
        vec![SearchStep::Query(Tier::Title), SearchStep::Rank, SearchStep::Query(Tier::Fuzzy), SearchStep::Finish]
    );
    // no full-text query and an anchor of one byte
    assert_eq!(steps("a b c", false), vec![SearchStep::Rank, SearchStep::Finish]);
}

fn shown(ps: Vec<(&'static str, ParamValue)>) -> Vec<(String, String)> {
    ps.into_iter()
        .map(|(n, v)| {
            let v = match v {
                ParamValue::Text(t) => format!("text:{}", t),
                ParamValue::Time(t) => format!("time:{}", t),
            };
            (n.to_string(), v)
        })
        .collect()
}

#[test]
fn parameters_of_each_tier() {
    let p = plan_search(" Spass-CV xyz ", None).unwrap();
    let pair = |a: &str, b: &str| (a.to_string(), b.to_string());
    assert_eq!(shown(search_params(&p, Tier::Short, 5)), vec![pair(":nq", "text:spass cv xyz"), pair(":now", "time:5")]);
    assert_eq!(
        shown(search_params(&p, Tier::FullText, 5)),
        vec![pair(":fts", "text:\"Spass\" AND \"xyz\""), pair(":nq", "text:spass cv xyz"), pair(":now", "time:5")]
    );
    assert_eq!(
        shown(search_params(&p, Tier::Title, 7)),
        vec![pair(":nq", "text:spass cv xyz"), pair(":anchor", "text:spass"), pair(":now", "time:7")]
    );
    assert_eq!(shown(search_params(&p, Tier::Fuzzy, 7)), vec![pair(":q", "text:Spass-CV xyz")]);
}

#[test]
fn unicode_whitespace_is_trimmed_like_std() {
    for u in 0u32..0x3100 {
        if let Some(c) = char::from_u32(u) {
            let s = format!("{}a{}", c, c);
            match plan_search(&s, None) {
                Some(p) => assert_eq!(p.clean_query, s.trim(), "U+{:04X}", u),
                None => assert!(s.trim().is_empty(), "U+{:04X}", u),
            }
        }
    }
}
