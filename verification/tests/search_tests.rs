use qfinder::search::{
    fuzzy_parts_from_distance, fuzzy_score_parts, normalize, prepare_trigram_query, sort_chars,
    sql_norm, token_score,
};

#[test]
fn normalize_turns_separators_into_spaces() {
    assert_eq!(normalize("spass-cv"), "spass cv");
    assert_eq!(normalize("spass_cv"), "spass cv");
    assert_eq!(normalize("spass cv"), "spass cv");
    assert_eq!(normalize("a--b__c"), "a  b  c");
    assert_eq!(normalize(""), "");
}

#[test]
fn normalize_is_idempotent() {
    for s in ["x-y_z", "--", "plain", "é-ü"] {
        assert_eq!(normalize(&normalize(s)), normalize(s));
    }
}

#[test]
fn sort_chars_lowercases_and_sorts() {
    assert_eq!(sort_chars("Hello"), "ehllo");
    assert_eq!(sort_chars("CBA"), "abc");
    assert_eq!(sort_chars(""), "");
    assert_eq!(sort_chars("b.a"), ".ab");
}

#[test]
fn sort_chars_matches_anagrams() {
    assert_eq!(sort_chars("Listen"), sort_chars("Silent"));
    assert_eq!(sort_chars("spass_xyz.pdf"), sort_chars("pdf.xyz_spass"));
    assert_ne!(sort_chars("abc"), sort_chars("abd"));
}

#[test]
fn sort_chars_agrees_with_std_sorting() {
    for s in ["Zebra Ärger", "ÉCOLE école", "qfinder-2024.PDF", "日本語テキスト"] {
        let mut v: Vec<char> = s.to_lowercase().chars().collect();
        v.sort_unstable();
        let expected: String = v.into_iter().collect();
        assert_eq!(sort_chars(s), expected);
    }
}

#[test]
fn sql_norm_wraps_the_column() {
    assert_eq!(
        sql_norm("title"),
        "replace(replace(lower(title), '-', ' '), '_', ' ')"
    );
}

#[test]
fn trigram_query_quotes_long_words() {
    assert_eq!(
        prepare_trigram_query("spass xyz.pdf"),
        "\"spass\" AND \"xyz\" AND \"pdf\""
    );
    assert_eq!(prepare_trigram_query("spass-cv report"), "\"spass\" AND \"report\"");
}

#[test]
fn trigram_query_is_empty_without_long_words() {
    assert_eq!(prepare_trigram_query("cv ab"), "");
    assert_eq!(prepare_trigram_query(""), "");
    assert_eq!(prepare_trigram_query("a.b.c"), "");
}

#[test]
fn trigram_query_counts_bytes_not_characters() {
    // "éé" has two characters but four bytes.
    assert_eq!(prepare_trigram_query("éé x"), "\"éé\"");
}

#[test]
fn trigram_query_agrees_with_std_splitting() {
    for q in ["über-straße 12", "a,,bcd;;efgh", "foo_bar-baz qux", "   ", "x1y2z3"] {
        let norm: String = q.chars().map(|c| if c == '-' || c == '_' { ' ' } else { c }).collect();
        let tokens: Vec<String> = norm
            .split(|c: char| !c.is_alphanumeric())
            .filter(|s| s.len() >= 3)
            .map(|s| format!("\"{}\"", s))
            .collect();
        assert_eq!(prepare_trigram_query(q), tokens.join(" AND "));
    }
}

#[test]
fn token_score_is_zero_for_empty_input() {
    assert_eq!(token_score("", "anything"), 0);
    assert_eq!(token_score("abc", ""), 0);
}

#[test]
fn token_score_exact_match() {
    // two words of three points, six for all found, ten for equality
    assert_eq!(token_score("spass cv", "spass_cv"), 22);
    assert_eq!(token_score("Hello World", "Hello World"), 22);
    assert_eq!(token_score("one", "ONE"), 19);
}

#[test]
fn token_score_partial_matches() {
    // "doc" is inside "my documents" (1), all found (6), inside (3)
    assert_eq!(token_score("doc", "My Documents"), 10);
    // both words are words of the target (6), all found (6), prefix (5)
    assert_eq!(token_score("report 2024", "report_2024_final"), 17);
    // nothing found
    assert_eq!(token_score("zzz", "abc"), 0);
    // one of two words found inside: 1, not all, no whole match
    assert_eq!(token_score("abc xyz", "abcdef"), 1);
}

#[test]
fn token_score_of_blank_query_counts_no_words() {
    // no words, so every word is found (6); "   " occurs in neither target
    assert_eq!(token_score("   ", "abc"), 6);
}

#[test]
fn token_score_ignores_separators() {
    assert_eq!(token_score("a-b", "x_a b"), token_score("a b", "x a-b"));
}

#[test]
fn fuzzy_parts_of_empty_target() {
    assert_eq!(fuzzy_score_parts("abc", ""), None);
    assert_eq!(fuzzy_parts_from_distance(4, "abc", ""), None);
}

#[test]
fn fuzzy_parts_use_edit_distance_and_byte_length() {
    assert_eq!(fuzzy_score_parts("kitten", "sitting"), Some((3, 7)));
    assert_eq!(fuzzy_score_parts("ABC", "abc"), Some((0, 3)));
    assert_eq!(fuzzy_score_parts("ab", "ba"), Some((1, 2)));
    assert_eq!(fuzzy_score_parts("é", "e"), Some((1, 2)));
    assert_eq!(fuzzy_parts_from_distance(5, "abcd", "xy"), Some((5, 4)));
}

#[test]
fn broken_name_query_still_scores_the_file() {
    // "spas xyz.pdf" against the file "spass_m4 _sr_xyz.pdf": "spas" occurs
    // inside (1), "xyz.pdf" is a word (3), all found (6).
    assert_eq!(token_score("spas xyz.pdf", "spass_m4 _sr_xyz.pdf"), 10);
    assert_eq!(prepare_trigram_query("spas xyz.pdf"), "\"spas\" AND \"xyz\" AND \"pdf\"");
}

#[test]
fn fuzzy_distance_is_zero_exactly_for_equal_lowercase_texts() {
    assert_eq!(fuzzy_score_parts("Budget", "bUDGET"), Some((0, 6)));
    let (d, m) = fuzzy_score_parts("budget", "budgets").unwrap();
    assert!(d > 0 && d <= m);
}

#[test]
fn fingerprint_is_a_fixed_point_for_ascii() {
    for s in ["Hello World", "spass_m4 _sr_xyz.pdf", "ZYX"] {
        assert_eq!(sort_chars(&sort_chars(s)), sort_chars(s));
    }
}

#[test]
fn trigram_query_of_concatenation() {
    let (a, b) = ("spass-cv", "xyz.pdf report");
    let (pa, pb) = (prepare_trigram_query(a), prepare_trigram_query(b));
    assert_eq!(prepare_trigram_query(&format!("{} {}", a, b)), format!("{} AND {}", pa, pb));
    assert_eq!(prepare_trigram_query(&format!("{} {}", "cv", b)), pb);
    assert_eq!(prepare_trigram_query(&normalize("a-bcd_efg")), prepare_trigram_query("a-bcd_efg"));
}

#[test]
fn token_score_depends_on_search_forms() {
    for t in ["spass cv final", "SPASS-CV", "x"] {
        assert_eq!(token_score("spass-cv", t), token_score("SPASS cv", t));
        assert_eq!(token_score("spass_cv", t), token_score("spass cv", t));
    }
}

#[test]
fn token_score_splits_at_unicode_whitespace() {
    // the ideographic space separates words like a space does
    assert_eq!(token_score("spass\u{3000}cv", "spass cv"), 12);
    assert_eq!(token_score("spass\u{00A0}cv", "spass\u{00A0}cv"), 22);
}
