//! Query processing for search: normalisation, fingerprints, the full-text
//! query, and the two scores that the database computes for each row.
use vstd::prelude::*;
use crate::text::{
    all_ascii, ascii_lowered, byte_len, byte_len_of, is_ascii_char, lemma_byte_len_bounds, lemma_byte_len_push, chars_of, contains, extend_chars, extend_str, has_prefix,
    has_substring, list_contains, lowercase, lowercase_chars, occurs_at, space_separators,
    spaced, is_separator, is_alphanumeric, split_words, starts_with, chars_eq, string_of, to_lowercase, views, words,
    words_scan, Splitter,
};

verus! {

broadcast use vstd::seq_lib::group_seq_properties;

// ---------------------------------------------------------------------------
// Normalisation
// ---------------------------------------------------------------------------

/// Replaces `-` and `_` by spaces, so that `spass-cv`, `spass_cv` and
/// `spass cv` all read the same.
pub fn normalize(s: &str) -> (r: String)
    ensures
        r@ == spaced(s@),
{
    let v = chars_of(s);
    let n = space_separators(&v);
    string_of(&n)
}

/// Law: normalising twice is normalising once.
pub proof fn law_normalize_idempotent(s: Seq<char>)
    ensures
        spaced(spaced(s)) == spaced(s),
{
    assert(spaced(spaced(s)) =~= spaced(s));
}

/// Law: after normalising, no `-` or `_` is left, and the length is kept.
pub proof fn law_normalize_removes_separators(s: Seq<char>)
    ensures
        spaced(s).len() == s.len(),
        forall|i: int| 0 <= i < s.len() ==> !is_separator(#[trigger] spaced(s)[i]),
{
}

/// `c` reads as a space once normalised.
pub open spec fn reads_as_space(c: char) -> bool {
    c == '-' || c == '_' || c == ' '
}

/// Law: texts that differ only in which of `-`, `_` and space they use
/// normalise to the same text (`spass-cv`, `spass_cv` and `spass cv`).
pub proof fn law_separators_read_alike(a: Seq<char>, b: Seq<char>)
    requires
        a.len() == b.len(),
        forall|i: int| 0 <= i < a.len() ==> a[i] == b[i] || (reads_as_space(a[i]) && reads_as_space(b[i])),
    ensures
        spaced(a) == spaced(b),
{
    assert(spaced(a) =~= spaced(b));
}

/// The form in which search compares text: separators spaced, then
/// lowercased.
pub open spec fn search_form(s: Seq<char>) -> Seq<char> {
    lowercase(spaced(s))
}

/// `s` in the form in which search compares text.
pub fn search_form_of(s: &Vec<char>) -> (r: Vec<char>)
    ensures
        r@ == search_form(s@),
        r@.len() == 0 <==> s@.len() == 0,
{
    let n = space_separators(s);
    lowercase_chars(&n)
}

/// An SQL expression that normalises the column `col` in the same way as
/// `normalize` followed by lowercasing.
pub fn sql_norm(col: &str) -> (r: String)
    ensures
        r@ == "replace(replace(lower("@ + col@ + "), '-', ' '), '_', ' ')"@,
{
    let mut v: Vec<char> = Vec::new();
    extend_str(&mut v, "replace(replace(lower(");
    extend_str(&mut v, col);
    extend_str(&mut v, "), '-', ' '), '_', ' ')");
    string_of(&v)
}

// ---------------------------------------------------------------------------
// Fingerprints
// ---------------------------------------------------------------------------

/// The characters of `s` are in ascending order.
pub open spec fn is_sorted(s: Seq<char>) -> bool {
    forall|i: int, j: int| 0 <= i < j < s.len() ==> (s[i] as u32) <= (s[j] as u32)
}

/// Inserts `c` into the sorted `v`, keeping it sorted.
fn insert_sorted(v: &mut Vec<char>, c: char)
    requires
        is_sorted(old(v)@),
    ensures
        is_sorted(final(v)@),
        final(v)@.to_multiset() == old(v)@.to_multiset().insert(c),
{
    let mut i: usize = 0;
    while i < v.len() && (v[i] as u32) <= (c as u32)
        invariant
            i <= v.len(),
            forall|j: int| 0 <= j < i ==> (v@[j] as u32) <= (c as u32),
        decreases v.len() - i,
    {
        i += 1;
    }
    let ghost before = v@;
    assert(i < before.len() ==> (c as u32) < (before[i as int] as u32));
    v.insert(i, c);
    assert(v@ == before.insert(i as int, c));
    assert forall|a: int, b: int| 0 <= a < b < v@.len() implies (v@[a] as u32) <= (v@[b] as u32) by {
        if b < i {
            assert(v@[a] == before[a] && v@[b] == before[b]);
        } else if b == i {
            assert(v@[a] == before[a]);
        } else if a < i {
            assert(v@[a] == before[a] && v@[b] == before[b - 1]);
            assert((before[i as int] as u32) <= (before[b - 1] as u32));
        } else if a == i {
            assert(v@[b] == before[b - 1]);
            assert((before[i as int] as u32) <= (before[b - 1] as u32));
        } else {
            assert(v@[a] == before[a - 1] && v@[b] == before[b - 1]);
        }
    }
}

/// The fingerprint of a name: its characters lowercased and put in
/// ascending order, so that names with the same letters match.
pub fn sort_chars(input: &str) -> (r: String)
    ensures
        is_sorted(r@),
        r@.to_multiset() == lowercase(input@).to_multiset(),
        all_ascii(input@) ==> r@.to_multiset() == ascii_lowered(input@).to_multiset(),
{
    let lower = to_lowercase(input);
    let v = chars_of(lower.as_str());
    let mut out: Vec<char> = Vec::new();
    let mut i: usize = 0;
    while i < v.len()
        invariant
            i <= v.len(),
            v@ == lowercase(input@),
            is_sorted(out@),
            out@.to_multiset() == v@.take(i as int).to_multiset(),
        decreases v.len() - i,
    {
        insert_sorted(&mut out, v[i]);
        assert(v@.take(i + 1) =~= v@.take(i as int).push(v@[i as int]));
        i += 1;
    }
    assert(v@.take(i as int) =~= v@);
    string_of(&out)
}

/// Law: the fingerprint depends only on which letters a name has. If the
/// lowercase forms of two names hold the same characters, however ordered,
/// then their fingerprints (any sorted arrangement of those characters) are
/// equal.
pub proof fn law_fingerprint_ignores_order(a: Seq<char>, b: Seq<char>, fa: Seq<char>, fb: Seq<char>)
    requires
        lowercase(a).to_multiset() == lowercase(b).to_multiset(),
        is_sorted(fa),
        fa.to_multiset() == lowercase(a).to_multiset(),
        is_sorted(fb),
        fb.to_multiset() == lowercase(b).to_multiset(),
    ensures
        fa == fb,
{
    lemma_sorted_unique(fa, fb);
}

/// Law: the fingerprint of an ASCII name's fingerprint is that fingerprint
/// again (`f1` is the fingerprint of `s`, `f2` that of `f1`).
pub proof fn law_fingerprint_is_fixed_point(s: Seq<char>, f1: Seq<char>, f2: Seq<char>)
    requires
        all_ascii(s),
        is_sorted(f1),
        f1.to_multiset() == lowercase(s).to_multiset(),
        all_ascii(s) ==> f1.to_multiset() == ascii_lowered(s).to_multiset(),
        is_sorted(f2),
        f2.to_multiset() == lowercase(f1).to_multiset(),
        all_ascii(f1) ==> f2.to_multiset() == ascii_lowered(f1).to_multiset(),
    ensures
        f2 == f1,
{
    broadcast use vstd::multiset::group_multiset_axioms;

    let ls = ascii_lowered(s);
    assert forall|i: int| 0 <= i < f1.len() implies is_ascii_char(#[trigger] f1[i]) && !(65 <= (
    f1[i] as u32) <= 90) by {
        assert(f1.to_multiset().count(f1[i]) > 0);
        assert(ls.contains(f1[i]));
        let k = choose|k: int| 0 <= k < ls.len() && ls[k] == f1[i];
        assert(is_ascii_char(s[k]));
        let u = s[k] as u32;
        if 65 <= u <= 90 {
            assert(((u + 32) as char) as u32 == u + 32) by {
                vstd::utf8::char_u32_cast((u + 32) as char, ((u + 32) as char) as u32);
            }
        }
    }
    assert(ascii_lowered(f1) =~= f1);
    lemma_sorted_unique(f2, f1);
}

/// Two sorted sequences with the same characters are equal.
pub proof fn lemma_sorted_unique(a: Seq<char>, b: Seq<char>)
    requires
        is_sorted(a),
        is_sorted(b),
        a.to_multiset() == b.to_multiset(),
    ensures
        a == b,
    decreases a.len(),
{
    broadcast use vstd::multiset::group_multiset_axioms;

    assert(a.len() == a.to_multiset().len());
    assert(b.len() == b.to_multiset().len());
    if a.len() == 0 {
        assert(a =~= b);
    } else {
        assert(a.to_multiset().count(a[0]) > 0);
        assert(b.contains(a[0]));
        let k = choose|k: int| 0 <= k < b.len() && b[k] == a[0];
        assert(b[0] as u32 <= a[0] as u32);
        assert(a.to_multiset().count(b[0]) > 0);
        assert(a.contains(b[0]));
        let m = choose|m: int| 0 <= m < a.len() && a[m] == b[0];
        assert(a[0] as u32 <= b[0] as u32);
        assert(a[0] == b[0]) by {
            vstd::utf8::char_u32_cast(a[0], a[0] as u32);
            vstd::utf8::char_u32_cast(b[0], b[0] as u32);
        }
        assert(a.remove(0) =~= a.drop_first());
        assert(b.remove(0) =~= b.drop_first());
        assert(a.drop_first().to_multiset() == a.to_multiset().remove(a[0]));
        assert(b.drop_first().to_multiset() == b.to_multiset().remove(b[0]));
        lemma_sorted_unique(a.drop_first(), b.drop_first());
        assert(a =~= b) by {
            assert forall|i: int| 0 <= i < a.len() implies a[i] == b[i] by {
                if i > 0 {
                    assert(a[i] == a.drop_first()[i - 1]);
                    assert(b[i] == b.drop_first()[i - 1]);
                }
            }
        }
    }
}

// ---------------------------------------------------------------------------
// The full-text query
// ---------------------------------------------------------------------------

/// `w` between double quotes.
pub open spec fn quoted(w: Seq<char>) -> Seq<char> {
    seq!['"'] + w + seq!['"']
}

/// The quoted words of `ws` that are at least three bytes long, in order.
pub open spec fn trigram_terms(ws: Seq<Seq<char>>) -> Seq<Seq<char>>
    decreases ws.len(),
{
    if ws.len() == 0 {
        Seq::empty()
    } else {
        let t = trigram_terms(ws.drop_last());
        if byte_len(ws.last()) >= 3 {
            t.push(quoted(ws.last()))
        } else {
            t
        }
    }
}

/// The elements of `ws` with `sep` between each two neighbours.
pub open spec fn joined(ws: Seq<Seq<char>>, sep: Seq<char>) -> Seq<char>
    decreases ws.len(),
{
    if ws.len() == 0 {
        Seq::empty()
    } else if ws.len() == 1 {
        ws[0]
    } else {
        joined(ws.drop_last(), sep) + sep + ws.last()
    }
}

/// The full-text query for `query`: its separators spaced, split at every
/// character that is not alphanumeric, the pieces of fewer than three bytes
/// dropped, the others quoted and joined by ` AND `.
pub open spec fn trigram_query(query: Seq<char>) -> Seq<char> {
    joined(trigram_terms(words(spaced(query), Splitter::NonAlphanumeric)), " AND "@)
}

/// `w` between double quotes.
fn quote(w: &Vec<char>) -> (r: Vec<char>)
    ensures
        r@ == quoted(w@),
{
    let mut r: Vec<char> = Vec::new();
    r.push('"');
    extend_chars(&mut r, w);
    r.push('"');
    assert(r@ =~= quoted(w@));
    r
}

/// Joins `ws` with `sep` between each two neighbours.
fn join(ws: &Vec<Vec<char>>, sep: &Vec<char>) -> (r: Vec<char>)
    ensures
        r@ == joined(views(ws@), sep@),
{
    let mut r: Vec<char> = Vec::new();
    let mut i: usize = 0;
    while i < ws.len()
        invariant
            i <= ws.len(),
            r@ == joined(views(ws@).take(i as int), sep@),
        decreases ws.len() - i,
    {
        let ghost prefix = views(ws@).take(i + 1);
        assert(prefix.drop_last() =~= views(ws@).take(i as int));
        if i > 0 {
            extend_chars(&mut r, sep);
        } else {
            assert(r@ =~= Seq::<char>::empty());
        }
        extend_chars(&mut r, &ws[i]);
        i += 1;
        assert(r@ =~= joined(views(ws@).take(i as int), sep@));
    }
    assert(views(ws@).take(i as int) =~= views(ws@));
    r
}

/// Builds the trigram full-text query for a search: `"abc" AND "def"`.
pub fn prepare_trigram_query(query: &str) -> (r: String)
    ensures
        r@ == trigram_query(query@),
{
    let q = chars_of(query);
    let norm = space_separators(&q);
    let ws = split_words(&norm, Splitter::NonAlphanumeric);
    let mut terms: Vec<Vec<char>> = Vec::new();
    let mut i: usize = 0;
    while i < ws.len()
        invariant
            i <= ws.len(),
            views(terms@) == trigram_terms(views(ws@).take(i as int)),
        decreases ws.len() - i,
    {
        assert(views(ws@).take(i + 1).drop_last() =~= views(ws@).take(i as int));
        let ghost before = terms@;
        if byte_len_of(&ws[i]) >= 3 {
            let t = quote(&ws[i]);
            terms.push(t);
            assert(views(terms@) =~= views(before).push(t@));
        }
        i += 1;
    }
    assert(views(ws@).take(i as int) =~= views(ws@));
    let sep = chars_of(" AND ");
    let r = join(&terms, &sep);
    string_of(&r)
}

/// Law: the full-text query is empty exactly when no word of the
/// normalised query has three bytes or more (so the full-text tier is
/// skipped only then).
pub proof fn law_trigram_query_empty(q: Seq<char>)
    ensures
        trigram_query(q).len() == 0 <==> forall|i: int|
            0 <= i < words(spaced(q), Splitter::NonAlphanumeric).len() ==> byte_len(
                #[trigger] words(spaced(q), Splitter::NonAlphanumeric)[i],
            ) < 3,
{
    let ws = words(spaced(q), Splitter::NonAlphanumeric);
    lemma_terms_empty(ws);
    lemma_terms_quoted(ws);
    lemma_joined_empty(trigram_terms(ws), " AND "@);
}

/// Law: normalising a query first does not change its full-text query.
pub proof fn law_trigram_query_ignores_normalizing(q: Seq<char>)
    ensures
        trigram_query(spaced(q)) == trigram_query(q),
{
    assert(spaced(spaced(q)) =~= spaced(q));
}

/// Two full-text queries combined: either one when the other is empty,
/// else both joined by ` AND `.
pub open spec fn combined(a: Seq<char>, b: Seq<char>) -> Seq<char> {
    if a.len() == 0 {
        b
    } else if b.len() == 0 {
        a
    } else {
        a + " AND "@ + b
    }
}

/// Law: the full-text query of two texts put together around a character
/// that is neither alphanumeric nor `-`/`_` (such as a space) is the two
/// texts' queries combined.
pub proof fn law_trigram_query_of_concatenation(q1: Seq<char>, c: char, q2: Seq<char>)
    requires
        !is_alphanumeric(c),
        !is_separator(c),
    ensures
        trigram_query(q1 + seq![c] + q2) == combined(trigram_query(q1), trigram_query(q2)),
{
    let sp = Splitter::NonAlphanumeric;
    let a = spaced(q1);
    let b = spaced(q2);
    assert(spaced(q1 + seq![c] + q2) =~= a.push(c) + b);
    lemma_words_around(a, c, b, sp);
    let w1 = words(a, sp);
    let w2 = words(b, sp);
    lemma_terms_add(w1, w2);
    lemma_terms_quoted(w1);
    lemma_terms_quoted(w2);
    lemma_joined_add(trigram_terms(w1), trigram_terms(w2), " AND "@);
    lemma_joined_empty(trigram_terms(w1), " AND "@);
    lemma_joined_empty(trigram_terms(w2), " AND "@);
}

/// The words of two texts put together around a splitting character are
/// the words of each.
pub(crate) proof fn lemma_words_around(a: Seq<char>, c: char, b: Seq<char>, sp: Splitter)
    requires
        sp.splits_at(c),
    ensures
        words(a.push(c) + b, sp) == words(a, sp) + words(b, sp),
{
    let x = a.push(c);
    assert(x.drop_last() =~= a);
    assert(words_scan(x, sp) == (words(a, sp), Seq::<char>::empty()));
    lemma_scan_extend(x, b, sp);
    let (db, cb) = words_scan(b, sp);
    if cb.len() > 0 {
        assert((words(a, sp) + db).push(cb) =~= words(a, sp) + db.push(cb));
    }
}

/// Reading on after a point where no word is being read: the words of the
/// rest are added to those read so far.
proof fn lemma_scan_extend(x: Seq<char>, b: Seq<char>, sp: Splitter)
    requires
        words_scan(x, sp).1.len() == 0,
    ensures
        words_scan(x + b, sp) == (words_scan(x, sp).0 + words_scan(b, sp).0, words_scan(b, sp).1),
    decreases b.len(),
{
    if b.len() == 0 {
        assert(x + b =~= x);
        assert(words_scan(x, sp).0 + Seq::<Seq<char>>::empty() =~= words_scan(x, sp).0);
    } else {
        let p = b.drop_last();
        lemma_scan_extend(x, p, sp);
        assert((x + b).drop_last() =~= x + p);
        assert((x + b).last() == b.last());
        let d = words_scan(x, sp).0;
        let (dp, cp) = words_scan(p, sp);
        assert((d + dp).push(cp) =~= d + dp.push(cp));
    }
}

/// The terms of two lists of words are those of each.
proof fn lemma_terms_add(x: Seq<Seq<char>>, y: Seq<Seq<char>>)
    ensures
        trigram_terms(x + y) == trigram_terms(x) + trigram_terms(y),
    decreases y.len(),
{
    if y.len() == 0 {
        assert(x + y =~= x);
        assert(trigram_terms(x) + trigram_terms(y) =~= trigram_terms(x));
    } else {
        let p = y.drop_last();
        lemma_terms_add(x, p);
        assert((x + y).drop_last() =~= x + p);
        assert((x + y).last() == y.last());
        let tx = trigram_terms(x);
        let tp = trigram_terms(p);
        assert((tx + tp).push(quoted(y.last())) =~= tx + tp.push(quoted(y.last())));
    }
}

/// Joining two lists is joining each and putting the separator between,
/// when both are non-empty.
proof fn lemma_joined_add(x: Seq<Seq<char>>, y: Seq<Seq<char>>, sep: Seq<char>)
    ensures
        joined(x + y, sep) == if x.len() == 0 {
            joined(y, sep)
        } else if y.len() == 0 {
            joined(x, sep)
        } else {
            joined(x, sep) + sep + joined(y, sep)
        },
    decreases y.len(),
{
    if x.len() == 0 {
        assert(x + y =~= y);
    } else if y.len() == 0 {
        assert(x + y =~= x);
    } else if y.len() == 1 {
        assert((x + y).drop_last() =~= x);
        assert((x + y).last() == y[0]);
    } else {
        let p = y.drop_last();
        lemma_joined_add(x, p, sep);
        assert((x + y).drop_last() =~= x + p);
        assert((x + y).last() == y.last());
        assert(joined(x, sep) + sep + joined(p, sep) + sep + y.last() =~= joined(x, sep) + sep + (
        joined(p, sep) + sep + y.last()));
    }
}

/// No term survives exactly when every word is shorter than three bytes.
proof fn lemma_terms_empty(ws: Seq<Seq<char>>)
    ensures
        trigram_terms(ws).len() == 0 <==> forall|i: int| 0 <= i < ws.len() ==> byte_len(#[trigger] ws[i]) < 3,
    decreases ws.len(),
{
    if ws.len() > 0 {
        let p = ws.drop_last();
        lemma_terms_empty(p);
        if trigram_terms(ws).len() == 0 {
            assert forall|i: int| 0 <= i < ws.len() implies byte_len(#[trigger] ws[i]) < 3 by {
                if i < p.len() {
                    assert(p[i] == ws[i]);
                }
            }
        }
        if forall|i: int| 0 <= i < ws.len() ==> byte_len(#[trigger] ws[i]) < 3 {
            assert forall|i: int| 0 <= i < p.len() implies byte_len(#[trigger] p[i]) < 3 by {
                assert(p[i] == ws[i]);
            }
            assert(byte_len(ws[ws.len() - 1]) < 3);
        }
    }
}

/// Every term is a quoted word, so none is empty.
proof fn lemma_terms_quoted(ws: Seq<Seq<char>>)
    ensures
        forall|i: int| 0 <= i < trigram_terms(ws).len() ==> #[trigger] trigram_terms(ws)[i].len() >= 2,
    decreases ws.len(),
{
    if ws.len() > 0 {
        let p = ws.drop_last();
        lemma_terms_quoted(p);
        let t = trigram_terms(p);
        if byte_len(ws.last()) >= 3 {
            assert forall|i: int| 0 <= i < t.push(quoted(ws.last())).len() implies #[trigger] t.push(
                quoted(ws.last()),
            )[i].len() >= 2 by {
                if i < t.len() {
                    assert(t.push(quoted(ws.last()))[i] == t[i]);
                }
            }
        }
    }
}

/// Joining non-empty pieces gives an empty text only for no pieces.
proof fn lemma_joined_empty(ts: Seq<Seq<char>>, sep: Seq<char>)
    requires
        forall|i: int| 0 <= i < ts.len() ==> #[trigger] ts[i].len() >= 2,
    ensures
        joined(ts, sep).len() == 0 <==> ts.len() == 0,
    decreases ts.len(),
{
    if ts.len() > 1 {
        assert(ts[ts.len() - 1].len() >= 2);
    } else if ts.len() == 1 {
        assert(ts[0].len() >= 2);
    }
}

// ---------------------------------------------------------------------------
// The token score
// ---------------------------------------------------------------------------

/// Points for the query words: three for each that is a word of the target,
/// else one for each that occurs inside the target text.
pub open spec fn match_points(qt: Seq<Seq<char>>, tt: Seq<Seq<char>>, tn: Seq<char>) -> nat
    decreases qt.len(),
{
    if qt.len() == 0 {
        0
    } else {
        match_points(qt.drop_last(), tt, tn) + if tt.contains(qt.last()) {
            3nat
        } else if has_substring(tn, qt.last()) {
            1nat
        } else {
            0nat
        }
    }
}

/// Every query word occurs inside the target text.
pub open spec fn all_found(qt: Seq<Seq<char>>, tn: Seq<char>) -> bool {
    forall|i: int| 0 <= i < qt.len() ==> has_substring(tn, #[trigger] qt[i])
}

/// The bonus for how the whole query relates to the whole target: ten when
/// equal, five when the target begins with it, three when it occurs inside.
pub open spec fn exact_bonus(qn: Seq<char>, tn: Seq<char>) -> nat {
    if tn == qn {
        10
    } else if has_prefix(tn, qn) {
        5
    } else if has_substring(tn, qn) {
        3
    } else {
        0
    }
}

/// The token score of `target` for `query`: zero when either is empty;
/// else, over their search forms, the word points, six more when every
/// query word occurs in the target, and the whole-query bonus.
pub open spec fn token_points(query: Seq<char>, target: Seq<char>) -> nat {
    form_points(search_form(query), search_form(target))
}

/// The token score for the search forms `qn` of a query and `tn` of a
/// target (empty search forms come exactly from empty texts).
pub open spec fn form_points(qn: Seq<char>, tn: Seq<char>) -> nat {
    if qn.len() == 0 || tn.len() == 0 {
        0
    } else {
        let qt = words(qn, Splitter::Whitespace);
        let tt = words(tn, Splitter::Whitespace);
        match_points(qt, tt, tn) + (if all_found(qt, tn) {
            6nat
        } else {
            0nat
        }) + exact_bonus(qn, tn)
    }
}

/// The token score that the database function `token_score` returns for a
/// row: how well the title `target` matches the words of `query`.
pub fn token_score(query: &str, target: &str) -> (r: u128)
    ensures
        r == token_points(query@, target@),
{
    let q = chars_of(query);
    let t = chars_of(target);
    let qn = search_form_of(&q);
    let tn = search_form_of(&t);
    if qn.len() == 0 || tn.len() == 0 {
        return 0;
    }
    let qt = split_words(&qn, Splitter::Whitespace);
    let tt = split_words(&tn, Splitter::Whitespace);
    let mut matched: u128 = 0;
    let mut all = true;
    let mut i: usize = 0;
    while i < qt.len()
        invariant
            i <= qt.len(),
            views(qt@) == words(qn@, Splitter::Whitespace),
            views(tt@) == words(tn@, Splitter::Whitespace),
            matched == match_points(views(qt@).take(i as int), views(tt@), tn@),
            matched <= 3 * i,
            all == all_found(views(qt@).take(i as int), tn@),
        decreases qt.len() - i,
    {
        let ghost pre = views(qt@).take(i as int);
        assert(views(qt@).take(i + 1).drop_last() =~= pre);
        assert(views(qt@).take(i + 1).last() == qt@[i as int]@);
        let in_list = list_contains(&tt, &qt[i]);
        assert(in_list == views(tt@).contains(qt@[i as int]@)) by {
            if in_list {
                let k = choose|k: int| 0 <= k < tt@.len() && #[trigger] tt@[k]@ == qt@[i as int]@;
                assert(views(tt@)[k] == qt@[i as int]@);
            }
            if views(tt@).contains(qt@[i as int]@) {
                let k = choose|k: int| 0 <= k < views(tt@).len() && views(tt@)[k] == qt@[i as int]@;
                assert(tt@[k]@ == qt@[i as int]@);
            }
        }
        let found = contains(&tn, &qt[i]);
        if in_list {
            matched = matched + 3;
        } else if found {
            matched = matched + 1;
        }
        assert(all_found(views(qt@).take(i + 1), tn@) == (all_found(pre, tn@) && found)) by {
            if all_found(pre, tn@) && found {
                assert forall|j: int| 0 <= j < i + 1 implies has_substring(
                    tn@,
                    #[trigger] views(qt@).take(i + 1)[j],
                ) by {
                    if j < i {
                        assert(views(qt@).take(i + 1)[j] == pre[j]);
                    }
                }
            }
            if all_found(views(qt@).take(i + 1), tn@) {
                assert forall|j: int| 0 <= j < i implies has_substring(tn@, #[trigger] pre[j]) by {
                    assert(views(qt@).take(i + 1)[j] == pre[j]);
                }
                assert(has_substring(tn@, views(qt@).take(i + 1)[i as int]));
            }
        }
        all = all && found;
        i += 1;
    }
    assert(views(qt@).take(i as int) =~= views(qt@));
    let bonus: u128 = if all { 6 } else { 0 };
    let exact: u128 = if chars_eq(&tn, &qn) {
        10
    } else if starts_with(&tn, &qn) {
        5
    } else if contains(&tn, &qn) {
        3
    } else {
        0
    };
    matched + bonus + exact
}

/// Law: the token score depends only on the search forms (separators
/// spaced, lowercased) of the query and the target, so `spass-cv`,
/// `spass_cv` and `SPASS cv` score alike against any title.
pub proof fn law_token_score_depends_on_search_forms(
    q1: Seq<char>,
    q2: Seq<char>,
    t1: Seq<char>,
    t2: Seq<char>,
)
    requires
        search_form(q1) == search_form(q2),
        search_form(t1) == search_form(t2),
    ensures
        token_points(q1, t1) == token_points(q2, t2),
{
}

/// Law: a title scored against itself earns every bonus: three points per
/// word, six for all words found, ten for the exact match.
pub proof fn law_token_score_of_itself(s: Seq<char>)
    requires
        search_form(s).len() > 0,
    ensures
        token_points(s, s) == 3 * words(search_form(s), Splitter::Whitespace).len() + 16,
{
    let n = search_form(s);
    let ws = words(n, Splitter::Whitespace);
    lemma_words_occur(n, Splitter::Whitespace);
    lemma_match_points_all_listed(ws, ws, n);
}

/// Law: the six-point bonus is earned exactly when every word of the
/// query's search form occurs in the target's search form; one word that
/// does not occur (wherever it stands in the query) withholds it.
pub proof fn law_token_score_all_words_bonus(q: Seq<char>, t: Seq<char>)
    requires
        search_form(q).len() > 0,
        search_form(t).len() > 0,
    ensures
        ({
            let qn = search_form(q);
            let tn = search_form(t);
            let qt = words(qn, Splitter::Whitespace);
            let tt = words(tn, Splitter::Whitespace);
            &&& (exists|i: int| 0 <= i < qt.len() && !has_substring(tn, #[trigger] qt[i]))
                ==> token_points(q, t) == match_points(qt, tt, tn) + exact_bonus(qn, tn)
            &&& (forall|i: int| 0 <= i < qt.len() ==> has_substring(tn, #[trigger] qt[i]))
                ==> token_points(q, t) == match_points(qt, tt, tn) + 6 + exact_bonus(qn, tn)
        }),
{
}

/// Law: a query or a target with an empty search form scores nothing.
pub proof fn law_token_score_empty(q: Seq<char>, t: Seq<char>)
    requires
        search_form(q).len() == 0 || search_form(t).len() == 0,
    ensures
        token_points(q, t) == 0,
{
}

/// Law: word points add up over the query's words: the points of two
/// lists of words together are the points of each.
pub proof fn law_match_points_add(a: Seq<Seq<char>>, b: Seq<Seq<char>>, tt: Seq<Seq<char>>, tn: Seq<char>)
    ensures
        match_points(a + b, tt, tn) == match_points(a, tt, tn) + match_points(b, tt, tn),
    decreases b.len(),
{
    if b.len() == 0 {
        assert(a + b =~= a);
    } else {
        let p = b.drop_last();
        law_match_points_add(a, p, tt, tn);
        assert((a + b).drop_last() =~= a + p);
        assert((a + b).last() == b.last());
    }
}

/// Law: a single query word earns three points when it is a word of the
/// target, else one when it occurs inside the target, else none.
pub proof fn law_match_points_one_word(w: Seq<char>, tt: Seq<Seq<char>>, tn: Seq<char>)
    ensures
        match_points(seq![w], tt, tn) == if tt.contains(w) {
            3nat
        } else if has_substring(tn, w) {
            1nat
        } else {
            0nat
        },
{
    let one = seq![w];
    assert(one.drop_last() =~= Seq::<Seq<char>>::empty());
    assert(one.last() == w);
    assert(match_points(one.drop_last(), tt, tn) == 0);
}

/// Law: the word points are at most three per query word, and exactly
/// three per word when every query word is a word of the target.
pub proof fn law_match_points_bounds(qt: Seq<Seq<char>>, tt: Seq<Seq<char>>, tn: Seq<char>)
    ensures
        match_points(qt, tt, tn) <= 3 * qt.len(),
        (forall|i: int| 0 <= i < qt.len() ==> tt.contains(#[trigger] qt[i])) ==> match_points(qt, tt, tn)
            == 3 * qt.len(),
        (forall|i: int| 0 <= i < qt.len() ==> !tt.contains(#[trigger] qt[i]) && !has_substring(tn, qt[i]))
            ==> match_points(qt, tt, tn) == 0,
    decreases qt.len(),
{
    if qt.len() > 0 {
        let p = qt.drop_last();
        law_match_points_bounds(p, tt, tn);
        assert forall|i: int| 0 <= i < p.len() implies p[i] == qt[i] by {}
        if forall|i: int| 0 <= i < qt.len() ==> tt.contains(#[trigger] qt[i]) {
            lemma_match_points_all_listed(qt, tt, tn);
        }
        if forall|i: int| 0 <= i < qt.len() ==> !tt.contains(#[trigger] qt[i]) && !has_substring(tn, qt[i]) {
            assert forall|i: int| 0 <= i < p.len() implies !tt.contains(#[trigger] p[i]) && !has_substring(tn, p[i]) by {
                assert(p[i] == qt[i]);
            }
            assert(!tt.contains(qt[qt.len() - 1]) && !has_substring(tn, qt[qt.len() - 1]));
        }
    }
}

/// Law: the whole-query bonus is ten for equal texts, five when the target
/// only begins with the query, three when the query only occurs later in
/// it, and none when it does not occur.
pub proof fn law_exact_bonus(qn: Seq<char>, tn: Seq<char>)
    ensures
        exact_bonus(qn, qn) == 10,
        tn != qn && has_prefix(tn, qn) ==> exact_bonus(qn, tn) == 5,
        tn != qn && !has_prefix(tn, qn) && has_substring(tn, qn) ==> exact_bonus(qn, tn) == 3,
        !has_substring(tn, qn) ==> exact_bonus(qn, tn) == 0,
{
    if !has_substring(tn, qn) {
        assert(!has_prefix(tn, qn)) by {
            if has_prefix(tn, qn) {
                assert(occurs_at(tn, qn, 0));
            }
        }
        if tn == qn {
            assert(tn.subrange(0, qn.len() as int) =~= qn);
            assert(occurs_at(tn, qn, 0));
        }
    }
}

/// Every word of `s` occurs in `s`.
pub proof fn lemma_words_occur(s: Seq<char>, sp: Splitter)
    ensures
        all_found(words(s, sp), s),
{
    lemma_scan_occurs(s, sp);
    let (done, cur) = words_scan(s, sp);
    if cur.len() > 0 {
        assert(occurs_at(s, cur, s.len() - cur.len()));
        assert forall|i: int| 0 <= i < done.push(cur).len() implies has_substring(
            s,
            #[trigger] done.push(cur)[i],
        ) by {
            if i < done.len() {
                assert(done.push(cur)[i] == done[i]);
            } else {
                assert(done.push(cur)[i] == cur);
            }
        }
    }
}

/// What occurs in a text occurs in that text with one more character.
proof fn lemma_substring_of_longer(p: Seq<char>, c: char, w: Seq<char>)
    requires
        has_substring(p, w),
    ensures
        has_substring(p.push(c), w),
{
    let k = choose|k: int| occurs_at(p, w, k);
    assert(p.push(c).subrange(k, k + w.len()) =~= p.subrange(k, k + w.len()));
    assert(occurs_at(p.push(c), w, k));
}

/// Reading `s` from the left, every completed word occurs in `s` and the
/// word being read is a suffix of `s`.
#[verifier::spinoff_prover]
proof fn lemma_scan_occurs(s: Seq<char>, sp: Splitter)
    ensures
        ({
            let (done, cur) = words_scan(s, sp);
            &&& cur.len() <= s.len()
            &&& occurs_at(s, cur, s.len() - cur.len())
            &&& all_found(done, s)
        }),
    decreases s.len(),
{
    if s.len() == 0 {
        let (done, cur) = words_scan(s, sp);
        assert(s.subrange(0, 0) =~= cur);
    } else {
        let p = s.drop_last();
        let c = s.last();
        lemma_scan_occurs(p, sp);
        let (done, cur) = words_scan(p, sp);
        assert forall|w: Seq<char>| has_substring(p, w) implies has_substring(s, w) by {
            lemma_substring_of_longer(p, c, w);
            assert(p.push(c) =~= s);
        }
        assert(has_substring(p, cur));
        if sp.splits_at(c) {
            let (d2, c2) = words_scan(s, sp);
            assert(s.subrange(s.len() as int, s.len() as int) =~= c2);
            if cur.len() > 0 {
                assert forall|i: int| 0 <= i < done.push(cur).len() implies has_substring(
                    s,
                    #[trigger] done.push(cur)[i],
                ) by {
                    if i < done.len() {
                        assert(done.push(cur)[i] == done[i]);
                        assert(has_substring(p, done[i]));
                    } else {
                        assert(done.push(cur)[i] == cur);
                    }
                }
            } else {
                assert forall|i: int| 0 <= i < done.len() implies has_substring(
                    s,
                    #[trigger] done[i],
                ) by {
                    assert(has_substring(p, done[i]));
                }
            }
        } else {
            let (d2, c2) = words_scan(s, sp);
            assert(c2 == cur.push(c));
            assert(s.subrange(s.len() - c2.len(), s.len() as int) =~= c2) by {
                assert(p.subrange(p.len() - cur.len(), p.len() as int) == cur);
            }
            assert forall|i: int| 0 <= i < done.len() implies has_substring(s, #[trigger] done[i]) by {
                assert(has_substring(p, done[i]));
            }
        }
    }
}

/// When every query word is a word of the target, each earns three points.
proof fn lemma_match_points_all_listed(qt: Seq<Seq<char>>, tt: Seq<Seq<char>>, tn: Seq<char>)
    requires
        forall|i: int| 0 <= i < qt.len() ==> tt.contains(#[trigger] qt[i]),
    ensures
        match_points(qt, tt, tn) == 3 * qt.len(),
    decreases qt.len(),
{
    if qt.len() > 0 {
        let p = qt.drop_last();
        assert forall|i: int| 0 <= i < p.len() implies tt.contains(#[trigger] p[i]) by {
            assert(p[i] == qt[i]);
        }
        lemma_match_points_all_listed(p, tt, tn);
        assert(tt.contains(qt[qt.len() - 1]));
    }
}

// ---------------------------------------------------------------------------
// The fuzzy score
// ---------------------------------------------------------------------------

/// What `strsim::damerau_levenshtein` returns for two strings with the given
/// characters: their Damerau-Levenshtein edit distance.
pub uninterp spec fn damerau_levenshtein_distance(a: Seq<char>, b: Seq<char>) -> usize;

/// Calls `strsim::damerau_levenshtein`. Claims that the result is a
/// function of the two strings' characters, and, as for every edit
/// distance, that it is zero exactly for equal strings and at most the
/// longer string's number of characters (replace each character of the
/// shorter, insert the rest). Its other values are not stated.
#[verifier::external_body]
fn damerau_levenshtein(a: &str, b: &str) -> (d: usize)
    ensures
        d == damerau_levenshtein_distance(a@, b@),
        d == 0 <==> a@ == b@,
        d <= larger(a@.len(), b@.len()),
{
    strsim::damerau_levenshtein(a, b)
}

/// The larger of two numbers.
pub open spec fn larger(a: nat, b: nat) -> nat {
    if a >= b {
        a
    } else {
        b
    }
}

/// The parts of the fuzzy score, given the edit distance between the
/// lowercased query and target: `None` for an empty target (score 0),
/// else the distance and the larger byte length of the two, the score
/// being `1 - distance / length`.
pub fn fuzzy_parts_from_distance(distance: usize, query: &str, target: &str) -> (r: Option<(usize, usize)>)
    requires
        byte_len(query@) <= usize::MAX,
        byte_len(target@) <= usize::MAX,
    ensures
        target@.len() == 0 ==> r is None,
        target@.len() > 0 ==> r == Some((distance, larger(byte_len(query@), byte_len(target@)) as usize)),
        r matches Some((_, m)) ==> m > 0,
{
    if target.is_empty() {
        return None;
    }
    let ql = query.len();
    let tl = target.len();
    proof {
        lemma_byte_len_bounds(target@);
    }
    Some((distance, if ql >= tl { ql } else { tl }))
}

/// An ASCII text has one byte per character.
pub proof fn lemma_ascii_byte_len(s: Seq<char>)
    requires
        all_ascii(s),
    ensures
        byte_len(s) == s.len(),
    decreases s.len(),
{
    if s.len() == 0 {
        assert(vstd::utf8::encode_utf8(s) =~= Seq::<u8>::empty());
    } else {
        let p = s.drop_last();
        assert(all_ascii(p)) by {
            assert forall|i: int| 0 <= i < p.len() implies is_ascii_char(#[trigger] p[i]) by {
                assert(p[i] == s[i]);
            }
        }
        lemma_ascii_byte_len(p);
        lemma_byte_len_push(p, s.last());
        assert(p.push(s.last()) =~= s);
        assert(is_ascii_char(s[s.len() - 1]));
    }
}

/// The parts of the fuzzy score that the database function `fuzzy_score`
/// returns for a row: `None` when the title is empty (score 0), else the
/// edit distance between the lowercased query and title and the larger of
/// their byte lengths, the score being `1 - distance / length`. The
/// distance is zero (score 1) exactly when the lowercased texts are equal;
/// for ASCII texts it is at most the length (score between 0 and 1).
pub fn fuzzy_score_parts(query: &str, target: &str) -> (r: Option<(usize, usize)>)
    requires
        byte_len(query@) <= usize::MAX,
        byte_len(target@) <= usize::MAX,
    ensures
        target@.len() == 0 ==> r is None,
        target@.len() > 0 ==> r == Some((
            damerau_levenshtein_distance(lowercase(query@), lowercase(target@)),
            larger(byte_len(query@), byte_len(target@)) as usize,
        )),
        r matches Some((_, m)) ==> m > 0,
        r matches Some((d, _)) ==> (d == 0 <==> lowercase(query@) == lowercase(target@)),
        r matches Some((d, _)) ==> d <= larger(lowercase(query@).len(), lowercase(target@).len()),
        all_ascii(query@) && all_ascii(target@) ==> (r matches Some((d, m)) ==> d <= m),
{
    if target.is_empty() {
        return None;
    }
    proof {
        if all_ascii(query@) && all_ascii(target@) {
            lemma_ascii_byte_len(query@);
            lemma_ascii_byte_len(target@);
        }
    }
    let ql = to_lowercase(query);
    let tl = to_lowercase(target);
    let d = damerau_levenshtein(ql.as_str(), tl.as_str());
    fuzzy_parts_from_distance(d, query, target)
}

} // verus!
