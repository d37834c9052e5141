//! What the clipboard monitor decides: how often it polls, and the index
//! records for a copied file, image or text.
use vstd::prelude::*;
use crate::search::{is_sorted, sort_chars};
use crate::text::{
    byte_len, byte_len_of, chars_of, extend_chars, extend_str, lemma_byte_len_push, lowercase,
    replace_all, replaced, string_of, trim_chars, trimmed, utf8_width, has_substring, occurs_at,
    lemma_replaced_absent, lemma_replaced_leading, lemma_replaced_line_breaks,
};
use crate::watcher::{file_name, title_of};

verus! {

broadcast use vstd::seq_lib::group_seq_properties;

// ---------------------------------------------------------------------------
// Polling
// ---------------------------------------------------------------------------

/// The pause between polls while the clipboard keeps changing, in ms.
pub const FAST_POLL_MS: u64 = 250;

/// The pause between polls once the clipboard has been idle, in ms.
pub const SLOW_POLL_MS: u64 = 2000;

/// Polls without a change after which polling slows down.
pub const IDLE_POLLS_BEFORE_SLOWING: u64 = 240;

/// The polling state of the clipboard monitor.
pub struct ClipboardWatch {
    last_change_count: i64,
    sleep_ms: u64,
    idle_polls: u64,
}

/// The pause that goes with an idle count: fast until more than
/// `IDLE_POLLS_BEFORE_SLOWING` polls have seen no change, slow after.
pub open spec fn pause_for(idle_polls: u64) -> u64 {
    if idle_polls > IDLE_POLLS_BEFORE_SLOWING {
        SLOW_POLL_MS
    } else {
        FAST_POLL_MS
    }
}

/// The idle count after one more poll without a change (it stops at its
/// maximum).
pub open spec fn one_more(idle_polls: u64) -> u64 {
    if idle_polls == u64::MAX {
        u64::MAX
    } else {
        (idle_polls + 1) as u64
    }
}

impl ClipboardWatch {
    /// Every watch's pause follows from its idle count.
    #[verifier::type_invariant]
    spec fn pause_matches_idle(self) -> bool {
        self.sleep_ms == pause_for(self.idle_polls)
    }

    /// The pasteboard change count last seen.
    pub closed spec fn last_seen(self) -> i64 {
        self.last_change_count
    }

    /// The pause before the next poll, in ms.
    pub closed spec fn pause(self) -> u64 {
        self.sleep_ms
    }

    /// Polls since the last change.
    pub closed spec fn idle(self) -> u64 {
        self.idle_polls
    }

    /// Starts watching from the change count `count`, polling fast.
    pub fn new(count: i64) -> (w: Self)
        ensures
            w.last_seen() == count,
            w.idle() == 0,
            w.pause() == FAST_POLL_MS,
    {
        ClipboardWatch { last_change_count: count, sleep_ms: FAST_POLL_MS, idle_polls: 0 }
    }

    /// The pasteboard change count last seen.
    pub fn last_change_count(&self) -> (r: i64)
        ensures
            r == self.last_seen(),
    {
        self.last_change_count
    }

    /// The pause before the next poll, in ms: 250 ms until more than 240
    /// polls in a row have seen no change, then 2 s.
    pub fn sleep_ms(&self) -> (r: u64)
        ensures
            r == self.pause(),
            r == pause_for(self.idle()),
            r <= SLOW_POLL_MS,
    {
        proof {
            use_type_invariant(self);
        }
        self.sleep_ms
    }

    /// Polls since the last change.
    pub fn idle_polls(&self) -> (r: u64)
        ensures
            r == self.idle(),
    {
        self.idle_polls
    }

    /// Records a poll that saw the change count `count`; returns whether the
    /// clipboard changed. A change resets to fast polling and a zero idle
    /// count; otherwise the idle count grows by one and the pause follows
    /// it. In every state the pause is 250 ms until more than 240 polls in a
    /// row have seen no change, then 2 s, so a change is seen within 2 s.
    pub fn observe(&mut self, count: i64) -> (changed: bool)
        ensures
            changed == (count != old(self).last_seen()),
            changed ==> final(self).last_seen() == count && final(self).idle() == 0,
            !changed ==> final(self).last_seen() == old(self).last_seen() && final(self).idle() == one_more(
                old(self).idle(),
            ),
            final(self).pause() == pause_for(final(self).idle()),
            final(self).pause() <= SLOW_POLL_MS,
    {
        if count != self.last_change_count {
            *self = ClipboardWatch { last_change_count: count, sleep_ms: FAST_POLL_MS, idle_polls: 0 };
            true
        } else {
            let idle = if self.idle_polls < u64::MAX {
                self.idle_polls + 1
            } else {
                self.idle_polls
            };
            let sleep = if idle > IDLE_POLLS_BEFORE_SLOWING {
                SLOW_POLL_MS
            } else {
                FAST_POLL_MS
            };
            *self = ClipboardWatch { last_change_count: self.last_change_count, sleep_ms: sleep, idle_polls: idle };
            false
        }
    }
}

// ---------------------------------------------------------------------------
// Copied files
// ---------------------------------------------------------------------------

/// What `urlencoding::decode` returns for a string with the given
/// characters: the percent-decoded text, or `None` when the decoded bytes
/// are not UTF-8.
pub uninterp spec fn url_decoded(s: Seq<char>) -> Option<Seq<char>>;

/// Calls `urlencoding::decode`. Claims that the result (decoded text, or
/// `None` for the error) is a function of the characters of `s`, and, as
/// its source shows, that a text without `%` comes back unchanged. How
/// `%xx` sequences are decoded is left unsaid.
#[verifier::external_body]
fn url_decode(s: &str) -> (r: Option<String>)
    ensures
        match r {
            Some(d) => url_decoded(s@) == Some(d@),
            None => url_decoded(s@) is None,
        },
        !s@.contains('%') ==> opt_chars(r) == Some(s@),
{
    match urlencoding::decode(s) {
        Ok(d) => Some(d.into_owned()),
        Err(_) => None,
    }
}

/// A file URL without its `file://localhost` and `file://` markers.
pub open spec fn url_without_scheme(u: Seq<char>) -> Seq<char> {
    replaced(replaced(u, "file://localhost"@, Seq::empty()), "file://"@, Seq::empty())
}

/// The path named by a copied file URL: the URL without its scheme,
/// percent-decoded, or left undecoded when decoding fails.
pub open spec fn path_of_file_url(u: Seq<char>) -> Seq<char> {
    let clean = url_without_scheme(u);
    match url_decoded(clean) {
        Some(d) => d,
        None => clean,
    }
}

/// Removes the `file://localhost` and `file://` markers from a file URL.
pub fn strip_file_scheme(url: &str) -> (r: Vec<char>)
    ensures
        r@ == url_without_scheme(url@),
{
    let u = chars_of(url);
    let localhost = chars_of("file://localhost");
    let scheme = chars_of("file://");
    let empty: Vec<char> = Vec::new();
    proof {
        reveal_strlit("file://localhost");
        reveal_strlit("file://");
    }
    let a = replace_all(&u, &localhost, &empty);
    replace_all(&a, &scheme, &empty)
}

/// `file://localhost` does not occur in `file://` followed by a path that
/// holds no `file://` and does not begin with `localhost`.
proof fn lemma_no_localhost_marker(p: Seq<char>)
    requires
        !has_substring(p, "file://"@),
        !(p.len() >= 9 && p.take(9) == "localhost"@),
    ensures
        !has_substring("file://"@ + p, "file://localhost"@),
{
    reveal_strlit("file://localhost");
    reveal_strlit("file://");
    reveal_strlit("localhost");
    let fl = "file://localhost"@;
    let f = "file://"@;
    let s = f + p;
    if has_substring(s, fl) {
        let k = choose|k: int| occurs_at(s, fl, k);
        if k == 0 {
            assert(p.take(9) =~= s.subrange(0, 16).subrange(7, 16));
            assert(fl.subrange(7, 16) =~= "localhost"@);
        } else if k < 7 {
            assert(s.subrange(k, k + 16)[0] == s[k]);
            assert(s[k] == f[k]);
        } else {
            assert(p.subrange(k - 7, k) =~= s.subrange(k, k + 16).subrange(0, 7));
            assert(fl.subrange(0, 7) =~= f);
            assert(occurs_at(p, f, k - 7));
        }
    }
}

/// Law: removing the scheme keeps the path. For a path without `file://`
/// in it, `file://localhost` followed by the path gives the path, and so
/// does `file://` followed by the path, unless the path itself begins with
/// `localhost` (then `file://localhost` is found at the start and removed).
pub proof fn law_scheme_removal_keeps_path(p: Seq<char>)
    requires
        !has_substring(p, "file://"@),
    ensures
        url_without_scheme("file://localhost"@ + p) == p,
        !(p.len() >= 9 && p.take(9) == "localhost"@) ==> url_without_scheme("file://"@ + p) == p,
{
    reveal_strlit("file://localhost");
    reveal_strlit("file://");
    let fl = "file://localhost"@;
    let f = "file://"@;
    let e = Seq::<char>::empty();
    assert(!has_substring(p, fl)) by {
        if has_substring(p, fl) {
            let k = choose|k: int| occurs_at(p, fl, k);
            assert(p.subrange(k, k + 7) =~= fl.subrange(0, 7));
            assert(fl.subrange(0, 7) =~= f);
            assert(occurs_at(p, f, k));
        }
    }
    lemma_replaced_leading(fl, p, e);
    lemma_replaced_absent(p, fl, e);
    lemma_replaced_absent(p, f, e);
    assert(e + p =~= p);
    if !(p.len() >= 9 && p.take(9) == "localhost"@) {
        lemma_no_localhost_marker(p);
        lemma_replaced_absent(f + p, fl, e);
        lemma_replaced_leading(f, p, e);
    }
}

/// The path for a URL whose scheme was removed (`clean`), given what
/// decoding it gave (`decoded`): the decoded text, or `clean` itself when
/// decoding failed.
pub fn path_from_decoded(decoded: Option<String>, clean: &Vec<char>) -> (r: String)
    ensures
        r@ == match opt_chars(decoded) {
            Some(d) => d,
            None => clean@,
        },
{
    match decoded {
        Some(d) => d,
        None => string_of(clean),
    }
}

/// The characters of an optional string.
pub open spec fn opt_chars(o: Option<String>) -> Option<Seq<char>> {
    match o {
        Some(s) => Some(s@),
        None => None,
    }
}

/// The path named by a copied file URL.
pub fn file_url_path(url: &str) -> (r: String)
    ensures
        r@ == path_of_file_url(url@),
        !url_without_scheme(url@).contains('%') ==> r@ == url_without_scheme(url@),
{
    let clean = strip_file_scheme(url);
    let cs = string_of(&clean);
    let decoded = url_decode(cs.as_str());
    path_from_decoded(decoded, &clean)
}

/// The fields of an index record made from the clipboard.
pub struct ClipEntry {
    /// The title shown for the entry.
    pub title: String,
    /// The path of the file the entry stands for.
    pub path: String,
    /// The fingerprint of the entry.
    pub fingerprint: String,
}

/// The title of a copied file: a document mark, then `File: ` and its name.
pub open spec fn file_clip_title(name: Seq<char>) -> Seq<char> {
    seq!['\u{1F4C4}'] + " File: "@ + name
}

/// The record for a copied file URL: the decoded path, the title made of
/// its file name, and the fingerprint of that name.
pub fn file_clip_entry(url: &str) -> (r: ClipEntry)
    ensures
        r.path@ == path_of_file_url(url@),
        !url_without_scheme(url@).contains('%') ==> r.path@ == url_without_scheme(url@),
        r.title@ == file_clip_title(title_of(path_of_file_url(url@))),
        is_sorted(r.fingerprint@),
        r.fingerprint@.to_multiset() == lowercase(title_of(path_of_file_url(url@))).to_multiset(),
{
    let path = file_url_path(url);
    let name = match file_name(path.as_str()) {
        Some(n) => n,
        None => String::new(),
    };
    let fingerprint = sort_chars(name.as_str());
    let mut t: Vec<char> = Vec::new();
    t.push('\u{1F4C4}');
    extend_str(&mut t, " File: ");
    extend_str(&mut t, name.as_str());
    assert(t@ =~= file_clip_title(name@));
    ClipEntry { title: string_of(&t), path, fingerprint }
}

// ---------------------------------------------------------------------------
// Names of saved clips
// ---------------------------------------------------------------------------

/// The decimal digit `d`.
pub open spec fn digit_char(d: int) -> char {
    if d == 0 {
        '0'
    } else if d == 1 {
        '1'
    } else if d == 2 {
        '2'
    } else if d == 3 {
        '3'
    } else if d == 4 {
        '4'
    } else if d == 5 {
        '5'
    } else if d == 6 {
        '6'
    } else if d == 7 {
        '7'
    } else if d == 8 {
        '8'
    } else {
        '9'
    }
}

/// The decimal digits of `n`.
pub open spec fn digits(n: nat) -> Seq<char>
    decreases n,
{
    if n < 10 {
        seq![digit_char(n as int)]
    } else {
        digits(n / 10).push(digit_char((n % 10) as int))
    }
}

/// `n` written in decimal, with a leading `-` when negative.
pub open spec fn decimal(n: int) -> Seq<char> {
    if n < 0 {
        seq!['-'] + digits((-n) as nat)
    } else {
        digits(n as nat)
    }
}

/// The decimal digit `d`.
fn digit(d: u64) -> (c: char)
    requires
        d < 10,
    ensures
        c == digit_char(d as int),
{
    match d {
        0 => '0',
        1 => '1',
        2 => '2',
        3 => '3',
        4 => '4',
        5 => '5',
        6 => '6',
        7 => '7',
        8 => '8',
        _ => '9',
    }
}

/// Appends the decimal digits of `n`.
fn push_digits(v: &mut Vec<char>, n: u64)
    ensures
        final(v)@ == old(v)@ + digits(n as nat),
    decreases n,
{
    if n < 10 {
        v.push(digit(n));
        assert(v@ =~= old(v)@ + digits(n as nat));
    } else {
        push_digits(v, n / 10);
        v.push(digit(n % 10));
        assert(v@ =~= old(v)@ + digits(n as nat));
    }
}

/// Appends `n` in decimal.
pub fn push_decimal(v: &mut Vec<char>, n: i64)
    ensures
        final(v)@ == old(v)@ + decimal(n as int),
{
    if n < 0 {
        v.push('-');
        let m: u64 = if n == i64::MIN {
            9223372036854775808u64
        } else {
            (-n) as u64
        };
        push_digits(v, m);
        assert(v@ =~= old(v)@ + decimal(n as int));
    } else {
        push_digits(v, n as u64);
    }
}

/// The name of a clip saved at time `now` with the extension `ext`.
pub open spec fn clip_name(now: i64, ext: Seq<char>) -> Seq<char> {
    "clip_"@ + decimal(now as int) + ext
}

/// The name and path of a clip saved at time `now` with the extension
/// `ext` in the folder `dir`.
pub fn clip_file(dir: &str, now: i64, ext: &str) -> (r: (String, String))
    ensures
        r.0@ == clip_name(now, ext@),
        r.1@ == dir@ + "/"@ + clip_name(now, ext@),
{
    let mut name: Vec<char> = Vec::new();
    extend_str(&mut name, "clip_");
    push_decimal(&mut name, now);
    extend_str(&mut name, ext);
    let mut path: Vec<char> = Vec::new();
    extend_str(&mut path, dir);
    extend_str(&mut path, "/");
    extend_chars(&mut path, &name);
    assert(name@ =~= clip_name(now, ext@));
    assert(path@ =~= dir@ + "/"@ + clip_name(now, ext@));
    (string_of(&name), string_of(&path))
}

/// The record for an image copied at time `now` and saved in `dir`: the
/// file name as title, its path, and no fingerprint.
pub fn image_clip_entry(dir: &str, now: i64) -> (r: ClipEntry)
    ensures
        r.title@ == clip_name(now, ".png"@),
        r.path@ == dir@ + "/"@ + clip_name(now, ".png"@),
        r.fingerprint@.len() == 0,
{
    let (title, path) = clip_file(dir, now, ".png");
    ClipEntry { title, path, fingerprint: String::new() }
}

// ---------------------------------------------------------------------------
// Copied text
// ---------------------------------------------------------------------------

/// The most bytes of copied text that are kept.
pub const MAX_CLIP_TEXT_BYTES: u128 = 52428800;

/// The bytes of copied text shown in a preview.
pub const PREVIEW_BYTES: u128 = 60;

/// `t` has a prefix of exactly `n` bytes (byte `n` starts a character).
pub open spec fn has_byte_prefix(t: Seq<char>, n: nat) -> bool {
    exists|k: int| 0 <= k <= t.len() && byte_len(t.take(k)) == n
}

/// `p` is the prefix of `t` that is `n` bytes long.
pub open spec fn is_byte_prefix(p: Seq<char>, t: Seq<char>, n: nat) -> bool {
    p.len() <= t.len() && p == t.take(p.len() as int) && byte_len(p) == n
}

/// Longer prefixes have more bytes.
proof fn lemma_prefix_bytes_grow(t: Seq<char>, a: int, b: int)
    requires
        0 <= a < b <= t.len(),
    ensures
        byte_len(t.take(a)) < byte_len(t.take(b)),
    decreases b - a,
{
    lemma_byte_len_push(t.take(b - 1), t[b - 1]);
    assert(t.take(b - 1).push(t[b - 1]) =~= t.take(b));
    if a < b - 1 {
        lemma_prefix_bytes_grow(t, a, b - 1);
    }
}

/// The prefix of `t` that is `n` bytes long.
fn byte_prefix(t: &Vec<char>, n: u128) -> (r: Vec<char>)
    requires
        has_byte_prefix(t@, n as nat),
    ensures
        is_byte_prefix(r@, t@, n as nat),
{
    let ghost k0 = choose|k: int| 0 <= k <= t@.len() && byte_len(t@.take(k)) == n;
    let mut r: Vec<char> = Vec::new();
    let mut total: u128 = 0;
    let mut i: usize = 0;
    assert(t@.take(0) =~= Seq::<char>::empty());
    assert(byte_len(Seq::<char>::empty()) == 0) by {
        assert(vstd::utf8::encode_utf8(Seq::<char>::empty()) =~= Seq::<u8>::empty());
    }
    while total < n
        invariant
            0 <= k0 <= t.len(),
            byte_len(t@.take(k0)) == n,
            i <= k0,
            r@ == t@.take(i as int),
            total == byte_len(t@.take(i as int)),
            total <= n,
        decreases k0 - i,
    {
        assert(i < k0);
        let w = utf8_width(t[i]);
        proof {
            lemma_byte_len_push(t@.take(i as int), t@[i as int]);
            assert(t@.take(i as int).push(t@[i as int]) =~= t@.take(i + 1));
            if i + 1 < k0 {
                lemma_prefix_bytes_grow(t@, i + 1, k0);
            }
        }
        r.push(t[i]);
        total = total + w as u128;
        i += 1;
    }
    proof {
        if i < k0 {
            lemma_prefix_bytes_grow(t@, i as int, k0);
        }
    }
    r
}

/// Copied text as kept: cut to its first `MAX_CLIP_TEXT_BYTES` bytes when
/// longer.
pub open spec fn is_capped_text(r: Seq<char>, t: Seq<char>) -> bool {
    if byte_len(t) > MAX_CLIP_TEXT_BYTES {
        is_byte_prefix(r, t, MAX_CLIP_TEXT_BYTES as nat)
    } else {
        r == t
    }
}

/// Cuts copied text to its first `MAX_CLIP_TEXT_BYTES` bytes. The cut must
/// fall between characters (`String::truncate` panics otherwise).
pub fn cap_clip_text(text: &str) -> (r: String)
    requires
        byte_len(text@) > MAX_CLIP_TEXT_BYTES ==> has_byte_prefix(text@, MAX_CLIP_TEXT_BYTES as nat),
    ensures
        is_capped_text(r@, text@),
{
    let t = chars_of(text);
    if byte_len_of(&t) > MAX_CLIP_TEXT_BYTES {
        let p = byte_prefix(&t, MAX_CLIP_TEXT_BYTES);
        string_of(&p)
    } else {
        string_of(&t)
    }
}

/// Whether copied text is indexed: it is not already indexed and it is not
/// blank.
pub fn should_store_text(text: &str, is_dup: bool) -> (r: bool)
    ensures
        r == (!is_dup && trimmed(text@).len() > 0),
{
    if is_dup {
        return false;
    }
    let t = chars_of(text);
    let c = trim_chars(&t);
    c.len() > 0
}

/// The preview of copied text: when longer than `PREVIEW_BYTES` bytes, its
/// first `PREVIEW_BYTES` bytes with line breaks turned into spaces,
/// followed by `...`; otherwise the text itself.
pub open spec fn is_preview(r: Seq<char>, t: Seq<char>) -> bool {
    if byte_len(t) > PREVIEW_BYTES {
        exists|p: Seq<char>|
            is_byte_prefix(p, t, PREVIEW_BYTES as nat) && r == replaced(p, seq!['\n'], seq![' '])
                + "..."@
    } else {
        r == t
    }
}

/// Law: a preview of text over 60 bytes is its first 60 bytes, each line
/// break shown as a space, followed by `...`, and holds no line break; a
/// shorter text is its own preview.
pub proof fn law_preview_shape(r: Seq<char>, t: Seq<char>)
    requires
        is_preview(r, t),
    ensures
        byte_len(t) <= 60 ==> r == t,
        byte_len(t) > 60 ==> exists|p: Seq<char>|
            is_byte_prefix(p, t, 60) && r.len() == p.len() + 3 && (forall|i: int|
                0 <= i < p.len() ==> #[trigger] r[i] == if p[i] == '\n' {
                    ' '
                } else {
                    p[i]
                }) && r.skip(p.len() as int) == "..."@,
        byte_len(t) > 60 ==> forall|i: int| 0 <= i < r.len() ==> #[trigger] r[i] != '\n',
{
    reveal_strlit("...");
    if byte_len(t) > PREVIEW_BYTES {
        let p = choose|p: Seq<char>|
            is_byte_prefix(p, t, PREVIEW_BYTES as nat) && r == replaced(p, seq!['\n'], seq![' ']) + "..."@;
        lemma_replaced_line_breaks(p);
        let m = replaced(p, seq!['\n'], seq![' ']);
        assert(m.len() == p.len());
        assert(r.skip(p.len() as int) =~= "..."@);
        assert forall|i: int| 0 <= i < r.len() implies #[trigger] r[i] != '\n' by {
            if i < p.len() {
                assert(r[i] == m[i]);
            } else {
                assert(r[i] == "..."@[i - p.len()]);
            }
        }
        assert forall|i: int| 0 <= i < p.len() implies #[trigger] r[i] == if p[i] == '\n' {
            ' '
        } else {
            p[i]
        } by {
            assert(r[i] == m[i]);
        }
    }
}

/// The preview of copied text. The cut must fall between characters (the
/// slice panics otherwise).
pub fn clip_preview(text: &str) -> (r: String)
    requires
        byte_len(text@) > PREVIEW_BYTES ==> has_byte_prefix(text@, PREVIEW_BYTES as nat),
    ensures
        is_preview(r@, text@),
        byte_len(text@) > PREVIEW_BYTES ==> forall|i: int| 0 <= i < r@.len() ==> #[trigger] r@[i] != '\n',
        byte_len(text@) <= PREVIEW_BYTES ==> r@ == text@,
{
    proof {
        assert forall|r: Seq<char>| #[trigger] is_preview(r, text@) && byte_len(text@) > PREVIEW_BYTES
            implies forall|i: int| 0 <= i < r.len() ==> #[trigger] r[i] != '\n' by {
            law_preview_shape(r, text@);
        }
    }
    let t = chars_of(text);
    if byte_len_of(&t) > PREVIEW_BYTES {
        let p = byte_prefix(&t, PREVIEW_BYTES);
        let mut nl: Vec<char> = Vec::new();
        nl.push('\n');
        let mut sp: Vec<char> = Vec::new();
        sp.push(' ');
        let mut r = replace_all(&p, &nl, &sp);
        let ghost rp = r@;
        extend_str(&mut r, "...");
        assert(nl@ =~= seq!['\n'] && sp@ =~= seq![' ']);
        assert(r@ == replaced(p@, seq!['\n'], seq![' ']) + "..."@);
        string_of(&r)
    } else {
        string_of(&t)
    }
}

/// The record for copied text kept at time `now` and saved in `dir`: the
/// preview as title, the saved file's path, and the fingerprint of the
/// preview.
pub fn text_clip_entry(text: &str, dir: &str, now: i64) -> (r: ClipEntry)
    requires
        byte_len(text@) > PREVIEW_BYTES ==> has_byte_prefix(text@, PREVIEW_BYTES as nat),
    ensures
        is_preview(r.title@, text@),
        r.path@ == dir@ + "/"@ + clip_name(now, ".txt"@),
        is_sorted(r.fingerprint@),
        r.fingerprint@.to_multiset() == lowercase(r.title@).to_multiset(),
{
    let title = clip_preview(text);
    let fingerprint = sort_chars(title.as_str());
    let (_, path) = clip_file(dir, now, ".txt");
    ClipEntry { title, path, fingerprint }
}

} // verus!
