//! What the file indexer decides for each path it sees: whether to skip
//! it, its file name, its kind, and the record that goes into the index.
use vstd::prelude::*;
use crate::search::{is_sorted, lemma_words_around, sort_chars};
use crate::text::{
    all_ascii, ascii_lowered, chars_eq, chars_of, contains_str, ends_with, has_substring,
    has_suffix, lowercase, lowercase_chars, split_words, string_of, views, words, words_scan,
    Splitter,
};

verus! {

broadcast use vstd::seq_lib::group_seq_properties;

// ---------------------------------------------------------------------------
// Paths
// ---------------------------------------------------------------------------

/// The last component among `ps` that is not `.`.
pub open spec fn last_component(ps: Seq<Seq<char>>) -> Option<Seq<char>>
    decreases ps.len(),
{
    if ps.len() == 0 {
        None
    } else if ps.last() == seq!['.'] {
        last_component(ps.drop_last())
    } else {
        Some(ps.last())
    }
}

/// The file name of a `/`-separated path, as `Path::file_name` gives it:
/// the last component (empty components and `.` do not count), unless
/// there is none or it is `..`.
pub open spec fn file_name_of(p: Seq<char>) -> Option<Seq<char>> {
    match last_component(words(p, Splitter::Slash)) {
        Some(c) => if c == seq!['.', '.'] {
            None
        } else {
            Some(c)
        },
        None => None,
    }
}

/// The position of the last `.` in `f`, or -1.
pub open spec fn last_dot(f: Seq<char>) -> int
    decreases f.len(),
{
    if f.len() == 0 {
        -1
    } else if f.last() == '.' {
        f.len() - 1
    } else {
        last_dot(f.drop_last())
    }
}

/// The extension of a file name, as `Path::extension` gives it: what
/// follows the last `.`, unless there is no `.` or the only one starts the
/// name.
pub open spec fn extension_of(f: Seq<char>) -> Option<Seq<char>> {
    let k = last_dot(f);
    if k <= 0 {
        None
    } else {
        Some(f.skip(k + 1))
    }
}

/// The extension of the path `p`, or the empty text when it has none.
pub open spec fn extension_or_empty(p: Seq<char>) -> Seq<char> {
    match file_name_of(p) {
        Some(f) => match extension_of(f) {
            Some(e) => e,
            None => Seq::empty(),
        },
        None => Seq::empty(),
    }
}

/// A text without a splitting character is read as one word in progress.
proof fn lemma_scan_unsplit(s: Seq<char>, sp: Splitter)
    requires
        forall|i: int| 0 <= i < s.len() ==> !sp.splits_at(#[trigger] s[i]),
    ensures
        words_scan(s, sp) == (Seq::<Seq<char>>::empty(), s),
    decreases s.len(),
{
    if s.len() > 0 {
        let p = s.drop_last();
        assert forall|i: int| 0 <= i < p.len() implies !sp.splits_at(#[trigger] p[i]) by {
            assert(p[i] == s[i]);
        }
        lemma_scan_unsplit(p, sp);
        assert(!sp.splits_at(s[s.len() - 1]));
        assert(p.push(s.last()) =~= s);
    }
}

/// Law: the file name of a path is its last component: a directory, a
/// `/`, then a name that holds no `/` and is neither `.` nor `..` give
/// that name.
pub proof fn law_file_name_is_last_component(dir: Seq<char>, name: Seq<char>)
    requires
        name.len() > 0,
        !name.contains('/'),
        name != seq!['.'],
        name != seq!['.', '.'],
    ensures
        file_name_of(dir.push('/') + name) == Some(name),
{
    assert forall|i: int| 0 <= i < name.len() implies !Splitter::Slash.splits_at(#[trigger] name[i]) by {
        if name[i] == '/' {
            assert(name.contains('/'));
        }
    }
    lemma_scan_unsplit(name, Splitter::Slash);
    assert(words(name, Splitter::Slash) =~= seq![name]) by {
        assert(Seq::<Seq<char>>::empty().push(name) =~= seq![name]);
    }
    lemma_words_around(dir, '/', name, Splitter::Slash);
    let ws = words(dir, Splitter::Slash) + seq![name];
    assert(ws.last() == name);
}

/// A tail without `.` does not move the last `.`.
proof fn lemma_last_dot_append(x: Seq<char>, e: Seq<char>)
    requires
        !e.contains('.'),
    ensures
        last_dot(x + e) == last_dot(x),
    decreases e.len(),
{
    if e.len() == 0 {
        assert(x + e =~= x);
    } else {
        let p = e.drop_last();
        assert(!p.contains('.')) by {
            if p.contains('.') {
                let i = choose|i: int| 0 <= i < p.len() && p[i] == '.';
                assert(e[i] == '.');
            }
        }
        lemma_last_dot_append(x, p);
        assert((x + e).drop_last() =~= x + p);
        assert((x + e).last() == e[e.len() - 1]);
        if e[e.len() - 1] == '.' {
            assert(e.contains('.'));
        }
    }
}

/// Law: the extension of a file name is what follows its last `.`: a
/// non-empty stem (dots in it or not), a `.`, and a tail without `.` give
/// that tail; a name that only begins with the `.` has no extension.
pub proof fn law_extension_after_last_dot(stem: Seq<char>, ext: Seq<char>)
    requires
        !ext.contains('.'),
    ensures
        stem.len() > 0 ==> extension_of(stem.push('.') + ext) == Some(ext),
        stem.len() == 0 ==> extension_of(stem.push('.') + ext) is None,
{
    let x = stem.push('.');
    assert(last_dot(x) == stem.len());
    lemma_last_dot_append(x, ext);
    assert((x + ext).skip(stem.len() as int + 1) =~= ext);
}

/// Law: the extension of a path is what follows the last `.` of its file
/// name: a directory, a `/`, a non-empty stem and a non-empty tail without
/// `.`, joined by a `.`, give that tail.
pub proof fn law_extension_of_path(dir: Seq<char>, stem: Seq<char>, ext: Seq<char>)
    requires
        stem.len() > 0,
        ext.len() > 0,
        !stem.contains('/'),
        !ext.contains('/'),
        !ext.contains('.'),
    ensures
        extension_or_empty(dir.push('/') + (stem.push('.') + ext)) == ext,
{
    let name = stem.push('.') + ext;
    assert(!name.contains('/')) by {
        if name.contains('/') {
            let i = choose|i: int| 0 <= i < name.len() && name[i] == '/';
            if i < stem.len() {
                assert(stem[i] == '/');
                assert(stem.contains('/'));
            } else if i > stem.len() {
                assert(ext[i - stem.len() - 1] == '/');
                assert(ext.contains('/'));
            }
        }
    }
    assert(name.len() >= 3);
    law_file_name_is_last_component(dir, name);
    law_extension_after_last_dot(stem, ext);
}

/// The file name of the path `p`.
pub fn file_name(p: &str) -> (r: Option<String>)
    ensures
        opt_string_view(r) == file_name_of(p@),
{
    let v = chars_of(p);
    let ps = split_words(&v, Splitter::Slash);
    let dot = chars_of(".");
    let dotdot = chars_of("..");
    proof {
        reveal_strlit(".");
        reveal_strlit("..");
        assert(dot@ =~= seq!['.']);
        assert(dotdot@ =~= seq!['.', '.']);
    }
    let mut n: usize = ps.len();
    while n > 0 && chars_eq(&ps[n - 1], &dot)
        invariant
            n <= ps.len(),
            dot@ == seq!['.'],
            last_component(views(ps@)) == last_component(views(ps@).take(n as int)),
        decreases n,
    {
        assert(views(ps@).take(n as int).drop_last() =~= views(ps@).take(n - 1));
        n -= 1;
    }
    if n == 0 {
        assert(views(ps@).take(0) =~= Seq::<Seq<char>>::empty());
        return None;
    }
    assert(views(ps@).take(n as int).last() == ps@[n - 1]@);
    if chars_eq(&ps[n - 1], &dotdot) {
        None
    } else {
        Some(string_of(&ps[n - 1]))
    }
}

/// The characters of an optional string.
pub open spec fn opt_string_view(o: Option<String>) -> Option<Seq<char>> {
    match o {
        Some(s) => Some(s@),
        None => None,
    }
}

/// The extension of the file name `f`.
fn extension(f: &Vec<char>) -> (r: Option<Vec<char>>)
    ensures
        match r {
            Some(e) => extension_of(f@) == Some(e@),
            None => extension_of(f@) is None,
        },
{
    let mut k: usize = f.len();
    while k > 0 && f[k - 1] != '.'
        invariant
            k <= f.len(),
            last_dot(f@) == last_dot(f@.take(k as int)),
        decreases k,
    {
        assert(f@.take(k as int).drop_last() =~= f@.take(k - 1));
        k -= 1;
    }
    if k <= 1 {
        assert(k == 0 ==> f@.take(0) =~= Seq::<char>::empty());
        return None;
    }
    let mut e: Vec<char> = Vec::new();
    let mut i: usize = k;
    while i < f.len()
        invariant
            k <= i <= f.len(),
            e@ == f@.subrange(k as int, i as int),
        decreases f.len() - i,
    {
        e.push(f[i]);
        i += 1;
        assert(f@.subrange(k as int, i as int) =~= f@.subrange(k as int, i - 1).push(f@[i - 1]));
    }
    assert(f@.subrange(k as int, f.len() as int) =~= f@.skip(k as int));
    Some(e)
}

// ---------------------------------------------------------------------------
// Kinds of files
// ---------------------------------------------------------------------------

/// The kind of file for a lowercased extension.
pub open spec fn kind_for(ext: Seq<char>) -> Seq<char> {
    if ext == "png"@ || ext == "jpg"@ || ext == "jpeg"@ || ext == "gif"@ || ext == "heic"@
        || ext == "webp"@ {
        "image"@
    } else if ext == "mp4"@ || ext == "mov"@ || ext == "mkv"@ || ext == "avi"@ {
        "video"@
    } else if ext == "pdf"@ {
        "pdf"@
    } else if ext == "md"@ || ext == "txt"@ || ext == "rtf"@ {
        "note"@
    } else {
        "file"@
    }
}

/// Law: every extension of the table has its kind: png, jpg, jpeg, gif,
/// heic and webp are images; mp4, mov, mkv and avi are videos; pdf is pdf;
/// md, txt and rtf are notes; any other extension is a plain file.
pub proof fn law_kind_table(ext: Seq<char>)
    ensures
        kind_for("png"@) == "image"@,
        kind_for("jpg"@) == "image"@,
        kind_for("jpeg"@) == "image"@,
        kind_for("gif"@) == "image"@,
        kind_for("heic"@) == "image"@,
        kind_for("webp"@) == "image"@,
        kind_for("mp4"@) == "video"@,
        kind_for("mov"@) == "video"@,
        kind_for("mkv"@) == "video"@,
        kind_for("avi"@) == "video"@,
        kind_for("pdf"@) == "pdf"@,
        kind_for("md"@) == "note"@,
        kind_for("txt"@) == "note"@,
        kind_for("rtf"@) == "note"@,
        ext != "png"@ && ext != "jpg"@ && ext != "jpeg"@ && ext != "gif"@ && ext != "heic"@ && ext != "webp"@ && ext != "mp4"@ && ext != "mov"@ && ext != "mkv"@ && ext != "avi"@ && ext != "pdf"@ && ext != "md"@ && ext != "txt"@ && ext != "rtf"@ ==> kind_for(ext) == "file"@,
{
    reveal_strlit("png");
    reveal_strlit("jpg");
    reveal_strlit("jpeg");
    reveal_strlit("gif");
    reveal_strlit("heic");
    reveal_strlit("webp");
    reveal_strlit("mp4");
    reveal_strlit("mov");
    reveal_strlit("mkv");
    reveal_strlit("avi");
    reveal_strlit("pdf");
    reveal_strlit("md");
    reveal_strlit("txt");
    reveal_strlit("rtf");
    assert("jpg"@[0] != "png"@[0]);
    assert("jpeg"@.len() != "png"@.len());
    assert("jpeg"@.len() != "jpg"@.len());
    assert("gif"@[0] != "png"@[0]);
    assert("gif"@[0] != "jpg"@[0]);
    assert("gif"@.len() != "jpeg"@.len());
    assert("heic"@.len() != "png"@.len());
    assert("heic"@.len() != "jpg"@.len());
    assert("heic"@[0] != "jpeg"@[0]);
    assert("heic"@.len() != "gif"@.len());
    assert("webp"@.len() != "png"@.len());
    assert("webp"@.len() != "jpg"@.len());
    assert("webp"@[0] != "jpeg"@[0]);
    assert("webp"@.len() != "gif"@.len());
    assert("webp"@[0] != "heic"@[0]);
    assert("mp4"@[0] != "png"@[0]);
    assert("mp4"@[0] != "jpg"@[0]);
    assert("mp4"@.len() != "jpeg"@.len());
    assert("mp4"@[0] != "gif"@[0]);
    assert("mp4"@.len() != "heic"@.len());
    assert("mp4"@.len() != "webp"@.len());
    assert("mov"@[0] != "png"@[0]);
    assert("mov"@[0] != "jpg"@[0]);
    assert("mov"@.len() != "jpeg"@.len());
    assert("mov"@[0] != "gif"@[0]);
    assert("mov"@.len() != "heic"@.len());
    assert("mov"@.len() != "webp"@.len());
    assert("mov"@[1] != "mp4"@[1]);
    assert("mkv"@[0] != "png"@[0]);
    assert("mkv"@[0] != "jpg"@[0]);
    assert("mkv"@.len() != "jpeg"@.len());
    assert("mkv"@[0] != "gif"@[0]);
    assert("mkv"@.len() != "heic"@.len());
    assert("mkv"@.len() != "webp"@.len());
    assert("mkv"@[1] != "mp4"@[1]);
    assert("mkv"@[1] != "mov"@[1]);
    assert("avi"@[0] != "png"@[0]);
    assert("avi"@[0] != "jpg"@[0]);
    assert("avi"@.len() != "jpeg"@.len());
    assert("avi"@[0] != "gif"@[0]);
    assert("avi"@.len() != "heic"@.len());
    assert("avi"@.len() != "webp"@.len());
    assert("avi"@[0] != "mp4"@[0]);
    assert("avi"@[0] != "mov"@[0]);
    assert("avi"@[0] != "mkv"@[0]);
    assert("pdf"@[1] != "png"@[1]);
    assert("pdf"@[0] != "jpg"@[0]);
    assert("pdf"@.len() != "jpeg"@.len());
    assert("pdf"@[0] != "gif"@[0]);
    assert("pdf"@.len() != "heic"@.len());
    assert("pdf"@.len() != "webp"@.len());
    assert("pdf"@[0] != "mp4"@[0]);
    assert("pdf"@[0] != "mov"@[0]);
    assert("pdf"@[0] != "mkv"@[0]);
    assert("pdf"@[0] != "avi"@[0]);
    assert("md"@.len() != "png"@.len());
    assert("md"@.len() != "jpg"@.len());
    assert("md"@.len() != "jpeg"@.len());
    assert("md"@.len() != "gif"@.len());
    assert("md"@.len() != "heic"@.len());
    assert("md"@.len() != "webp"@.len());
    assert("md"@.len() != "mp4"@.len());
    assert("md"@.len() != "mov"@.len());
    assert("md"@.len() != "mkv"@.len());
    assert("md"@.len() != "avi"@.len());
    assert("md"@.len() != "pdf"@.len());
    assert("txt"@[0] != "png"@[0]);
    assert("txt"@[0] != "jpg"@[0]);
    assert("txt"@.len() != "jpeg"@.len());
    assert("txt"@[0] != "gif"@[0]);
    assert("txt"@.len() != "heic"@.len());
    assert("txt"@.len() != "webp"@.len());
    assert("txt"@[0] != "mp4"@[0]);
    assert("txt"@[0] != "mov"@[0]);
    assert("txt"@[0] != "mkv"@[0]);
    assert("txt"@[0] != "avi"@[0]);
    assert("txt"@[0] != "pdf"@[0]);
    assert("txt"@.len() != "md"@.len());
    assert("rtf"@[0] != "png"@[0]);
    assert("rtf"@[0] != "jpg"@[0]);
    assert("rtf"@.len() != "jpeg"@.len());
    assert("rtf"@[0] != "gif"@[0]);
    assert("rtf"@.len() != "heic"@.len());
    assert("rtf"@.len() != "webp"@.len());
    assert("rtf"@[0] != "mp4"@[0]);
    assert("rtf"@[0] != "mov"@[0]);
    assert("rtf"@[0] != "mkv"@[0]);
    assert("rtf"@[0] != "avi"@[0]);
    assert("rtf"@[0] != "pdf"@[0]);
    assert("rtf"@.len() != "md"@.len());
    assert("rtf"@[0] != "txt"@[0]);
}

/// Whether `v` is one of the literals in `lits`.
fn is_one_of(v: &Vec<char>, lits: &[&str]) -> (r: bool)
    ensures
        r == exists|i: int| 0 <= i < lits@.len() && v@ == (#[trigger] lits@[i])@,
{
    let mut i: usize = 0;
    while i < lits.len()
        invariant
            i <= lits@.len(),
            forall|j: int| 0 <= j < i ==> v@ != (#[trigger] lits@[j])@,
        decreases lits@.len() - i,
    {
        let l = chars_of(lits[i]);
        if chars_eq(v, &l) {
            return true;
        }
        i += 1;
    }
    false
}

/// The kind of file for the lowercased extension `ext`.
fn kind_of(ext: &Vec<char>) -> (r: &'static str)
    ensures
        r@ == kind_for(ext@),
{
    let images = ["png", "jpg", "jpeg", "gif", "heic", "webp"];
    let videos = ["mp4", "mov", "mkv", "avi"];
    let pdf = ["pdf"];
    let notes = ["md", "txt", "rtf"];
    if is_one_of(ext, &images) {
        "image"
    } else if is_one_of(ext, &videos) {
        "video"
    } else if is_one_of(ext, &pdf) {
        "pdf"
    } else if is_one_of(ext, &notes) {
        "note"
    } else {
        "file"
    }
}

/// The kind of file at `path`, from its lowercased extension: `image`,
/// `video`, `pdf`, `note` or `file`.
pub fn get_smart_file_type(path: &str) -> (r: &'static str)
    ensures
        r@ == kind_for(lowercase(extension_or_empty(path@))),
        all_ascii(extension_or_empty(path@)) ==> r@ == kind_for(ascii_lowered(extension_or_empty(path@))),
{
    let name = file_name(path);
    let ext: Vec<char> = match name {
        Some(f) => {
            let fv = chars_of(f.as_str());
            match extension(&fv) {
                Some(e) => e,
                None => Vec::new(),
            }
        },
        None => Vec::new(),
    };
    let lower = lowercase_chars(&ext);
    kind_of(&lower)
}

// ---------------------------------------------------------------------------
// Indexing decisions
// ---------------------------------------------------------------------------

/// Paths inside version-control data or dependency folders, and Finder
/// metadata files, are not indexed.
pub open spec fn ignored(p: Seq<char>) -> bool {
    has_substring(p, ".git/"@) || has_substring(p, "node_modules/"@) || has_substring(p, ".DS_Store"@)
}

/// Whether the indexer skips `path`.
pub fn is_ignored_path(path: &str) -> (r: bool)
    ensures
        r == ignored(path@),
{
    let v = chars_of(path);
    contains_str(&v, ".git/") || contains_str(&v, "node_modules/") || contains_str(&v, ".DS_Store")
}

/// Whether the watcher stores the text of the file at `path` (Markdown
/// notes, by their `.md` ending).
pub fn wants_content(path: &str) -> (r: bool)
    ensures
        r == has_suffix(path@, ".md"@),
{
    let v = chars_of(path);
    let md = chars_of(".md");
    ends_with(&v, &md)
}

/// The fields of the index record of a file.
pub struct IndexEntry {
    /// The kind of file.
    pub item_type: &'static str,
    /// The file name, or empty when the path has none.
    pub title: String,
    /// The fingerprint of the file name.
    pub fingerprint: String,
}

/// The file name of `p`, or the empty text when it has none.
pub open spec fn title_of(p: Seq<char>) -> Seq<char> {
    match file_name_of(p) {
        Some(f) => f,
        None => Seq::empty(),
    }
}

/// The index record for the file at `path`: its kind, its file name as
/// title, and the fingerprint of that name.
pub fn index_entry(path: &str) -> (r: IndexEntry)
    ensures
        r.item_type@ == kind_for(lowercase(extension_or_empty(path@))),
        all_ascii(extension_or_empty(path@)) ==> r.item_type@ == kind_for(
            ascii_lowered(extension_or_empty(path@)),
        ),
        r.title@ == title_of(path@),
        is_sorted(r.fingerprint@),
        r.fingerprint@.to_multiset() == lowercase(title_of(path@)).to_multiset(),
{
    let title = match file_name(path) {
        Some(f) => f,
        None => String::new(),
    };
    let fingerprint = sort_chars(title.as_str());
    IndexEntry { item_type: get_smart_file_type(path), title, fingerprint }
}

} // verus!
