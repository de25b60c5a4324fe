//! Folder resolution by bracketed identifier and classification of a book
//! folder's files into metadata, cover image and ordered audio.
use vstd::prelude::*;
use crate::text::{contains, contains_seq, ends_with, ends_with_seq, less_than, lex_lt};
use crate::text::{lemma_lex_lt_irreflexive, lemma_lex_lt_total, lemma_lex_lt_transitive};

verus! {

/// What a directory entry is.
#[derive(Clone, Copy, Debug, PartialEq, Eq, Structural)]
pub enum EntryKind {
    File,
    Directory,
    Other,
}

/// One immediate entry of a directory listing.
#[derive(Clone, Debug)]
pub struct DirEntry {
    pub name: String,
    pub kind: EntryKind,
}

/// A failure of feed synthesis for one request.
#[derive(Clone, Copy, Debug, PartialEq, Eq, Structural)]
pub enum FeedError {
    /// No folder carries the requested bracketed identifier.
    NotFound,
    /// The matched folder holds no `.jpg` file.
    MissingImage,
    /// The current date cannot be written as a feed date.
    DateOutOfRange,
}

/// The classified files of one book folder.
#[derive(Clone, Debug)]
pub struct FolderContents {
    pub metadata: Option<String>,
    pub image: String,
    pub audio: Vec<String>,
}

/// `"[" + id + "]"`.
pub open spec fn folder_tag(id: Seq<char>) -> Seq<char> {
    seq!['['] + id + seq![']']
}

/// The entry is a directory whose name holds the bracketed identifier.
pub open spec fn folder_matches(e: DirEntry, id: Seq<char>) -> bool {
    e.kind == EntryKind::Directory && contains_seq(e.name@, folder_tag(id))
}

pub open spec fn is_file_with_suffix(e: DirEntry, suffix: Seq<char>) -> bool {
    e.kind == EntryKind::File && ends_with_seq(e.name@, suffix)
}

pub open spec fn mp3_suffix() -> Seq<char> {
    seq!['.', 'm', 'p', '3']
}

pub open spec fn jpg_suffix() -> Seq<char> {
    seq!['.', 'j', 'p', 'g']
}

pub open spec fn json_suffix() -> Seq<char> {
    seq!['.', 'j', 's', 'o', 'n']
}

/// Name of the last regular file in the listing that ends with `suffix`.
pub open spec fn last_with_suffix(entries: Seq<DirEntry>, suffix: Seq<char>) -> Option<Seq<char>>
    decreases entries.len(),
{
    if entries.len() == 0 {
        None
    } else if is_file_with_suffix(entries.last(), suffix) {
        Some(entries.last().name@)
    } else {
        last_with_suffix(entries.drop_last(), suffix)
    }
}

/// `n` is the name of a regular `.mp3` file of the listing.
pub open spec fn is_audio_name(entries: Seq<DirEntry>, n: Seq<char>) -> bool {
    exists|k: int| 0 <= k < entries.len() && is_file_with_suffix(entries[k], mp3_suffix()) && entries[k].name@ == n
}

pub open spec fn strictly_sorted(s: Seq<Seq<char>>) -> bool {
    forall|i: int, j: int| 0 <= i < j < s.len() ==> lex_lt(s[i], s[j])
}

pub open spec fn names(v: Seq<String>) -> Seq<Seq<char>> {
    Seq::new(v.len(), |i: int| v[i]@)
}

/// `a` is the listing's audio names in ascending order.
pub open spec fn sorted_audio_of(entries: Seq<DirEntry>, a: Seq<Seq<char>>) -> bool {
    &&& strictly_sorted(a)
    &&& forall|n: Seq<char>| a.contains(n) <==> is_audio_name(entries, n)
}

/// Names in a listing are unique.
pub open spec fn distinct_names(entries: Seq<DirEntry>) -> bool {
    forall|i: int, j: int| 0 <= i < j < entries.len() ==> entries[i].name@ != entries[j].name@
}

/// The index of the first directory whose name contains `"[" + book_id + "]"`.
pub fn find_folder(entries: &Vec<DirEntry>, book_id: &str) -> (r: Option<usize>)
    ensures
        match r {
            Some(k) => k < entries@.len() && folder_matches(entries@[k as int], book_id@)
                && forall|j: int| 0 <= j < k ==> !folder_matches(entries@[j], book_id@),
            None => forall|j: int| 0 <= j < entries@.len() ==> !folder_matches(entries@[j], book_id@),
        },
{
    let mut tag = crate::text::owned("[");
    crate::text::push_all(&mut tag, book_id);
    crate::text::push_all(&mut tag, "]");
    proof {
        reveal_strlit("[");
        reveal_strlit("]");
        assert(tag@ =~= folder_tag(book_id@));
    }
    let mut i: usize = 0;
    while i < entries.len()
        invariant
            i <= entries@.len(),
            tag@ == folder_tag(book_id@),
            forall|j: int| 0 <= j < i ==> !folder_matches(entries@[j], book_id@),
        decreases entries@.len() - i,
    {
        let e = &entries[i];
        if e.kind == EntryKind::Directory && contains(e.name.as_str(), tag.as_str()) {
            return Some(i);
        }
        i = i + 1;
    }
    None
}

/// Resolves the book folder's name: the first directory of the listing whose
/// name contains `"[" + book_id + "]"`, or `NotFound` when none does.
pub fn resolve_folder(entries: &Vec<DirEntry>, book_id: &str) -> (r: Result<String, FeedError>)
    ensures
        match r {
            Ok(name) => exists|k: int| 0 <= k < entries@.len() && folder_matches(entries@[k], book_id@)
                && name@ == entries@[k].name@
                && forall|j: int| 0 <= j < k ==> !folder_matches(entries@[j], book_id@),
            Err(e) => e == FeedError::NotFound
                && forall|j: int| 0 <= j < entries@.len() ==> !folder_matches(entries@[j], book_id@),
        },
{
    match find_folder(entries, book_id) {
        Some(k) => Ok(entries[k].name.clone()),
        None => Err(FeedError::NotFound),
    }
}

/// When exactly one directory carries the bracketed identifier, resolution
/// names that directory, whatever else the listing holds.
pub proof fn unique_folder_is_resolved(entries: Seq<DirEntry>, id: Seq<char>, k: int, name: Seq<char>)
    requires
        0 <= k < entries.len(),
        folder_matches(entries[k], id),
        forall|j: int| 0 <= j < entries.len() && j != k ==> !folder_matches(entries[j], id),
        exists|m: int| 0 <= m < entries.len() && folder_matches(entries[m], id) && name == entries[m].name@,
    ensures
        name == entries[k].name@,
{
}

/// Inserts `x`, absent from `v`, into the strictly ascending `v`.
fn insert_sorted(v: &mut Vec<String>, x: String)
    requires
        strictly_sorted(names(old(v)@)),
        !names(old(v)@).contains(x@),
    ensures
        strictly_sorted(names(final(v)@)),
        forall|n: Seq<char>| names(final(v)@).contains(n) <==> (names(old(v)@).contains(n) || n == x@),
{
    let mut pos: usize = 0;
    while pos < v.len() && !less_than(x.as_str(), v[pos].as_str())
        invariant
            pos <= v@.len(),
            v@ == old(v)@,
            !names(old(v)@).contains(x@),
            forall|j: int| 0 <= j < pos ==> lex_lt(v@[j]@, x@),
        decreases v@.len() - pos,
    {
        proof {
            assert(names(v@)[pos as int] == v@[pos as int]@);
            if v@[pos as int]@ == x@ {
                assert(names(v@).contains(x@));
            }
            lemma_lex_lt_total(x@, v@[pos as int]@);
        }
        pos = pos + 1;
    }
    let ghost before = names(v@);
    v.insert(pos, x);
    proof {
        let after = names(v@);
        assert(after =~= before.insert(pos as int, x@));
        assert forall|i: int, j: int| 0 <= i < j < after.len() implies lex_lt(after[i], after[j]) by {
            if j < pos {
            } else if j == pos {
            } else if i < pos {
                if pos < j - 1 {
                    lemma_lex_lt_transitive(x@, before[pos as int], before[j - 1]);
                }
                lemma_lex_lt_transitive(after[i], x@, after[j]);
            } else if i == pos {
                if pos < j - 1 {
                    lemma_lex_lt_transitive(x@, before[pos as int], before[j - 1]);
                }
            } else {
            }
        }
        assert forall|n: Seq<char>| after.contains(n) <==> (before.contains(n) || n == x@) by {
            if after.contains(n) {
                let k = choose|k: int| 0 <= k < after.len() && after[k] == n;
                if k < pos {
                    assert(before[k] == n);
                } else if k > pos {
                    assert(before[k - 1] == n);
                }
            }
            if before.contains(n) {
                let k = choose|k: int| 0 <= k < before.len() && before[k] == n;
                if k < pos {
                    assert(after[k] == n);
                } else {
                    assert(after[k + 1] == n);
                }
            }
            if n == x@ {
                assert(after[pos as int] == n);
            }
        }
    }
}

/// Classifies the regular files of a book folder's listing. Audio files
/// (`.mp3`) come out in ascending code-point order; the cover image (`.jpg`)
/// and metadata file (`.json`) are the last such file of the listing.
/// Suffixes are compared exactly, case-sensitively. A folder without any
/// `.jpg` file is `MissingImage`.
pub fn scan_folder(entries: &Vec<DirEntry>) -> (r: Result<FolderContents, FeedError>)
    requires
        distinct_names(entries@),
    ensures
        match r {
            Ok(c) => last_with_suffix(entries@, jpg_suffix()) == Some(c.image@)
                && match c.metadata {
                    Some(m) => last_with_suffix(entries@, json_suffix()) == Some(m@),
                    None => last_with_suffix(entries@, json_suffix()) == None::<Seq<char>>,
                }
                && sorted_audio_of(entries@, names(c.audio@)),
            Err(e) => e == FeedError::MissingImage
                && last_with_suffix(entries@, jpg_suffix()) == None::<Seq<char>>,
        },
{
    let mut metadata: Option<String> = None;
    let mut image: Option<String> = None;
    let mut audio: Vec<String> = Vec::new();
    proof {
        reveal_strlit(".mp3");
        reveal_strlit(".jpg");
        reveal_strlit(".json");
        assert(".mp3"@ =~= mp3_suffix());
        assert(".jpg"@ =~= jpg_suffix());
        assert(".json"@ =~= json_suffix());
    }
    let mut i: usize = 0;
    while i < entries.len()
        invariant
            i <= entries@.len(),
            distinct_names(entries@),
            ".mp3"@ == mp3_suffix(),
            ".jpg"@ == jpg_suffix(),
            ".json"@ == json_suffix(),
            match image {
                Some(s) => last_with_suffix(entries@.subrange(0, i as int), jpg_suffix()) == Some(s@),
                None => last_with_suffix(entries@.subrange(0, i as int), jpg_suffix()) == None::<Seq<char>>,
            },
            match metadata {
                Some(s) => last_with_suffix(entries@.subrange(0, i as int), json_suffix()) == Some(s@),
                None => last_with_suffix(entries@.subrange(0, i as int), json_suffix()) == None::<Seq<char>>,
            },
            sorted_audio_of(entries@.subrange(0, i as int), names(audio@)),
        decreases entries@.len() - i,
    {
        let ghost pre = entries@.subrange(0, i as int);
        let ghost post = entries@.subrange(0, i + 1);
        assert(post.drop_last() =~= pre);
        assert(post.last() == entries@[i as int]);
        let e = &entries[i];
        if e.kind == EntryKind::File {
            let name = e.name.as_str();
            if ends_with(name, ".json") {
                metadata = Some(e.name.clone());
            } else if ends_with(name, ".jpg") {
                image = Some(e.name.clone());
            } else if ends_with(name, ".mp3") {
                proof {
                    if names(audio@).contains(e.name@) {
                        let k = choose|k: int| 0 <= k < pre.len() && is_file_with_suffix(pre[k], mp3_suffix()) && pre[k].name@ == e.name@;
                        assert(entries@[k] == pre[k]);
                    }
                }
                insert_sorted(&mut audio, e.name.clone());
            }
        }
        proof {
            assert forall|n: Seq<char>| is_audio_name(post, n) <==> (is_audio_name(pre, n)
                || (is_file_with_suffix(entries@[i as int], mp3_suffix()) && n == entries@[i as int].name@)) by {
                if is_audio_name(post, n) {
                    let k = choose|k: int| 0 <= k < post.len() && is_file_with_suffix(post[k], mp3_suffix()) && post[k].name@ == n;
                    if k < i {
                        assert(pre[k] == post[k]);
                    }
                }
                if is_audio_name(pre, n) {
                    let k = choose|k: int| 0 <= k < pre.len() && is_file_with_suffix(pre[k], mp3_suffix()) && pre[k].name@ == n;
                    assert(pre[k] == post[k]);
                }
                if is_file_with_suffix(entries@[i as int], mp3_suffix()) && n == entries@[i as int].name@ {
                    assert(post[i as int] == entries@[i as int]);
                }
            }
        }
        i = i + 1;
    }
    assert(entries@.subrange(0, i as int) =~= entries@);
    match image {
        Some(image) => Ok(FolderContents { metadata, image, audio }),
        None => Err(FeedError::MissingImage),
    }
}

/// Audio ordering depends only on which audio files a folder holds: any two
/// ascending orderings of the same set of names are the same sequence,
/// whatever order the listings enumerated them in.
pub proof fn audio_order_is_canonical(e1: Seq<DirEntry>, e2: Seq<DirEntry>, a1: Seq<Seq<char>>, a2: Seq<Seq<char>>)
    requires
        forall|n: Seq<char>| is_audio_name(e1, n) <==> is_audio_name(e2, n),
        sorted_audio_of(e1, a1),
        sorted_audio_of(e2, a2),
    ensures
        a1 == a2,
{
    lemma_sorted_same_members(a1, a2);
}

proof fn lemma_sorted_same_members(a: Seq<Seq<char>>, b: Seq<Seq<char>>)
    requires
        strictly_sorted(a),
        strictly_sorted(b),
        forall|n: Seq<char>| a.contains(n) <==> b.contains(n),
    ensures
        a == b,
    decreases a.len(),
{
    if a.len() == 0 {
        if b.len() > 0 {
            assert(b.contains(b[0]));
        }
        assert(a =~= b);
    } else if b.len() == 0 {
        assert(a.contains(a[0]));
    } else {
        assert(a.contains(a[0]));
        assert(b.contains(b[0]));
        let ka = choose|k: int| 0 <= k < a.len() && a[k] == b[0];
        let kb = choose|k: int| 0 <= k < b.len() && b[k] == a[0];
        if a[0] != b[0] {
            assert(ka > 0 && kb > 0);
            lemma_lex_lt_transitive(a[0], a[ka], a[0]);
            lemma_lex_lt_irreflexive(a[0]);
        }
        let ra = a.drop_first();
        let rb = b.drop_first();
        assert forall|n: Seq<char>| ra.contains(n) <==> rb.contains(n) by {
            if ra.contains(n) {
                let k = choose|k: int| 0 <= k < ra.len() && ra[k] == n;
                assert(a[k + 1] == n);
                assert(a.contains(n));
                let j = choose|j: int| 0 <= j < b.len() && b[j] == n;
                if j == 0 {
                    lemma_lex_lt_irreflexive(a[0]);
                }
                assert(rb[j - 1] == n);
            }
            if rb.contains(n) {
                let k = choose|k: int| 0 <= k < rb.len() && rb[k] == n;
                assert(b[k + 1] == n);
                assert(b.contains(n));
                let j = choose|j: int| 0 <= j < a.len() && a[j] == n;
                if j == 0 {
                    lemma_lex_lt_irreflexive(b[0]);
                }
                assert(ra[j - 1] == n);
            }
        }
        lemma_sorted_same_members(ra, rb);
        assert(a =~= seq![a[0]] + ra);
        assert(b =~= seq![b[0]] + rb);
    }
}

} // verus!
