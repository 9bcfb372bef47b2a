use vstd::prelude::*;

use crate::paths::{file_name, file_name_of, parent, parent_of};
use crate::places::{home_dir, path_under_home, under_home, view_opt_bytes, view_result_path};
use crate::keyed::{moved, without_prefix, KeyedMap};
use crate::text::{chars_of, hex_digits, hex_prefix, string_from_chars};

verus! {

// ── Content hashes ──────────────────────────────────────────────

/// The hash that `std`'s `DefaultHasher`, as `DefaultHasher::new` makes it,
/// gives for the text.
pub uninterp spec fn default_str_hash(s: Seq<char>) -> u64;

/// Calls `BuildHasher::hash_one` on the `BuildHasherDefault` of
/// `DefaultHasher` (a `DefaultHasher::new()` that hashes the `str` and
/// finishes). Claims that the result is the named hash of the text:
/// `DefaultHasher::new` starts from fixed keys, so with one build of `std`
/// the same text always hashes the same.
#[verifier::external_body]
fn default_hash(content: &str) -> (res: u64)
    ensures
        res == default_str_hash(content@),
{
    std::hash::BuildHasher::hash_one(
        &std::hash::BuildHasherDefault::<std::collections::hash_map::DefaultHasher>::default(),
        content,
    )
}

/// The hash of a note's content that tells whether it must be embedded
/// again: 16 lowercase hexadecimal digits.
pub fn content_hash(content: &str) -> (res: String)
    ensures
        res@ == hex_digits(default_str_hash(content@), 16),
{
    let h = default_hash(content);
    let digits = hex_prefix(h, 16);
    string_from_chars(digits.as_slice())
}

/// Where the index is saved: `.stik/embeddings.json` in the home directory.
pub open spec fn embeddings_path_of(home: Option<Seq<u8>>) -> Result<Seq<u8>, Seq<char>> {
    under_home(home, seq![".stik"@, "embeddings.json"@])
}

/// The index file for the given home directory.
pub fn embeddings_path_from(home: Option<Vec<u8>>) -> (res: Result<Vec<u8>, String>)
    ensures
        view_result_path(res) == embeddings_path_of(view_opt_bytes(home)),
{
    path_under_home(home, ".stik", "embeddings.json")
}

/// The index file for the user's home directory.
pub fn embeddings_path() -> (res: Result<Vec<u8>, String>)
    ensures
        exists|home: Option<Seq<u8>>| view_result_path(res) == embeddings_path_of(home),
{
    embeddings_path_from(home_dir())
}

/// How many notes are embedded between two saves of the index.
pub const SAVE_BATCH: u64 = 50;

/// Whether the index is saved after this many notes were processed.
pub fn is_batch_boundary(processed: u64) -> (res: bool)
    ensures
        res == (processed % SAVE_BATCH == 0),
{
    processed % SAVE_BATCH == 0
}

/// How far the background build got: the notes it tried to embed, and how
/// many of those it embedded.
pub struct BuildProgress {
    pub processed: u64,
    pub embedded: u64,
}

/// The progress after one more attempt to embed a note, and whether the
/// index is saved now (after every batch of attempts).
pub fn after_embed_attempt(p: BuildProgress, embedded: bool) -> (res: (BuildProgress, bool))
    requires
        p.processed < u64::MAX,
        embedded ==> p.embedded < u64::MAX,
    ensures
        res.0.processed == p.processed + 1,
        res.0.embedded == p.embedded + if embedded { 1int } else { 0int },
        res.1 == ((p.processed + 1) % (SAVE_BATCH as int) == 0),
{
    let processed = p.processed + 1;
    let count = if embedded { p.embedded + 1 } else { p.embedded };
    (BuildProgress { processed, embedded: count }, is_batch_boundary(processed))
}

/// Whether the index is saved once more at the end of the build: when
/// anything was embedded.
pub fn final_save_needed(p: &BuildProgress) -> (res: bool)
    ensures
        res == (p.embedded > 0),
{
    p.embedded > 0
}

/// The language of a note, as the language detection reported it, or `en`.
pub fn detected_language(reported: Option<String>) -> (res: String)
    ensures
        reported matches Some(l) ==> res == l,
        reported is None ==> res@ == "en"@,
{
    match reported {
        Some(l) => l,
        None => String::from_str("en"),
    }
}

// ── The index ───────────────────────────────────────────────────

/// The embedding of a note: its vector, the hash of the content it was made
/// from, and the language of that content (vectors of different languages
/// cannot be compared).
pub struct NoteEmbedding<T> {
    pub vector: T,
    pub content_hash: String,
    pub language: String,
}

/// The notes' embeddings, by the path of the note.
pub struct EmbeddingIndex<T> {
    entries: KeyedMap<NoteEmbedding<T>>,
}

impl<T> View for EmbeddingIndex<T> {
    type V = Map<Seq<char>, NoteEmbedding<T>>;

    closed spec fn view(&self) -> Map<Seq<char>, NoteEmbedding<T>> {
        self.entries@
    }
}

impl<T> EmbeddingIndex<T> {
    /// An empty index.
    pub fn new() -> (res: Self)
        ensures
            res@ == Map::<Seq<char>, NoteEmbedding<T>>::empty(),
    {
        EmbeddingIndex { entries: KeyedMap::new() }
    }

    /// Add or update the embedding of a note.
    pub fn add_entry(&mut self, path: &str, embedding: NoteEmbedding<T>)
        ensures
            final(self)@ == old(self)@.insert(path@, embedding),
    {
        self.entries.insert(path, embedding);
    }

    /// Remove the embedding of a deleted note.
    pub fn remove_entry(&mut self, path: &str)
        ensures
            final(self)@ == old(self)@.remove(path@),
    {
        self.entries.remove(path);
    }

    /// Remove the embeddings of all notes whose path begins with `prefix`.
    pub fn remove_by_path_prefix(&mut self, prefix: &str)
        ensures
            final(self)@ == without_prefix(old(self)@, prefix@),
    {
        self.entries.remove_with_prefix(prefix);
    }

    /// Move the embedding of a note that moved from `old_path` to `new_path`.
    pub fn move_entry(&mut self, old_path: &str, new_path: &str)
        ensures
            final(self)@ == moved(old(self)@, old_path@, new_path@),
    {
        self.entries.move_key(old_path, new_path);
    }

    /// The embedding of a note, if it has one.
    pub fn get(&self, path: &str) -> (res: Option<&NoteEmbedding<T>>)
        ensures
            self@.dom().contains(path@) ==> (res matches Some(e) && *e == self@[path@]),
            !self@.dom().contains(path@) ==> res is None,
    {
        self.entries.get(path)
    }

    /// The content hash recorded for a note, if it has an embedding.
    pub fn get_hash(&self, path: &str) -> (res: Option<String>)
        ensures
            self@.dom().contains(path@) ==> (res matches Some(h) && h == self@[path@].content_hash),
            !self@.dom().contains(path@) ==> res is None,
    {
        match self.entries.get(path) {
            Some(e) => Some(e.content_hash.clone()),
            None => None,
        }
    }

    /// Whether a note must be embedded (again): it has no embedding, or one
    /// made from content with another hash.
    pub fn needs_embedding(&self, path: &str, hash: &str) -> (res: bool)
        ensures
            res == !(self@.dom().contains(path@) && self@[path@].content_hash@ == hash@),
    {
        match self.entries.get(path) {
            Some(e) => {
                let h = String::from_str(hash);
                !(e.content_hash == h)
            },
            None => true,
        }
    }

    /// The vector of a note, if it has an embedding.
    pub fn vector_of(&self, path: &str) -> (res: Option<&T>)
        ensures
            self@.dom().contains(path@) ==> (res matches Some(v) && *v == self@[path@].vector),
            !self@.dom().contains(path@) ==> res is None,
    {
        match self.entries.get(path) {
            Some(e) => Some(&e.vector),
            None => None,
        }
    }

    /// Every note path in the index, each once.
    pub fn paths(&self) -> (res: Vec<String>)
        ensures
            forall|a: int| 0 <= a < res@.len() ==> self@.dom().contains(#[trigger] res@[a]@),
            forall|k: Seq<char>| #[trigger] self@.dom().contains(k)
                ==> exists|a: int| 0 <= a < res@.len() && #[trigger] res@[a]@ == k,
            forall|a: int, b: int| 0 <= a < b < res@.len() ==> #[trigger] res@[a]@ != #[trigger] res@[b]@,
    {
        self.entries.keys()
    }

    /// The paths of the notes embedded in `language`, each once.
    pub fn paths_in_language(&self, language: &str) -> (res: Vec<String>)
        ensures
            forall|a: int| 0 <= a < res@.len() ==> self@.dom().contains(#[trigger] res@[a]@)
                && self@[res@[a]@].language@ == language@,
            forall|k: Seq<char>| #[trigger] self@.dom().contains(k) && self@[k].language@ == language@
                ==> exists|a: int| 0 <= a < res@.len() && #[trigger] res@[a]@ == k,
            forall|a: int, b: int| 0 <= a < b < res@.len() ==> #[trigger] res@[a]@ != #[trigger] res@[b]@,
    {
        let keys = self.entries.keys();
        let lang = String::from_str(language);
        let mut out: Vec<String> = Vec::new();
        // the index in `keys` that each path of `out` came from
        let ghost mut from: Seq<int> = seq![];
        let mut i: usize = 0;
        while i < keys.len()
            invariant
                i <= keys@.len(),
                lang@ == language@,
                forall|a: int| 0 <= a < keys@.len() ==> self@.dom().contains(#[trigger] keys@[a]@),
                forall|a: int, b: int| 0 <= a < b < keys@.len() ==> #[trigger] keys@[a]@ != #[trigger] keys@[b]@,
                from.len() == out@.len(),
                forall|a: int| 0 <= a < out@.len() ==> 0 <= #[trigger] from[a] < i && keys@[from[a]]@ == out@[a]@
                    && self@[out@[a]@].language@ == language@,
                forall|a: int, b: int| 0 <= a < b < out@.len() ==> #[trigger] from[a] < #[trigger] from[b],
                forall|j: int| 0 <= j < i && self@[(#[trigger] keys@[j])@].language@ == language@
                    ==> exists|a: int| 0 <= a < from.len() && #[trigger] from[a] == j,
            decreases keys@.len() - i,
        {
            let e = self.entries.get(keys[i].as_str());
            assert(self@.dom().contains(keys@[i as int]@));
            let matches = match e {
                Some(e) => e.language == lang,
                None => false,
            };
            if matches {
                out.push(keys[i].clone());
                proof {
                    let f0 = from;
                    from = from.push(i as int);
                    assert forall|j: int| 0 <= j < i + 1 && self@[(#[trigger] keys@[j])@].language@ == language@
                        implies exists|a: int| 0 <= a < from.len() && #[trigger] from[a] == j by {
                        if j < i {
                            let a = choose|a: int| 0 <= a < f0.len() && #[trigger] f0[a] == j;
                            assert(from[a] == f0[a]);
                        } else {
                            assert(from[f0.len() as int] == j);
                        }
                    }
                }
            }
            i = i + 1;
        }
        proof {
            assert forall|a: int| 0 <= a < out@.len() implies self@.dom().contains(#[trigger] out@[a]@)
                && self@[out@[a]@].language@ == language@ by {
                assert(self@.dom().contains(keys@[from[a]]@));
            }
            assert forall|k: Seq<char>| #[trigger] self@.dom().contains(k) && self@[k].language@ == language@
                implies exists|a: int| 0 <= a < out@.len() && #[trigger] out@[a]@ == k by {
                let j = choose|j: int| 0 <= j < keys@.len() && #[trigger] keys@[j]@ == k;
                let a = choose|a: int| 0 <= a < from.len() && #[trigger] from[a] == j;
                assert(out@[a]@ == k);
            }
            assert forall|a: int, b: int| 0 <= a < b < out@.len() implies #[trigger] out@[a]@ != #[trigger] out@[b]@ by {
                assert(from[a] < from[b]);
                assert(keys@[from[a]]@ != keys@[from[b]]@);
            }
        }
        out
    }

    /// The number of embeddings stored.
    pub fn len(&self) -> (res: usize)
        ensures
            self@.dom().finite(),
            res == self@.dom().len(),
    {
        self.entries.len()
    }
}

// ── Folders ─────────────────────────────────────────────────────

/// What the background build does with one note.
pub enum EmbedStep {
    Skip,
    Embed,
}

/// Whether the background build embeds a note: not when it is locked, could
/// not be read, is effectively empty, or already has an embedding made from
/// this very content (the same content hash).
pub fn embed_step<T>(
    index: &EmbeddingIndex<T>,
    path: &str,
    locked: bool,
    content: &Result<String, String>,
    effectively_empty: bool,
) -> (res: EmbedStep)
    ensures
        res is Embed <==> (!locked && content is Ok && !effectively_empty && !(index@.dom().contains(path@)
            && index@[path@].content_hash@ == hex_digits(default_str_hash(content->Ok_0@), 16))),
{
    if locked {
        return EmbedStep::Skip;
    }
    match content {
        Err(_) => EmbedStep::Skip,
        Ok(c) => {
            if effectively_empty {
                return EmbedStep::Skip;
            }
            let hash = content_hash(c.as_str());
            if index.needs_embedding(path, hash.as_str()) {
                EmbedStep::Embed
            } else {
                EmbedStep::Skip
            }
        },
    }
}

/// The folder of a note: the name of the directory that holds it, or empty.
pub open spec fn folder_of(path: Seq<char>) -> Seq<char> {
    match file_name_of(parent_of(path)) {
        Some(n) => n,
        None => seq![],
    }
}

/// The folder of a note path (`.../Stik/{folder}/{file}.md`).
pub fn note_folder(path: &str) -> (res: String)
    ensures
        res@ == folder_of(path@),
{
    let p = chars_of(path);
    let dir = parent(p.as_slice());
    match file_name(dir.as_slice()) {
        Some(n) => string_from_chars(n.as_slice()),
        None => String::new(),
    }
}

} // verus!
