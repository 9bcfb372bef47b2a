use std::hash::{Hash, Hasher};
use stik::embeddings::{
    after_embed_attempt, embed_step, embeddings_path_from, content_hash, detected_language, final_save_needed,
    is_batch_boundary, note_folder, BuildProgress, EmbedStep, EmbeddingIndex, NoteEmbedding,
};

fn emb(hash: &str, lang: &str) -> NoteEmbedding<Vec<f64>> {
    NoteEmbedding { vector: vec![0.5, 0.25], content_hash: hash.to_string(), language: lang.to_string() }
}

#[test]
fn content_hash_is_sixteen_hex_digits_of_the_default_hasher() {
    let content = "# Note\n\nBody";
    let mut hasher = std::collections::hash_map::DefaultHasher::new();
    content.hash(&mut hasher);
    assert_eq!(content_hash(content), format!("{:016x}", hasher.finish()));
    assert_eq!(content_hash(content), content_hash(content));
    assert_ne!(content_hash("a"), content_hash("b"));
    assert_eq!(content_hash("").len(), 16);
}

#[test]
fn index_adds_updates_and_removes() {
    let mut index: EmbeddingIndex<Vec<f64>> = EmbeddingIndex::new();
    assert_eq!(index.len(), 0);
    index.add_entry("/S/Inbox/a.md", emb("h1", "en"));
    index.add_entry("/S/Work/b.md", emb("h2", "fr"));
    assert_eq!(index.len(), 2);
    assert_eq!(index.get_hash("/S/Inbox/a.md"), Some("h1".to_string()));
    index.add_entry("/S/Inbox/a.md", emb("h3", "en"));
    assert_eq!(index.len(), 2);
    assert_eq!(index.get_hash("/S/Inbox/a.md"), Some("h3".to_string()));
    assert_eq!(index.vector_of("/S/Work/b.md"), Some(&vec![0.5, 0.25]));
    index.remove_entry("/S/Inbox/a.md");
    assert_eq!(index.get_hash("/S/Inbox/a.md"), None);
    index.remove_entry("/S/missing.md");
    assert_eq!(index.len(), 1);
}

#[test]
fn index_moves_entries() {
    let mut index: EmbeddingIndex<Vec<f64>> = EmbeddingIndex::new();
    index.add_entry("/S/Inbox/a.md", emb("h1", "en"));
    index.move_entry("/S/Inbox/a.md", "/S/Work/a.md");
    assert_eq!(index.get_hash("/S/Inbox/a.md"), None);
    assert_eq!(index.get_hash("/S/Work/a.md"), Some("h1".to_string()));
    index.move_entry("/S/none.md", "/S/other.md");
    assert_eq!(index.len(), 1);
    assert_eq!(index.get_hash("/S/other.md"), None);
}

#[test]
fn index_removes_by_prefix() {
    let mut index: EmbeddingIndex<Vec<f64>> = EmbeddingIndex::new();
    index.add_entry("/S/Inbox/a.md", emb("1", "en"));
    index.add_entry("/S/Inbox/b.md", emb("2", "en"));
    index.add_entry("/S/Work/c.md", emb("3", "en"));
    index.add_entry("/S/InboxOld/d.md", emb("4", "en"));
    index.remove_by_path_prefix("/S/Inbox/");
    assert_eq!(index.len(), 2);
    assert_eq!(index.get_hash("/S/Inbox/a.md"), None);
    assert_eq!(index.get_hash("/S/Work/c.md"), Some("3".to_string()));
    assert_eq!(index.get_hash("/S/InboxOld/d.md"), Some("4".to_string()));
}

#[test]
fn index_lists_paths_by_language() {
    let mut index: EmbeddingIndex<Vec<f64>> = EmbeddingIndex::new();
    index.add_entry("/a.md", emb("1", "en"));
    index.add_entry("/b.md", emb("2", "fr"));
    index.add_entry("/c.md", emb("3", "en"));
    let mut en = index.paths_in_language("en");
    en.sort();
    assert_eq!(en, vec!["/a.md".to_string(), "/c.md".to_string()]);
    assert!(index.paths_in_language("de").is_empty());
}

#[test]
fn folder_of_note_paths() {
    assert_eq!(note_folder("/Users/me/Documents/Stik/Inbox/20260206-note.md"), "Inbox");
    assert_eq!(note_folder("note.md"), "");
    assert_eq!(note_folder("/note.md"), "");
    for p in ["/S/Inbox/a.md", "Work/b.md", "a/b/", "./x/y.md", "/", "", "a/../b.md", "x//y///z.md"] {
        let expected = std::path::Path::new(p)
            .parent()
            .and_then(|q| q.file_name())
            .map(|n| n.to_string_lossy().to_string())
            .unwrap_or_default();
        assert_eq!(note_folder(p), expected, "{p}");
    }
}

#[test]
fn batches_and_languages() {
    assert!(is_batch_boundary(50));
    assert!(is_batch_boundary(100));
    assert!(!is_batch_boundary(49));
    assert_eq!(detected_language(None), "en");
    assert_eq!(detected_language(Some("fr".to_string())), "fr");
}

#[test]
fn index_file_lives_in_dot_stik() {
    assert_eq!(embeddings_path_from(Some(b"/home/me".to_vec())).unwrap(), b"/home/me/.stik/embeddings.json".to_vec());
    assert_eq!(embeddings_path_from(None).unwrap_err(), "Cannot determine home directory");
}

#[test]
fn only_new_or_changed_notes_need_embedding() {
    let mut index: EmbeddingIndex<Vec<f64>> = EmbeddingIndex::new();
    assert!(index.needs_embedding("/a.md", "h1"));
    index.add_entry("/a.md", emb("h1", "en"));
    assert!(!index.needs_embedding("/a.md", "h1"));
    assert!(index.needs_embedding("/a.md", "h2"));
}

#[test]
fn build_skips_locked_unreadable_empty_and_unchanged_notes() {
    let mut index: EmbeddingIndex<Vec<f64>> = EmbeddingIndex::new();
    let body = "# Plan\n\nShip it".to_string();
    index.add_entry("/S/Inbox/same.md", emb(&content_hash(&body), "en"));
    index.add_entry("/S/Inbox/stale.md", emb("0000000000000000", "en"));
    let ok = Ok(body.clone());
    let embeds = |p: &str, locked: bool, c: &Result<String, String>, empty: bool| {
        matches!(embed_step(&index, p, locked, c, empty), EmbedStep::Embed)
    };
    assert!(embeds("/S/Inbox/new.md", false, &ok, false));
    assert!(embeds("/S/Inbox/stale.md", false, &ok, false));
    assert!(!embeds("/S/Inbox/same.md", false, &ok, false));
    assert!(!embeds("/S/Inbox/new.md", true, &ok, false));
    assert!(!embeds("/S/Inbox/new.md", false, &Err("gone".to_string()), false));
    assert!(!embeds("/S/Inbox/new.md", false, &ok, true));
}

#[test]
fn build_counts_and_saves_every_batch() {
    let mut p = BuildProgress { processed: 0, embedded: 0 };
    assert!(!final_save_needed(&p));
    let mut saves = Vec::new();
    for i in 0..120u64 {
        let (next, save) = after_embed_attempt(p, i % 3 != 0);
        p = next;
        if save {
            saves.push(p.processed);
        }
    }
    assert_eq!(p.processed, 120);
    assert_eq!(p.embedded, 80);
    assert_eq!(saves, vec![50, 100]);
    assert!(final_save_needed(&p));
    let (q, save) = after_embed_attempt(BuildProgress { processed: 7, embedded: 0 }, false);
    assert_eq!((q.processed, q.embedded, save), (8, 0, false));
    assert!(!final_save_needed(&q));
}
