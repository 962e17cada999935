use cica::backend::current_backend_name;
use cica::backend::AiBackend;
use cica::channels::get_channel_info;
use cica::channels::session_expired;
use cica::channels::split_tenant_key;
use cica::channels::process_command;
use cica::channels::session_key;
use cica::channels::CommandResult;
use cica::channels::SessionStore;
use cica::chunk::chunk_text;
use cica::cursor::build_prompt;
use cica::cursor::select_result;
use cica::cursor::CursorError;
use cica::cursor::CursorEvent;
use cica::embedding::EmbeddingProvider;
use cica::embedding::HashEmbedder;
use cica::errors::MemoryError;
use cica::hashing::hash_to_hex;
use cica::hashing::md5_hash;
use cica::memory::MemoryDocument;
use cica::memory::MemoryIndex;

fn doc(path: &str, content: &str) -> MemoryDocument {
    MemoryDocument { path: path.to_string(), content: content.to_string() }
}

#[test]
fn search_on_empty_index_returns_empty() {
    let index = MemoryIndex::open_in_memory().unwrap();
    let mut provider = HashEmbedder::new();
    let results = index
        .search("telegram", "42", "vacation plans", 3, &mut provider)
        .unwrap();
    assert_eq!(results.len(), 0);
}

#[test]
fn indexing_unchanged_file_embeds_nothing_new() {
    let mut index = MemoryIndex::open_in_memory().unwrap();
    let mut provider = HashEmbedder::new();
    let docs = vec![doc("notes.md", "# Plans\n\nGo hiking on Saturday.")];
    index.index_user_memories("telegram", "42", &docs, &mut provider).unwrap();
    assert_eq!(provider.batches, 1);
    let before = index
        .search("telegram", "42", "hiking", 5, &mut provider)
        .unwrap();
    let batches_before = provider.batches;
    index.index_user_memories("telegram", "42", &docs, &mut provider).unwrap();
    assert_eq!(provider.batches, batches_before);
    let after = index
        .search("telegram", "42", "hiking", 5, &mut provider)
        .unwrap();
    assert_eq!(before.len(), after.len());
    for (x, y) in before.iter().zip(after.iter()) {
        assert_eq!(x.path, y.path);
        assert_eq!(x.chunk, y.chunk);
        assert_eq!(x.score, y.score);
    }
}

#[test]
fn changed_content_is_rechunked_and_replaces_old_rows() {
    let mut index = MemoryIndex::open_in_memory().unwrap();
    let mut provider = HashEmbedder::new();
    let old_docs = vec![doc("notes.md", "old fact about trains")];
    index.index_user_memories("telegram", "42", &old_docs, &mut provider).unwrap();
    assert_eq!(provider.batches, 1);
    assert_ne!(
        md5_hash("old fact about trains"),
        md5_hash("new fact about planes")
    );
    let new_docs = vec![doc("notes.md", "new fact about planes")];
    index.index_user_memories("telegram", "42", &new_docs, &mut provider).unwrap();
    assert_eq!(provider.batches, 2);
    let results = index
        .search("telegram", "42", "anything", 10, &mut provider)
        .unwrap();
    assert_eq!(results.len(), 1);
    assert_eq!(results[0].chunk, "new fact about planes");
    for r in &results {
        assert!(!r.chunk.contains("trains"));
    }
}

#[test]
fn recorded_hash_matches_the_content_digest() {
    let mut index = MemoryIndex::open_in_memory().unwrap();
    let mut provider = HashEmbedder::new();
    let content = "# Title\n\nBody text.";
    let docs = vec![doc("a.md", content)];
    index.index_user_memories("telegram", "42", &docs, &mut provider).unwrap();
    let stored = index.get_file_hash("telegram", "42", "a.md").unwrap();
    assert_eq!(stored, Some(hash_to_hex(md5_hash(content))));
    assert_eq!(index.get_file_hash("telegram", "42", "missing.md").unwrap(), None);
}

#[test]
fn list_memory_files_returns_the_tenant_paths() {
    let mut index = MemoryIndex::open_in_memory().unwrap();
    let mut provider = HashEmbedder::new();
    let docs = vec![doc("a.md", "alpha"), doc("b.md", "beta")];
    index.index_user_memories("telegram", "42", &docs, &mut provider).unwrap();
    let mut paths = index.list_memory_files("telegram", "42").unwrap();
    paths.sort();
    assert_eq!(paths, vec!["a.md".to_string(), "b.md".to_string()]);
    assert_eq!(index.list_memory_files("telegram", "43").unwrap().len(), 0);
}

#[test]
fn three_tenants_never_see_each_other() {
    let mut index = MemoryIndex::open_in_memory().unwrap();
    let mut provider = HashEmbedder::new();
    index
        .index_user_memories(
            "telegram",
            "42",
            &vec![doc("mine.md", "alpha secret of user forty-two")],
            &mut provider,
        )
        .unwrap();
    index
        .index_user_memories(
            "telegram",
            "43",
            &vec![doc("other.md", "beta secret of user forty-three")],
            &mut provider,
        )
        .unwrap();
    index
        .index_user_memories(
            "signal",
            "42",
            &vec![doc("elsewhere.md", "gamma secret on another channel")],
            &mut provider,
        )
        .unwrap();
    let results = index
        .search("telegram", "42", "secret", 10, &mut provider)
        .unwrap();
    assert_eq!(results.len(), 1);
    assert_eq!(results[0].path, "mine.md");
    for r in &results {
        assert!(!r.chunk.contains("forty-three"));
        assert!(!r.chunk.contains("another channel"));
    }
}

#[test]
fn query_identical_to_chunk_ranks_it_first() {
    let mut index = MemoryIndex::open_in_memory().unwrap();
    let mut provider = HashEmbedder::new();
    let docs = vec![
        doc("a.md", "the quick brown fox jumps over the lazy dog"),
        doc("b.md", "a completely different note about gardening"),
        doc("c.md", "yet another memory, this one about cooking"),
    ];
    index.index_user_memories("telegram", "42", &docs, &mut provider).unwrap();
    let results = index
        .search(
            "telegram",
            "42",
            "the quick brown fox jumps over the lazy dog",
            3,
            &mut provider,
        )
        .unwrap();
    assert_eq!(results.len(), 3);
    assert_eq!(results[0].path, "a.md");
    assert_eq!(results[0].chunk, "the quick brown fox jumps over the lazy dog");
    // The deterministic provider re-embeds the identical text to the
    // identical sign vector, so the top score is its exact squared
    // length: 384 components of magnitude 3344.
    assert_eq!(results[0].score, 384 * 3344 * 3344);
    assert!(results[0].score >= results[1].score);
    assert!(results[1].score >= results[2].score);
}

#[test]
fn search_respects_the_limit() {
    let mut index = MemoryIndex::open_in_memory().unwrap();
    let mut provider = HashEmbedder::new();
    let docs = vec![doc("a.md", "one"), doc("b.md", "two"), doc("c.md", "three")];
    index.index_user_memories("telegram", "42", &docs, &mut provider).unwrap();
    let results = index.search("telegram", "42", "one", 2, &mut provider).unwrap();
    assert_eq!(results.len(), 2);
}

#[test]
fn chunked_document_is_stored_chunk_by_chunk() {
    let mut index = MemoryIndex::open_in_memory().unwrap();
    let mut provider = HashEmbedder::new();
    let content = "# One\n\nfirst section body\n\n# Two\n\nsecond section body";
    let expected = chunk_text(content);
    assert_eq!(expected.len(), 2);
    let docs = vec![doc("a.md", content)];
    index.index_user_memories("telegram", "42", &docs, &mut provider).unwrap();
    let mut results = index
        .search("telegram", "42", "section", 10, &mut provider)
        .unwrap();
    results.sort_by(|a, b| a.chunk.cmp(&b.chunk));
    let mut texts: Vec<String> = expected.into_iter().map(|c| c.text).collect();
    texts.sort();
    let got: Vec<String> = results.into_iter().map(|r| r.chunk).collect();
    assert_eq!(got, texts);
}

#[test]
fn process_command_lists_commands() {
    let mut store = SessionStore::new();
    let r = process_command(&mut store, "telegram", "42", "  /commands  ");
    match r {
        CommandResult::Response(m) => assert_eq!(
            m,
            "Available commands:\n\n/commands - Show available commands\n/new - Start a new conversation"
        ),
        CommandResult::NotACommand => panic!("expected a response"),
    }
}

#[test]
fn process_command_new_clears_only_this_session() {
    let mut store = SessionStore::new();
    store.entries.push(("telegram:42".to_string(), "sess-a".to_string()));
    store.entries.push(("telegram:43".to_string(), "sess-b".to_string()));
    let r = process_command(&mut store, "telegram", "42", "/new");
    match r {
        CommandResult::Response(m) => {
            assert_eq!(m, "Starting fresh! Our previous conversation has been cleared.")
        }
        CommandResult::NotACommand => panic!("expected a response"),
    }
    assert_eq!(store.entries.len(), 1);
    assert_eq!(store.entries[0].0, "telegram:43");
}

#[test]
fn process_command_passes_ordinary_messages_through() {
    let mut store = SessionStore::new();
    store.entries.push(("telegram:42".to_string(), "sess-a".to_string()));
    let r = process_command(&mut store, "telegram", "42", "hello there");
    assert!(matches!(r, CommandResult::NotACommand));
    assert_eq!(store.entries.len(), 1);
}

#[test]
fn session_key_joins_channel_and_user() {
    assert_eq!(session_key("telegram", "42"), "telegram:42");
}

#[test]
fn channel_catalogue_lookup() {
    let t = get_channel_info("telegram").unwrap();
    assert_eq!(t.name, "telegram");
    assert_eq!(t.display_name, "Telegram");
    let s = get_channel_info("signal").unwrap();
    assert_eq!(s.display_name, "Signal");
    assert!(get_channel_info("matrix").is_none());
}

#[test]
fn backend_names() {
    assert_eq!(current_backend_name(AiBackend::Claude), "Code CLI");
    assert_eq!(current_backend_name(AiBackend::Cursor), "Cursor CLI");
}

fn event(kind: &str, result: Option<&str>, session: Option<&str>, is_error: Option<bool>) -> CursorEvent {
    CursorEvent {
        event_type: kind.to_string(),
        result: result.map(|s| s.to_string()),
        session_id: session.map(|s| s.to_string()),
        duration_ms: None,
        is_error,
    }
}

#[test]
fn select_result_picks_last_result_and_session() {
    let events = vec![
        event("system", None, Some("s1"), None),
        event("result", Some("draft"), None, Some(false)),
        event("assistant", None, Some("s2"), None),
        event("result", Some("final answer"), None, None),
    ];
    let (result, session) = select_result(&events).unwrap();
    assert_eq!(result, "final answer");
    assert_eq!(session, "s2");
}

#[test]
fn select_result_fails_on_error_event() {
    let events = vec![
        event("system", None, Some("s1"), None),
        event("result", Some("boom"), None, Some(true)),
    ];
    assert!(matches!(select_result(&events).unwrap_err(), CursorError::RunFailed));
}

#[test]
fn select_result_without_result_event() {
    let events = vec![event("system", None, Some("s1"), None)];
    assert!(matches!(select_result(&events).unwrap_err(), CursorError::NoResult));
    let (_, session_less) = match select_result(&vec![event("result", Some("ok"), None, None)]) {
        Ok(pair) => pair,
        Err(_) => panic!("expected a result"),
    };
    assert_eq!(session_less, "");
}

#[test]
fn error_descriptions_carry_the_message() {
    let e = MemoryError::StoreUnavailable("disk full".to_string());
    assert_eq!(e.describe(), "disk full");
    let e = MemoryError::FileReadError("bad file".to_string());
    assert_eq!(e.describe(), "bad file");
}

#[test]
fn session_expiry_marker_is_detected() {
    assert!(session_expired(
        "backend said: No conversation found with session ID abc-123"
    ));
    assert!(session_expired("No conversation found with session ID"));
    assert!(!session_expired("some other failure"));
    assert!(!session_expired(""));
}

#[test]
fn tenant_keys_split_at_the_first_colon() {
    assert_eq!(
        split_tenant_key("telegram:42"),
        Some(("telegram".to_string(), "42".to_string()))
    );
    assert_eq!(
        split_tenant_key("a:b:c"),
        Some(("a".to_string(), "b:c".to_string()))
    );
    assert_eq!(split_tenant_key("nocolon"), None);
    assert_eq!(split_tenant_key(""), None);
}

#[test]
fn recording_sessions_updates_in_place() {
    let mut store = SessionStore::new();
    store.record("telegram:42", "first");
    store.record("telegram:42", "");
    assert_eq!(store.entries.len(), 1);
    assert_eq!(store.entries[0].1, "first");
    store.record("telegram:42", "second");
    assert_eq!(store.entries.len(), 1);
    assert_eq!(store.entries[0].1, "second");
    store.record("signal:7", "other");
    assert_eq!(store.entries.len(), 2);
}

#[test]
fn prompts_carry_the_context_block() {
    assert_eq!(
        build_prompt(&Some("facts".to_string()), "hello"),
        "<context>\nfacts\n</context>\n\nhello"
    );
    assert_eq!(build_prompt(&None, "hello"), "hello");
}
