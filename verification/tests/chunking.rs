use cica::chunk::chunk_text;
use cica::embedding::bytes_to_embedding;
use cica::embedding::embedding_to_bytes;
use cica::embedding::dot;
use cica::embedding::EMBED_DIM;
use cica::hashing::hash_to_hex;
use cica::hashing::md5_hash;
use cica::memory::memories_dir;
use cica::text::str_eq;

#[test]
fn test_chunk_text() {
    let content = r#"# Title

Some intro text.

## Section 1

Content for section 1.

## Section 2

Content for section 2.
"#;

    let chunks = chunk_text(content);
    assert_eq!(chunks.len(), 3);
    assert!(chunks[0].text.contains("Title"));
    assert!(chunks[1].text.contains("Section 1"));
    assert!(chunks[2].text.contains("Section 2"));
}

#[test]
fn chunk_example_partitions_lines() {
    let content = "# Title\n\nIntro.\n\n## A\n\nContent A.\n\n## B\n\nContent B.";
    let line_count = content.lines().count();
    let chunks = chunk_text(content);
    assert_eq!(chunks.len(), 3);
    assert!(chunks[0].text.contains("Title"));
    assert!(chunks[1].text.contains("A"));
    assert!(chunks[2].text.contains("B"));
    assert_eq!(chunks[0].start_line, 1);
    for w in chunks.windows(2) {
        assert_eq!(w[0].end_line + 1, w[1].start_line);
    }
    for c in &chunks {
        assert!(c.start_line <= c.end_line);
    }
    assert_eq!(chunks[chunks.len() - 1].end_line, line_count);
}

#[test]
fn chunk_empty_and_whitespace_documents_yield_nothing() {
    assert_eq!(chunk_text("").len(), 0);
    assert_eq!(chunk_text("   \n\t\n  \n").len(), 0);
}

#[test]
fn chunk_splits_oversized_sections() {
    let long_line = "a".repeat(900);
    let content = format!("{}\n{}\n{}\n{}", long_line, long_line, long_line, long_line);
    let chunks = chunk_text(&content);
    assert!(chunks.len() >= 2);
    for w in chunks.windows(2) {
        assert_eq!(w[0].end_line + 1, w[1].start_line);
    }
}

#[test]
fn chunk_never_splits_fenced_code_block() {
    let code_line = "let value = 1;".repeat(60);
    let content = format!(
        "# Notes\n\n```\n{}\n{}\n{}\n```\nafter",
        code_line, code_line, code_line
    );
    let chunks = chunk_text(&content);
    let with_fence: Vec<_> = chunks.iter().filter(|c| c.text.contains("```")).collect();
    assert_eq!(with_fence.len(), 1);
    assert_eq!(with_fence[0].text.matches("```").count(), 2);
    assert!(with_fence[0].text.matches("let value = 1;").count() >= 180);
}

#[test]
fn chunk_heading_inside_code_block_does_not_split() {
    let content = "intro\n```\n# not a heading\nmore\n```\ntail";
    let chunks = chunk_text(&content);
    assert_eq!(chunks.len(), 1);
    assert!(chunks[0].text.contains("# not a heading"));
}

#[test]
fn digest_is_deterministic_and_content_sensitive() {
    assert_eq!(md5_hash("alpha"), md5_hash("alpha"));
    assert_ne!(md5_hash("alpha"), md5_hash("alpha "));
    assert_ne!(md5_hash("alpha"), md5_hash("beta"));
    assert_ne!(md5_hash(""), md5_hash("a"));
}

#[test]
fn hash_to_hex_renders_lowercase_without_leading_zeros() {
    assert_eq!(hash_to_hex(0), "0");
    assert_eq!(hash_to_hex(10), "a");
    assert_eq!(hash_to_hex(255), "ff");
    assert_eq!(hash_to_hex(0x1a2b), "1a2b");
    assert_eq!(hash_to_hex(0xdead_beef), "deadbeef");
}

#[test]
fn embedding_bytes_round_trip() {
    let mut e: Vec<i32> = Vec::new();
    for j in 0..EMBED_DIM {
        e.push((j as i32 % 1000) - 500);
    }
    e[0] = 65536;
    e[1] = -65536;
    let bytes = embedding_to_bytes(&e);
    assert_eq!(bytes.len(), 4 * EMBED_DIM);
    let back = bytes_to_embedding(&bytes).expect("round trip should decode");
    assert_eq!(back, e);
}

#[test]
fn embedding_decode_rejects_bad_blobs() {
    assert!(bytes_to_embedding(&vec![0u8; 7]).is_none());
    let mut e: Vec<i32> = vec![0; EMBED_DIM];
    e[5] = 70000;
    let bytes = embedding_to_bytes(&e);
    assert!(bytes_to_embedding(&bytes).is_none());
}

#[test]
fn dot_product_matches_hand_computation() {
    let a: Vec<i32> = vec![1; EMBED_DIM];
    let b: Vec<i32> = vec![2; EMBED_DIM];
    assert_eq!(dot(&a, &a), EMBED_DIM as i64);
    assert_eq!(dot(&a, &b), 2 * EMBED_DIM as i64);
    let mut c: Vec<i32> = vec![0; EMBED_DIM];
    c[0] = -3;
    assert_eq!(dot(&a, &c), -3);
}

#[test]
fn memories_dir_joins_the_tenant_path() {
    assert_eq!(
        memories_dir("/home/me/.cica", "telegram", "42"),
        "/home/me/.cica/users/telegram_42/memories"
    );
}

#[test]
fn str_eq_compares_by_characters() {
    assert!(str_eq("abc", "abc"));
    assert!(!str_eq("abc", "abd"));
    assert!(!str_eq("abc", "ab"));
    assert!(str_eq("", ""));
}

#[test]
fn whitespace_only_documents_of_any_size_yield_nothing() {
    let long_spaces = " ".repeat(3000);
    assert_eq!(chunk_text(&long_spaces).len(), 0);
    let many_blank_lines = "\n \n\t\n".repeat(900);
    assert_eq!(chunk_text(&many_blank_lines).len(), 0);
}

#[test]
fn whitespace_before_a_heading_joins_its_chunk() {
    let content = "   \n\n# Title\n\nbody";
    let chunks = chunk_text(content);
    assert_eq!(chunks.len(), 1);
    assert_eq!(chunks[0].start_line, 1);
    assert_eq!(chunks[0].end_line, 5);
    assert_eq!(chunks[0].text, "# Title\n\nbody");
}

#[test]
fn chunk_texts_are_trimmed_and_non_empty() {
    let content = "  intro  \n\n#  A  \n\n  body  ";
    let chunks = chunk_text(content);
    assert!(chunks.len() >= 2);
    for c in &chunks {
        assert!(!c.text.is_empty());
        assert_eq!(c.text, c.text.trim());
    }
}
