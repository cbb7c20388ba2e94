//! Owned blocks in daily notes.
use log_inbox::daily_writer::{
    managed_block_hash, normalize_line_endings, plan_managed_block, MAX_MARKDOWN_FILE_BYTES,
};
use log_inbox::digest::digest;

#[test]
fn creates_a_minimal_note_without_touching_the_reviewed_markdown() {
    let plan = plan_managed_block(None, "day_test", "### My notes\n\n- Done.", "Daily log")
        .expect("plan builds");
    let result = String::from_utf8(plan.updated_content).unwrap();
    assert!(result.starts_with("# Daily log\n\n<!-- log-inbox:daily:day_test:begin -->"));
    assert!(result.contains("### My notes\n\n- Done."));
    assert!(plan.previous_block.is_none());
}

#[test]
fn replaces_only_the_owned_block_and_preserves_frontmatter_bom_and_crlf() {
    let current = "\u{feff}---\r\ntags: [work-log]\r\n---\r\n\r\nUser text.\r\n\r\n<!-- log-inbox:daily:day_test:begin -->\r\nOld.\r\n<!-- log-inbox:daily:day_test:end -->\r\n\r\nTail.\r\n";
    let plan = plan_managed_block(
        Some(current.as_bytes()),
        "day_test",
        "### Automated activity\n\n- New.",
        "ignored",
    )
    .expect("plan builds");
    let result = String::from_utf8(plan.updated_content).unwrap();
    assert!(result.starts_with("\u{feff}---\r\ntags: [work-log]\r\n---"));
    assert!(result.contains("User text.\r\n\r\n<!-- log-inbox"));
    assert!(result.contains("### Automated activity\r\n\r\n- New."));
    assert!(result.ends_with("\r\n\r\nTail.\r\n"));
    assert!(!result.contains("Old."));
    assert!(plan.expected_old_block_hash.is_some());
}

#[test]
fn ignores_marker_examples_inside_fenced_code() {
    let current = "# Note\n\n```md\n<!-- log-inbox:daily:day_test:begin -->\nexample\n<!-- log-inbox:daily:day_test:end -->\n```\n";
    let plan = plan_managed_block(Some(current.as_bytes()), "day_test", "Real.", "ignored")
        .expect("fenced examples are user content");
    let result = String::from_utf8(plan.updated_content).unwrap();
    assert!(result.contains("example"));
    assert_eq!(result.matches("log-inbox:daily:day_test:begin").count(), 2);
}

#[test]
fn rejects_duplicate_missing_and_reversed_markers() {
    let begin = "<!-- log-inbox:daily:day_test:begin -->";
    let end = "<!-- log-inbox:daily:day_test:end -->";
    for current in [
        format!("{begin}\nfirst\n{begin}\nsecond\n{end}\n"),
        format!("{begin}\nmissing end\n"),
        format!("{end}\nwrong order\n{begin}\n"),
    ] {
        assert!(plan_managed_block(Some(current.as_bytes()), "day_test", "new", "ignored").is_err());
    }
}

#[test]
fn rejects_an_unterminated_fence_instead_of_appending_inside_it() {
    let current = "# Note\n\n```md\nexample\n";
    let error = plan_managed_block(Some(current.as_bytes()), "day_test", "new", "ignored")
        .expect_err("an open fence makes safe placement ambiguous");
    assert!(error.contains("unterminated fenced code"));
}

#[test]
fn rejects_invalid_input_without_rewriting_it() {
    assert!(plan_managed_block(Some(&[0xff]), "day", "new", "title").is_err());
    assert!(plan_managed_block(None, "bad:id", "new", "title").is_err());
    let oversized = vec![b'x'; MAX_MARKDOWN_FILE_BYTES + 1];
    assert!(plan_managed_block(Some(&oversized), "day", "new", "title").is_err());
}

#[test]
fn reports_the_exact_owned_block_hash() {
    let plan = plan_managed_block(None, "day_test", "Done.", "Daily").unwrap();
    assert_eq!(
        managed_block_hash(&plan.updated_content, "day_test").unwrap(),
        Some(plan.intended_new_block_hash)
    );
}

#[test]
fn the_digest_is_the_one_of_sha_256() {
    assert_eq!(
        digest(b"abc"),
        "ba7816bf8f01cfea414140de5dae2223b00361a396177a9cb410ff61f20015ad"
    );
}

#[test]
fn applying_the_same_text_again_changes_nothing() {
    let note = "# Day\n\nMine.\n";
    let first = plan_managed_block(Some(note.as_bytes()), "day_test", "- Done.", "Day").unwrap();
    let second =
        plan_managed_block(Some(&first.updated_content), "day_test", "- Done.", "Day").unwrap();
    assert_eq!(second.updated_content, first.updated_content);
    assert_eq!(second.expected_old_block_hash, Some(first.intended_new_block_hash));
}

#[test]
fn a_new_block_keeps_the_rest_of_the_note() {
    let note = "# Day\n\nMine.\n";
    let plan = plan_managed_block(Some(note.as_bytes()), "day_test", "- Done.", "Day").unwrap();
    assert_eq!(
        String::from_utf8(plan.updated_content).unwrap(),
        "# Day\n\nMine.\n\n<!-- log-inbox:daily:day_test:begin -->\n- Done.\n<!-- log-inbox:daily:day_test:end -->\n"
    );
}

#[test]
fn line_breaks_are_written_anew() {
    let mixed = "a\r\nb\rc\nd\r\r\n";
    assert_eq!(normalize_line_endings(mixed, "\n"), "a\nb\nc\nd\n\n");
    assert_eq!(normalize_line_endings(mixed, "\r\n"), "a\r\nb\r\nc\r\nd\r\n\r\n");
    for first in ["\n", "\r\n"] {
        for second in ["\n", "\r\n"] {
            assert_eq!(
                normalize_line_endings(&normalize_line_endings(mixed, first), second),
                normalize_line_endings(mixed, second)
            );
        }
    }
}

#[test]
fn a_block_is_read_back_in_any_note_and_applied_once() {
    let old = "# Note\r\n\r\n<!-- log-inbox:daily:day:begin -->\r\nOld.\r\n<!-- log-inbox:daily:day:end -->\r\nTail.\r\n";
    let markdown = "\n- Done.\r\n```\n<!-- log-inbox:daily:day:begin -->\n```\n";
    for current in [None, Some("Text."), Some("Text.\r\n"), Some(old)] {
        let plan =
            plan_managed_block(current.map(str::as_bytes), "day", markdown, "Daily log").unwrap();
        assert_eq!(
            managed_block_hash(&plan.updated_content, "day").unwrap(),
            Some(plan.intended_new_block_hash.clone())
        );
        let again =
            plan_managed_block(Some(&plan.updated_content), "day", markdown, "Another").unwrap();
        assert_eq!(again.updated_content, plan.updated_content);
        assert_eq!(again.next_block, plan.next_block);
        assert_eq!(again.expected_old_block_hash, Some(plan.intended_new_block_hash));
    }
}
