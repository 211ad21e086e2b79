use aibook::checkpoint::{checkpoint_file_name, decode_state, encode_state, ProcessingState};

#[test]
fn fresh_state_encodes_canonically() {
    let state = ProcessingState::new();
    assert_eq!(
        encode_state(&state),
        "{\"images_extracted\":false,\"text_extracted\":false,\"chapters_processed\":[],\"epub_created\":false}"
    );
}

#[test]
fn round_trip_preserves_a_partial_state() {
    let mut state = ProcessingState::new();
    state.images_extracted = true;
    state.text_extracted = true;
    state.mark_chapter_done(0);
    state.mark_chapter_done(2);
    let text = encode_state(&state);
    assert_eq!(
        text,
        "{\"images_extracted\":true,\"text_extracted\":true,\"chapters_processed\":[0,2],\"epub_created\":false}"
    );
    let loaded = decode_state(&text).unwrap();
    assert_eq!(loaded.images_extracted, state.images_extracted);
    assert_eq!(loaded.text_extracted, state.text_extracted);
    assert_eq!(loaded.chapters_processed, state.chapters_processed);
    assert_eq!(loaded.epub_created, state.epub_created);
}

#[test]
fn saving_twice_writes_identical_text() {
    let mut state = ProcessingState::new();
    state.mark_chapter_done(7);
    let first = encode_state(&state);
    let second = encode_state(&state);
    assert_eq!(first, second);
    let a = decode_state(&first).unwrap();
    let b = decode_state(&second).unwrap();
    assert_eq!(a.chapters_processed, b.chapters_processed);
}

#[test]
fn marking_keeps_the_chapter_list_sorted_and_deduplicated() {
    let mut state = ProcessingState::new();
    state.mark_chapter_done(2);
    state.mark_chapter_done(0);
    state.mark_chapter_done(1);
    state.mark_chapter_done(1);
    assert_eq!(state.chapters_processed, vec![0, 1, 2]);
    assert!(state.is_chapter_done(1));
    assert!(!state.is_chapter_done(3));
}

#[test]
fn remaining_chapters_lists_exactly_the_unfinished_ones() {
    let mut state = ProcessingState::new();
    state.mark_chapter_done(0);
    state.mark_chapter_done(2);
    assert_eq!(state.remaining_chapters(3), vec![1]);
    assert_eq!(state.remaining_chapters(5), vec![1, 3, 4]);
    assert_eq!(ProcessingState::new().remaining_chapters(2), vec![0, 1]);
}

#[test]
fn decode_rejects_text_that_is_not_a_checkpoint() {
    assert!(decode_state("").is_none());
    assert!(decode_state("{}").is_none());
    assert!(decode_state("{\"images_extracted\":maybe}").is_none());
    assert!(
        decode_state(
            "{\"images_extracted\":false,\"text_extracted\":false,\"chapters_processed\":[01],\"epub_created\":false}"
        )
        .is_none()
    );
}

#[test]
fn checkpoint_name_is_sanitized() {
    assert_eq!(checkpoint_file_name("my/book"), "mybook.json");
    assert_eq!(checkpoint_file_name("plain"), "plain.json");
}
