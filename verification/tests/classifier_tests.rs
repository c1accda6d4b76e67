use ffstudio::classifier::{is_error_line, LineBuffer};

#[test]
fn every_vocabulary_word_is_detected() {
    assert!(is_error_line("Error while decoding stream"));
    assert!(is_error_line("Conversion failed!"));
    assert!(is_error_line("Invalid argument"));
    assert!(is_error_line("cannot open file"));
    assert!(is_error_line("Stream map 'x' matches no streams."));
    assert!(is_error_line("out.mp4: No such file or directory"));
    assert!(is_error_line("File 'out.mp4' already exists. Overwrite?"));
}

#[test]
fn detection_is_case_insensitive() {
    assert!(is_error_line("NO SUCH FILE OR DIRECTORY"));
    assert!(is_error_line("An ERROR occurred"));
    assert!(is_error_line("Input: no SUCH file OR directory, exiting"));
}

#[test]
fn ordinary_progress_lines_pass() {
    assert!(!is_error_line("frame=  100 fps= 25 q=28.0 size=  256kB"));
    assert!(!is_error_line("Stream #0:0 -> #0:0 (h264 -> libx264)"));
    assert!(!is_error_line(""));
}

#[test]
fn lines_split_across_chunks_are_reassembled() {
    let mut buf = LineBuffer::new();
    let lines = buf.push_chunk("first li");
    assert!(lines.is_empty());
    let lines = buf.push_chunk("ne\nsecond");
    assert_eq!(lines, vec!["first line".to_string()]);
    let lines = buf.push_chunk(" line\n");
    assert_eq!(lines, vec!["second line".to_string()]);
}

#[test]
fn several_lines_in_one_chunk_come_out_in_order() {
    let mut buf = LineBuffer::new();
    let lines = buf.push_chunk("a\nb\nc\ntail");
    assert_eq!(lines, vec!["a".to_string(), "b".to_string(), "c".to_string()]);
    assert_eq!(buf.flush(), Some("tail".to_string()));
    assert_eq!(buf.flush(), None);
}

#[test]
fn trailing_carriage_returns_are_stripped() {
    let mut buf = LineBuffer::new();
    let lines = buf.push_chunk("windows line\r\nunix line\n");
    assert_eq!(
        lines,
        vec!["windows line".to_string(), "unix line".to_string()]
    );
}

#[test]
fn empty_lines_are_forwarded_too() {
    let mut buf = LineBuffer::new();
    let lines = buf.push_chunk("\n\r\none\n\n");
    assert_eq!(
        lines,
        vec![String::new(), String::new(), "one".to_string(), String::new()]
    );
}

#[test]
fn flush_hands_back_the_unterminated_tail_verbatim() {
    let mut buf = LineBuffer::new();
    buf.push_chunk("no newline here");
    assert_eq!(buf.flush(), Some("no newline here".to_string()));
    let mut buf = LineBuffer::new();
    buf.push_chunk("done\n");
    assert_eq!(buf.flush(), None);
}
