use downloader::interaction::{
    display_name, failed_message, finished_message, DownloadResults, Key, KeyOutcome, Prompt,
};

fn chars(s: &str) -> Vec<char> {
    s.chars().collect()
}

fn prompt(s: &str, cursor: usize) -> Prompt {
    Prompt { buffer: chars(s), cursor }
}

#[test]
fn typing_inserts_at_cursor() {
    let mut p = Prompt::default();
    p.insert('a');
    p.insert('b');
    p.left_char();
    p.insert('c');
    assert_eq!(p.buffer, chars("acb"));
    assert_eq!(p.cursor, 2);
}

#[test]
fn typing_past_end_clamps_cursor() {
    let mut p = prompt("ab", 10);
    p.insert('x');
    assert_eq!(p.buffer, chars("abx"));
    assert_eq!(p.cursor, 3);
}

#[test]
fn backspace_undoes_insert() {
    let mut p = prompt("hello", 2);
    p.insert('Z');
    p.backspace();
    assert_eq!(p.buffer, chars("hello"));
    assert_eq!(p.cursor, 2);
}

#[test]
fn backspace_at_start_does_nothing() {
    let mut p = prompt("hi", 0);
    p.backspace();
    assert_eq!(p.buffer, chars("hi"));
    assert_eq!(p.cursor, 0);
}

#[test]
fn paste_drops_line_breaks() {
    let mut p = prompt("<>", 1);
    p.insert_str("he\r\nllo\n");
    assert_eq!(p.buffer, chars("<hello>"));
    assert_eq!(p.cursor, 6);
}

#[test]
fn paste_is_typing_each_char() {
    let mut a = prompt("xy", 1);
    let mut b = a.clone();
    a.insert_str("a\nb");
    b.insert('a');
    b.insert('b');
    assert_eq!(a.buffer, b.buffer);
    assert_eq!(a.cursor, b.cursor);
}

#[test]
fn paste_of_only_line_breaks_leaves_cursor() {
    let mut p = prompt("ab", 10);
    p.insert_str("\r\n");
    assert_eq!(p.buffer, chars("ab"));
    assert_eq!(p.cursor, 10);
}

#[test]
fn left_and_right_char() {
    let mut p = prompt("ab", 0);
    p.left_char();
    assert_eq!(p.cursor, 0);
    p.right_char();
    p.right_char();
    p.right_char();
    assert_eq!(p.cursor, 2);
    p.left_char();
    assert_eq!(p.cursor, 1);
    p.right_char();
    p.left_char();
    assert_eq!(p.cursor, 1);
}

#[test]
fn at_cursor_reads_char_or_line_break() {
    let p = prompt("ab", 1);
    assert_eq!(p.at_cursor(), 'b');
    let q = prompt("ab", 2);
    assert_eq!(q.at_cursor(), '\n');
}

#[test]
fn word_left_stops_on_space_before_word() {
    let mut p = prompt("foo bar", 7);
    p.left_word();
    assert_eq!(p.cursor, 3);
    p.left_word();
    assert_eq!(p.cursor, 0);
}

#[test]
fn word_right_stops_after_word() {
    let mut p = prompt("foo bar", 0);
    p.right_word();
    assert_eq!(p.cursor, 3);
    p.right_word();
    assert_eq!(p.cursor, 7);
    p.right_word();
    assert_eq!(p.cursor, 7);
}

#[test]
fn word_motion_uses_unicode_whitespace() {
    let mut p = prompt("a\u{3000}b", 0);
    p.right_word();
    assert_eq!(p.cursor, 1);
    p.right_word();
    assert_eq!(p.cursor, 3);
}

#[test]
fn before_and_after_cursor_split_buffer() {
    let p = prompt("hello", 2);
    assert_eq!(p._before_cursor(), &['h', 'e'][..]);
    assert_eq!(p._after_cursor(), &['l', 'l', 'o'][..]);
}

#[test]
fn delete_until_end_keeps_text_before_cursor() {
    let mut p = prompt("hello", 2);
    p._delete_until_end();
    assert_eq!(p.buffer, chars("he"));
    assert_eq!(p.cursor, 2);
    let mut q = prompt("hi", 5);
    q._delete_until_end();
    assert_eq!(q.buffer, chars("hi"));
}

#[test]
fn clear_empties_prompt() {
    let mut p = prompt("hello", 3);
    p.clear();
    assert!(p.buffer.is_empty());
    assert_eq!(p.cursor, 0);
}

#[test]
fn terminal_cursor_position() {
    let p = prompt("abc", 3);
    assert_eq!(p.sync_terminal_cursor(0, 5, 80), Some((3, 5)));
    assert_eq!(p.sync_terminal_cursor(2, 5, 2), Some((5, 5)));
    assert_eq!(p.sync_terminal_cursor(0, 5, 1), None);
}

#[test]
fn render_shows_newest_results() {
    let mut r = DownloadResults::default();
    r.push("a".to_string());
    r.push("b".to_string());
    r.push("c".to_string());
    assert_eq!(r.render(2), vec!["b".to_string(), "c".to_string()]);
    assert_eq!(r.render(5), vec!["a".to_string(), "b".to_string(), "c".to_string()]);
    assert!(r.render(0).is_empty());
}

#[test]
fn display_name_shortens_long_urls() {
    let url = "x".repeat(30);
    assert_eq!(display_name(url.clone(), 80), url);
    let long = "y".repeat(60);
    assert_eq!(display_name(long.clone(), 60), format!("{}...", "y".repeat(10)));
    assert_eq!(display_name("z".repeat(50), 40), "...");
}

#[test]
fn result_messages() {
    assert_eq!(finished_message("a.zip"), "a.zip finished");
    assert_eq!(failed_message("a.zip", "Invalid URL."), "a.zip failed. Invalid URL.");
}

#[test]
fn key_handling() {
    let mut p = Prompt::default();
    assert!(matches!(p.handle_key(Key::Enter, false, false), KeyOutcome::EmptyUrl));
    assert!(matches!(p.handle_key(Key::Char('a'), false, false), KeyOutcome::Continue));
    p.handle_key(Key::Char('b'), false, false);
    p.handle_key(Key::Char(' '), false, false);
    p.handle_key(Key::Char('c'), false, false);
    assert_eq!(p.buffer, chars("ab c"));
    p.handle_key(Key::Left, false, true);
    assert_eq!(p.cursor, 2);
    p.handle_key(Key::Left, false, false);
    assert_eq!(p.cursor, 1);
    p.handle_key(Key::Right, true, false);
    assert_eq!(p.cursor, 2);
    p.handle_key(Key::Right, false, false);
    assert_eq!(p.cursor, 3);
    p.handle_key(Key::Backspace, false, false);
    assert_eq!(p.buffer, chars("abc"));
    p.handle_key(Key::Char('x'), true, false);
    assert_eq!(p.buffer, chars("abc"));
    match p.handle_key(Key::Enter, false, false) {
        KeyOutcome::Submit(url) => assert_eq!(url, "abc"),
        _ => panic!("expected the URL"),
    }
    assert!(p.buffer.is_empty());
    assert_eq!(p.cursor, 0);
    assert!(matches!(p.handle_key(Key::Esc, false, false), KeyOutcome::Quit));
    assert!(matches!(p.handle_key(Key::Char('c'), true, false), KeyOutcome::Quit));
    p.handle_key(Key::Char('z'), false, false);
    assert!(matches!(p.handle_key(Key::Char('k'), true, false), KeyOutcome::Continue));
    assert!(p.buffer.is_empty());
    assert!(matches!(p.handle_key(Key::Other, false, false), KeyOutcome::Continue));
}
