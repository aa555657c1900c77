use vshell::editor::{classify_byte, classify_escape, ArrowKey, Editor, EditorAction, Key};

fn printed(act: EditorAction) -> String {
    match act {
        EditorAction::Print(s) => s,
        _ => panic!("expected a print action"),
    }
}

fn submitted(act: EditorAction) -> String {
    match act {
        EditorAction::Submit(s) => s,
        _ => panic!("expected a submit action"),
    }
}

#[test]
fn bytes_classify_to_keys() {
    assert!(matches!(classify_byte(9), Key::Tab));
    assert!(matches!(classify_byte(10), Key::Enter));
    assert!(matches!(classify_byte(27), Key::Escape));
    assert!(matches!(classify_byte(127), Key::Backspace));
    assert!(matches!(classify_byte(b'x'), Key::Other('x')));
}

#[test]
fn escape_sequences_classify_to_arrows() {
    assert_eq!(classify_escape(91, 65), ArrowKey::Up);
    assert_eq!(classify_escape(91, 66), ArrowKey::Down);
    assert_eq!(classify_escape(91, 67), ArrowKey::Neither);
    assert_eq!(classify_escape(79, 65), ArrowKey::Neither);
}

#[test]
fn typing_echoes_and_appends() {
    let mut ed = Editor::new();
    let out = printed(ed.on_char('l'));
    assert_eq!(out, "l");
    let out = printed(ed.on_char('s'));
    assert_eq!(out, "s");
    assert_eq!(ed.buffer, "ls");
}

#[test]
fn backspace_rubs_out_one_character() {
    let mut ed = Editor::new();
    ed.on_char('a');
    ed.on_char('b');
    let out = printed(ed.on_backspace());
    assert_eq!(out, "\u{8} \u{8}");
    assert_eq!(ed.buffer, "a");
    // on an empty line nothing is printed
    let mut empty = Editor::new();
    assert_eq!(printed(empty.on_backspace()), "");
}

#[test]
fn enter_submits_the_line_and_records_trimmed_history() {
    let mut ed = Editor::new();
    ed.buffer = "  ls -l  ".to_string();
    let line = submitted(ed.on_enter());
    assert_eq!(line, "  ls -l  ");
    assert_eq!(ed.buffer, "");
    assert_eq!(ed.history, vec!["ls -l"]);
    assert_eq!(ed.history_index, 1);
    // a blank line is not recorded
    ed.buffer = "   ".to_string();
    let line = submitted(ed.on_enter());
    assert_eq!(line, "   ");
    assert_eq!(ed.history, vec!["ls -l"]);
}

#[test]
fn arrows_browse_history_and_redraw() {
    let mut ed = Editor::new();
    for cmd in ["ls", "pwd"] {
        ed.buffer = cmd.to_string();
        ed.on_enter();
    }
    assert_eq!(ed.history_index, 2);
    let out = printed(ed.on_up());
    assert_eq!(ed.buffer, "pwd");
    assert_eq!(out, "\r$ \r$ pwd");
    let out = printed(ed.on_up());
    assert_eq!(ed.buffer, "ls");
    assert_eq!(out, "\r$    \r$ ls");
    // at the oldest entry, up does nothing
    assert_eq!(printed(ed.on_up()), "");
    assert_eq!(ed.buffer, "ls");
    // down walks forward and past the end clears the line
    let out = printed(ed.on_down());
    assert_eq!(ed.buffer, "pwd");
    assert_eq!(out, "\r$   \r$ pwd");
    let out = printed(ed.on_down());
    assert_eq!(ed.buffer, "");
    assert_eq!(out, "\r$    \r$ ");
    assert_eq!(printed(ed.on_down()), "");
}

#[test]
fn single_candidate_completes_with_trailing_space() {
    let mut ed = Editor::new();
    ed.buffer = "ec".to_string();
    let out = printed(ed.on_tab(&Vec::new()));
    assert_eq!(out, "ho ");
    assert_eq!(ed.buffer, "echo ");
    assert_eq!(ed.tab_presses, 0);
}

#[test]
fn multiple_candidates_ring_then_list() {
    let mut ed = Editor::new();
    ed.buffer = "e".to_string();
    // "e" is already the longest common prefix of echo/exit
    let out = printed(ed.on_tab(&Vec::new()));
    assert_eq!(out, "\u{7}");
    assert_eq!(ed.tab_presses, 1);
    let out = printed(ed.on_tab(&Vec::new()));
    assert_eq!(out, "\r\necho  exit\r\n$ e");
    assert_eq!(ed.buffer, "e");
}

#[test]
fn common_prefix_extension_comes_before_listing() {
    let mut ed = Editor::new();
    ed.buffer = "int".to_string();
    let path = vec!["interstate".to_string(), "interspecies".to_string()];
    let out = printed(ed.on_tab(&path));
    assert_eq!(out, "ers");
    assert_eq!(ed.buffer, "inters");
    assert_eq!(ed.tab_presses, 0);
}

#[test]
fn other_keys_reset_the_tab_counter() {
    let mut ed = Editor::new();
    ed.buffer = "e".to_string();
    ed.on_tab(&Vec::new());
    assert_eq!(ed.tab_presses, 1);
    ed.on_char('x');
    assert_eq!(ed.tab_presses, 0);
    // a fresh unproductive press rings the bell again instead of listing
    ed.buffer = "e".to_string();
    let out = match ed.on_tab(&Vec::new()) {
        EditorAction::Print(s) => s,
        _ => panic!("expected a print action"),
    };
    assert_eq!(out, "\u{7}");
}

#[test]
fn no_candidates_ring_the_bell() {
    let mut ed = Editor::new();
    ed.buffer = "zebra".to_string();
    let out = printed(ed.on_tab(&Vec::new()));
    assert_eq!(out, "\u{7}");
    assert_eq!(ed.tab_presses, 0);
}
