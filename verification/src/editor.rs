//! The interactive line editor as a state machine: the in-progress line,
//! the consecutive-tab counter and the history browse index, stepped one
//! key at a time. Each step returns exactly the bytes to print; the
//! caller reads keys, prints, and runs submitted lines.

use vstd::prelude::*;
use crate::completion::{completions_spec, lcp_spec};
use crate::strutil::{join_with_spec, trim_spec};

verus! {

/// The editor's state between keystrokes.
pub struct Editor {
    /// The in-progress line.
    pub buffer: String,
    /// How many tab presses in a row did not change the line.
    pub tab_presses: usize,
    /// Submitted (and read-in) command lines, oldest first.
    pub history: Vec<String>,
    /// The history browse position; `history.len()` means "past the end",
    /// editing a fresh line.
    pub history_index: usize,
}

/// The browse index never points past one beyond the last entry.
pub open spec fn editor_wf(ed: Editor) -> bool {
    ed.history_index <= ed.history@.len()
}

/// What one keystroke asks the caller to do.
pub enum EditorAction {
    /// Print these bytes and keep editing.
    Print(String),
    /// Print a newline, run this line, then redraw the prompt.
    Submit(String),
}

/// A keystroke, classified from its lead byte.
pub enum Key {
    Tab,
    Enter,
    Escape,
    Backspace,
    Other(char),
}

/// How a byte is dispatched: tab completes, newline submits, escape
/// starts an arrow sequence, delete rubs out, and anything else is
/// typed into the line.
pub open spec fn classify_byte_spec(b: u8) -> Key {
    if b == 9 {
        Key::Tab
    } else if b == 10 {
        Key::Enter
    } else if b == 27 {
        Key::Escape
    } else if b == 127 {
        Key::Backspace
    } else {
        Key::Other(b as char)
    }
}

/// Classify one input byte.
pub fn classify_byte(b: u8) -> (k: Key)
    ensures
        k == classify_byte_spec(b),
{
    if b == 9 {
        Key::Tab
    } else if b == 10 {
        Key::Enter
    } else if b == 27 {
        Key::Escape
    } else if b == 127 {
        Key::Backspace
    } else {
        Key::Other(b as char)
    }
}

/// The arrow keys recognized after an escape byte.
#[derive(Clone, Copy, PartialEq, Eq, Structural, Debug)]
pub enum ArrowKey {
    Up,
    Down,
    Neither,
}

/// The two bytes after an escape: `[ A` is up, `[ B` is down, anything
/// else is ignored.
pub open spec fn classify_escape_spec(b1: u8, b2: u8) -> ArrowKey {
    if b1 == 91 && b2 == 65 {
        ArrowKey::Up
    } else if b1 == 91 && b2 == 66 {
        ArrowKey::Down
    } else {
        ArrowKey::Neither
    }
}

/// Classify the two bytes of an escape sequence.
pub fn classify_escape(b1: u8, b2: u8) -> (k: ArrowKey)
    ensures
        k == classify_escape_spec(b1, b2),
{
    if b1 == 91 && b2 == 65 {
        ArrowKey::Up
    } else if b1 == 91 && b2 == 66 {
        ArrowKey::Down
    } else {
        ArrowKey::Neither
    }
}

/// The bytes that clear the visible line and redraw it with `new_buf`:
/// return to the prompt, blank the old text, return again, and write
/// the new text.
pub open spec fn redraw_output(old_buf: Seq<char>, new_buf: Seq<char>) -> Seq<char> {
    "\r$ "@ + Seq::new(old_buf.len(), |i: int| ' ') + "\r$ "@ + new_buf
}

/// The bytes that list all candidates on their own line and redraw the
/// prompt with the current buffer.
pub open spec fn list_output(cands: Seq<Seq<char>>, buf: Seq<char>) -> Seq<char> {
    "\r\n"@ + join_with_spec(cands, "  "@) + "\r\n"@ + "$ "@ + buf
}

/// The terminal bell.
pub open spec fn bell_output() -> Seq<char> {
    seq!['\u{7}']
}

/// The tab counter after one more unproductive press.
pub open spec fn bumped(n: usize) -> usize {
    if n < usize::MAX {
        (n + 1) as usize
    } else {
        n
    }
}

impl Editor {
    /// A fresh editor: empty line, no history, counter at zero.
    pub fn new() -> (ed: Editor)
        ensures
            editor_wf(ed),
            ed.buffer@ == Seq::<char>::empty(),
            ed.tab_presses == 0,
            ed.history@ == Seq::<String>::empty(),
            ed.history_index == 0,
    {
        Editor { buffer: String::new(), tab_presses: 0, history: Vec::new(), history_index: 0 }
    }

    /// Handle a tab press. `path_names` are the executable names found
    /// on the search path. One candidate completes the word and appends
    /// a space; several extend the line to their longest common prefix
    /// when that adds characters, ring the bell on the first unproductive
    /// press, and list all candidates from the second press on; none
    /// rings the bell.
    pub fn on_tab(&mut self, path_names: &Vec<String>) -> (act: EditorAction)
        requires
            editor_wf(*old(self)),
        ensures
            editor_wf(*final(self)),
            final(self).history == old(self).history,
            final(self).history_index == old(self).history_index,
            ({
                let cands = completions_spec(old(self).buffer@, path_names.deep_view());
                let lcp = lcp_spec(cands);
                if cands.len() == 1 {
                    &&& final(self).buffer@ == cands[0] + seq![' ']
                    &&& final(self).tab_presses == 0
                    &&& match act {
                        EditorAction::Print(out) => out@ == cands[0].skip(
                            old(self).buffer@.len() as int,
                        ) + seq![' '],
                        _ => false,
                    }
                } else if cands.len() > 1 && lcp.len() > old(self).buffer@.len() {
                    &&& final(self).buffer@ == lcp
                    &&& final(self).tab_presses == 0
                    &&& match act {
                        EditorAction::Print(out) => out@ == lcp.skip(
                            old(self).buffer@.len() as int,
                        ),
                        _ => false,
                    }
                } else if cands.len() > 1 {
                    &&& final(self).buffer == old(self).buffer
                    &&& final(self).tab_presses == bumped(old(self).tab_presses)
                    &&& match act {
                        EditorAction::Print(out) => out@ == if bumped(old(self).tab_presses)
                            == 1 {
                            bell_output()
                        } else {
                            list_output(cands, old(self).buffer@)
                        },
                        _ => false,
                    }
                } else {
                    &&& final(self).buffer == old(self).buffer
                    &&& final(self).tab_presses == 0
                    &&& match act {
                        EditorAction::Print(out) => out@ == bell_output(),
                        _ => false,
                    }
                }
            }),
    {
        let matches = crate::completion::find_completions(self.buffer.as_str(), path_names);
        let ghost cands = completions_spec(self.buffer@, path_names.deep_view());
        let buf_len = self.buffer.as_str().unicode_len();
        if matches.len() == 1 {
            let cand = &matches[0];
            proof {
                assert(matches.deep_view()[0] == matches@[0]@);
                assert(matches.deep_view().contains(cands[0])) by {
                    assert(matches.deep_view()[0] == cands[0]);
                }
                assert(crate::completion::is_candidate(
                    cands[0],
                    self.buffer@,
                    path_names.deep_view(),
                ));
                assert(crate::strutil::is_prefix_of(self.buffer@, cand@));
            }
            let suffix = crate::strutil::string_suffix(cand, buf_len);
            let mut out = suffix;
            out.push(' ');
            let mut new_buf = cand.clone();
            new_buf.push(' ');
            self.buffer = new_buf;
            self.tab_presses = 0;
            proof {
                assert(self.buffer@ =~= cands[0] + seq![' ']);
                assert(out@ =~= cands[0].skip(buf_len as int) + seq![' ']);
            }
            EditorAction::Print(out)
        } else if matches.len() > 1 {
            let mslice = matches.as_slice();
            proof {
                assert(mslice.deep_view() =~= matches.deep_view());
            }
            let lcp = crate::completion::get_longest_common_prefix(mslice);
            let lcp_len = lcp.as_str().unicode_len();
            if lcp_len > buf_len {
                let out = crate::strutil::string_suffix(&lcp, buf_len);
                self.buffer = lcp;
                self.tab_presses = 0;
                EditorAction::Print(out)
            } else {
                let n = self.tab_presses;
                self.tab_presses = if n < usize::MAX {
                    n + 1
                } else {
                    n
                };
                if self.tab_presses == 1 {
                    let mut out = String::new();
                    out.push('\u{7}');
                    proof {
                        assert(out@ =~= bell_output());
                    }
                    EditorAction::Print(out)
                } else {
                    let mut out = String::from_str("\r\n");
                    let list = crate::strutil::join_with(&matches, "  ");
                    out.append(list.as_str());
                    out.append("\r\n");
                    out.append("$ ");
                    out.append(self.buffer.as_str());
                    proof {
                        assert(out@ =~= list_output(cands, self.buffer@));
                    }
                    EditorAction::Print(out)
                }
            }
        } else {
            self.tab_presses = 0;
            let mut out = String::new();
            out.push('\u{7}');
            proof {
                assert(out@ =~= bell_output());
            }
            EditorAction::Print(out)
        }
    }

    /// Handle a newline: the trimmed line, when non-empty, is appended
    /// to history; the browse index moves past the end; the untrimmed
    /// line is handed back to run; the buffer is cleared.
    pub fn on_enter(&mut self) -> (act: EditorAction)
        requires
            editor_wf(*old(self)),
        ensures
            editor_wf(*final(self)),
            final(self).buffer@ == Seq::<char>::empty(),
            final(self).tab_presses == 0,
            final(self).history.deep_view() == if trim_spec(old(self).buffer@).len() > 0 {
                old(self).history.deep_view().push(trim_spec(old(self).buffer@))
            } else {
                old(self).history.deep_view()
            },
            final(self).history_index == final(self).history@.len(),
            match act {
                EditorAction::Submit(line) => line@ == old(self).buffer@,
                _ => false,
            },
    {
        self.tab_presses = 0;
        let trimmed = crate::strutil::trim(self.buffer.as_str());
        if !trimmed.as_str().is_empty() {
            let ghost pre = self.history.deep_view();
            self.history.push(trimmed);
            proof {
                assert(self.history.deep_view() =~= pre.push(trim_spec(old(self).buffer@)));
            }
        }
        self.history_index = self.history.len();
        let line = self.buffer.clone();
        self.buffer = String::new();
        EditorAction::Submit(line)
    }

    /// Handle the up arrow: step back through history, redrawing the
    /// line with the recalled entry; at the oldest entry, do nothing.
    pub fn on_up(&mut self) -> (act: EditorAction)
        requires
            editor_wf(*old(self)),
        ensures
            editor_wf(*final(self)),
            final(self).history == old(self).history,
            final(self).tab_presses == old(self).tab_presses,
            if old(self).history@.len() > 0 && old(self).history_index > 0 {
                &&& final(self).history_index == old(self).history_index - 1
                &&& final(self).buffer@ == old(self).history.deep_view()[old(
                    self,
                ).history_index - 1]
                &&& match act {
                    EditorAction::Print(out) => out@ == redraw_output(
                        old(self).buffer@,
                        final(self).buffer@,
                    ),
                    _ => false,
                }
            } else {
                &&& *final(self) == *old(self)
                &&& match act {
                    EditorAction::Print(out) => out@ == Seq::<char>::empty(),
                    _ => false,
                }
            },
    {
        if self.history.len() > 0 && self.history_index > 0 {
            self.history_index = self.history_index - 1;
            let entry = self.history[self.history_index].clone();
            proof {
                assert(self.history.deep_view()[self.history_index as int]
                    == self.history@[self.history_index as int]@);
            }
            let out = redraw_line(&self.buffer, &entry);
            self.buffer = entry;
            EditorAction::Print(out)
        } else {
            EditorAction::Print(String::new())
        }
    }

    /// Handle the down arrow: step forward through history, redrawing
    /// the recalled entry, or an empty line one past the newest entry;
    /// already there, do nothing.
    pub fn on_down(&mut self) -> (act: EditorAction)
        requires
            editor_wf(*old(self)),
        ensures
            editor_wf(*final(self)),
            final(self).history == old(self).history,
            final(self).tab_presses == old(self).tab_presses,
            if old(self).history@.len() > 0 && old(self).history_index < old(
                self,
            ).history@.len() {
                &&& final(self).history_index == old(self).history_index + 1
                &&& final(self).buffer@ == if old(self).history_index + 1 < old(
                    self,
                ).history@.len() {
                    old(self).history.deep_view()[old(self).history_index + 1]
                } else {
                    Seq::<char>::empty()
                }
                &&& match act {
                    EditorAction::Print(out) => out@ == redraw_output(
                        old(self).buffer@,
                        final(self).buffer@,
                    ),
                    _ => false,
                }
            } else {
                &&& *final(self) == *old(self)
                &&& match act {
                    EditorAction::Print(out) => out@ == Seq::<char>::empty(),
                    _ => false,
                }
            },
    {
        if self.history.len() > 0 && self.history_index < self.history.len() {
            self.history_index = self.history_index + 1;
            let entry = if self.history_index < self.history.len() {
                proof {
                    assert(self.history.deep_view()[self.history_index as int]
                        == self.history@[self.history_index as int]@);
                }
                self.history[self.history_index].clone()
            } else {
                String::new()
            };
            let out = redraw_line(&self.buffer, &entry);
            self.buffer = entry;
            EditorAction::Print(out)
        } else {
            EditorAction::Print(String::new())
        }
    }

    /// Handle a backspace: remove the last character, if any, and rub
    /// it out on screen.
    pub fn on_backspace(&mut self) -> (act: EditorAction)
        requires
            editor_wf(*old(self)),
        ensures
            editor_wf(*final(self)),
            final(self).history == old(self).history,
            final(self).history_index == old(self).history_index,
            final(self).tab_presses == 0,
            if old(self).buffer@.len() > 0 {
                &&& final(self).buffer@ == old(self).buffer@.drop_last()
                &&& match act {
                    EditorAction::Print(out) => out@ == seq!['\u{8}', ' ', '\u{8}'],
                    _ => false,
                }
            } else {
                &&& final(self).buffer == old(self).buffer
                &&& match act {
                    EditorAction::Print(out) => out@ == Seq::<char>::empty(),
                    _ => false,
                }
            },
    {
        self.tab_presses = 0;
        if !self.buffer.as_str().is_empty() {
            let shorter = crate::strutil::string_drop_last(&self.buffer);
            self.buffer = shorter;
            let mut out = String::new();
            out.push('\u{8}');
            out.push(' ');
            out.push('\u{8}');
            proof {
                assert(out@ =~= seq!['\u{8}', ' ', '\u{8}']);
            }
            EditorAction::Print(out)
        } else {
            EditorAction::Print(String::new())
        }
    }

    /// Handle an ordinary character: append it to the line and echo it.
    pub fn on_char(&mut self, c: char) -> (act: EditorAction)
        requires
            editor_wf(*old(self)),
        ensures
            editor_wf(*final(self)),
            final(self).history == old(self).history,
            final(self).history_index == old(self).history_index,
            final(self).tab_presses == 0,
            final(self).buffer@ == old(self).buffer@.push(c),
            match act {
                EditorAction::Print(out) => out@ == seq![c],
                _ => false,
            },
    {
        self.tab_presses = 0;
        self.buffer.push(c);
        EditorAction::Print(crate::strutil::char_to_string(c))
    }
}

/// Build the redraw bytes of [`redraw_output`].
fn redraw_line(old_buf: &String, new_buf: &String) -> (r: String)
    ensures
        r@ == redraw_output(old_buf@, new_buf@),
{
    let n = old_buf.as_str().unicode_len();
    let mut r = String::from_str("\r$ ");
    let blanks = crate::strutil::spaces(n);
    r.append(blanks.as_str());
    r.append("\r$ ");
    r.append(new_buf.as_str());
    r
}

} // verus!
