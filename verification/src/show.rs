use vstd::prelude::*;

use crate::keys::{is_char, is_quit, quits, sat_sub, Key, KeyPress};
use crate::paths::{contains_text, text_contains, texts};
use crate::text::{chars_of, copy_string, push_char, push_string, string_of};
use crate::values::{decimal, push_decimal};

verus! {

/// What the text viewer is doing with the keyboard.
#[derive(PartialEq, Eq, Structural, Clone, Copy, Debug)]
pub enum ShowMode {
    Normal,
    Search,
    Save,
}

/// The state of the fullscreen text viewer.
pub struct ShowState {
    pub scroll: usize,
    pub mode: ShowMode,
    pub search_query: String,
    pub search_matches: Vec<usize>,
    pub search_idx: usize,
    pub save_path: String,
    pub status_msg: Option<String>,
}

/// The model of the text viewer's state.
pub struct ShowView {
    pub scroll: usize,
    pub mode: ShowMode,
    pub query: Seq<char>,
    pub matches: Seq<usize>,
    pub idx: usize,
    pub save_path: Seq<char>,
    pub status: Option<Seq<char>>,
}

/// What the event loop must do after a key.
pub enum ShowAction {
    Continue,
    Quit,
    /// Write `text` to the file `path`, then report with `save_outcome`.
    Save { path: String, text: String },
}

/// The model of an action.
pub enum ShowActionV {
    Continue,
    Quit,
    Save { path: Seq<char>, text: Seq<char> },
}

impl ShowAction {
    pub open spec fn model(&self) -> ShowActionV {
        match self {
            ShowAction::Continue => ShowActionV::Continue,
            ShowAction::Quit => ShowActionV::Quit,
            ShowAction::Save { path, text } => ShowActionV::Save { path: path@, text: text@ },
        }
    }
}

impl ShowState {
    pub open spec fn view(&self) -> ShowView {
        ShowView {
            scroll: self.scroll,
            mode: self.mode,
            query: self.search_query@,
            matches: self.search_matches@,
            idx: self.search_idx,
            save_path: self.save_path@,
            status: match self.status_msg {
                Some(s) => Some(s@),
                None => None,
            },
        }
    }

    /// The current match is one of the matches, when there are any.
    pub open spec fn wf(&self) -> bool {
        self.search_matches@.len() == 0 || self.search_idx < self.search_matches@.len()
    }

    /// The viewer at the top, with no search.
    pub fn new() -> (s: ShowState)
        ensures
            s.wf(),
            s.view() == (ShowView {
                scroll: 0,
                mode: ShowMode::Normal,
                query: seq![],
                matches: seq![],
                idx: 0,
                save_path: seq![],
                status: None,
            }),
    {
        ShowState {
            scroll: 0,
            mode: ShowMode::Normal,
            search_query: String::new(),
            search_matches: Vec::new(),
            search_idx: 0,
            save_path: String::new(),
            status_msg: None,
        }
    }
}

/// The indices of the lines that contain `query`, in order.
pub open spec fn matching_lines(lines: Seq<Seq<char>>, query: Seq<char>) -> Seq<usize>
    decreases lines.len(),
{
    if lines.len() == 0 {
        seq![]
    } else {
        let rest = matching_lines(lines.drop_last(), query);
        if contains_text(lines.last(), query) {
            rest.push((lines.len() - 1) as usize)
        } else {
            rest
        }
    }
}

/// The lines joined by line feeds, with a final line feed.
pub open spec fn joined_text(lines: Seq<Seq<char>>) -> Seq<char>
    decreases lines.len(),
{
    if lines.len() == 0 {
        "\n"@
    } else if lines.len() == 1 {
        lines[0] + "\n"@
    } else {
        joined_text(lines.drop_last()).drop_last() + "\n"@ + lines.last() + "\n"@
    }
}

/// The message after a search.
pub open spec fn search_note(query: Seq<char>, n: nat) -> Seq<char> {
    if n == 0 {
        "No matches for '"@ + query + "'"@
    } else {
        decimal(n) + " matches"@
    }
}

/// The viewer's state and action after a key, for `lines` with `visible` rows shown.
pub open spec fn show_step(s: ShowView, k: KeyPress, lines: Seq<Seq<char>>, visible: int) -> (ShowView, ShowActionV) {
    let total = lines.len() as int;
    match s.mode {
        ShowMode::Normal => {
            let s0 = ShowView { status: None, ..s };
            let go = |t: ShowView| (t, ShowActionV::Continue);
            if quits(k) {
                (s0, ShowActionV::Quit)
            } else if k.code == Key::Char('j') || k.code == Key::Down {
                go(
                    if s.scroll + 1 < total {
                        ShowView { scroll: (s.scroll + 1) as usize, ..s0 }
                    } else {
                        s0
                    },
                )
            } else if k.code == Key::Char('k') || k.code == Key::Up {
                go(ShowView { scroll: sat_sub(s.scroll as int, 1) as usize, ..s0 })
            } else if k.code == Key::PageDown {
                let a = sat_sub(total, 1);
                let b = s.scroll + visible;
                go(
                    ShowView {
                        scroll: (if a <= b {
                            a
                        } else {
                            b
                        }) as usize,
                        ..s0
                    },
                )
            } else if k.code == Key::PageUp {
                go(ShowView { scroll: sat_sub(s.scroll as int, visible) as usize, ..s0 })
            } else if k.code == Key::Char('g') || k.code == Key::Home {
                go(ShowView { scroll: 0, ..s0 })
            } else if k.code == Key::Char('G') || k.code == Key::End {
                go(ShowView { scroll: sat_sub(total, visible) as usize, ..s0 })
            } else if k.code == Key::Char('/') {
                go(ShowView { mode: ShowMode::Search, query: seq![], ..s0 })
            } else if k.code == Key::Char('n') {
                go(
                    if s.matches.len() > 0 {
                        let i = ((s.idx + 1) % (s.matches.len() as int)) as usize;
                        ShowView { idx: i, scroll: s.matches[i as int], ..s0 }
                    } else {
                        s0
                    },
                )
            } else if k.code == Key::Char('N') {
                go(
                    if s.matches.len() > 0 {
                        let i = (if s.idx > 0 {
                            s.idx - 1
                        } else {
                            s.matches.len() - 1
                        }) as usize;
                        ShowView { idx: i, scroll: s.matches[i as int], ..s0 }
                    } else {
                        s0
                    },
                )
            } else if k.code == Key::Char('s') {
                go(ShowView { mode: ShowMode::Save, save_path: seq![], ..s0 })
            } else {
                go(s0)
            }
        },
        ShowMode::Search => {
            if k.code == Key::Enter {
                let m = matching_lines(lines, s.query);
                (
                    ShowView {
                        matches: m,
                        idx: 0,
                        scroll: if m.len() > 0 {
                            m[0]
                        } else {
                            s.scroll
                        },
                        mode: ShowMode::Normal,
                        status: Some(search_note(s.query, m.len())),
                        ..s
                    },
                    ShowActionV::Continue,
                )
            } else if k.code == Key::Esc {
                (ShowView { mode: ShowMode::Normal, matches: seq![], ..s }, ShowActionV::Continue)
            } else if k.code == Key::Backspace {
                (
                    ShowView {
                        query: if s.query.len() > 0 {
                            s.query.drop_last()
                        } else {
                            s.query
                        },
                        ..s
                    },
                    ShowActionV::Continue,
                )
            } else {
                match k.code {
                    Key::Char(c) => (ShowView { query: s.query.push(c), ..s }, ShowActionV::Continue),
                    _ => (s, ShowActionV::Continue),
                }
            }
        },
        ShowMode::Save => {
            if k.code == Key::Enter {
                let t = ShowView { mode: ShowMode::Normal, ..s };
                if s.save_path.len() > 0 {
                    (t, ShowActionV::Save { path: s.save_path, text: joined_text(lines) })
                } else {
                    (t, ShowActionV::Continue)
                }
            } else if k.code == Key::Esc {
                (ShowView { mode: ShowMode::Normal, ..s }, ShowActionV::Continue)
            } else if k.code == Key::Backspace {
                (
                    ShowView {
                        save_path: if s.save_path.len() > 0 {
                            s.save_path.drop_last()
                        } else {
                            s.save_path
                        },
                        ..s
                    },
                    ShowActionV::Continue,
                )
            } else {
                match k.code {
                    Key::Char(c) => (ShowView { save_path: s.save_path.push(c), ..s }, ShowActionV::Continue),
                    _ => (s, ShowActionV::Continue),
                }
            }
        },
    }
}

fn drop_last_char(s: &String) -> (out: String)
    ensures
        out@ == if s@.len() > 0 {
            s@.drop_last()
        } else {
            s@
        },
{
    let mut cs = chars_of(s.as_str());
    if cs.len() > 0 {
        cs.pop();
    }
    let out = string_of(&cs);
    proof {
        if s@.len() > 0 {
            assert(out@ =~= s@.drop_last());
        } else {
            assert(out@ =~= s@);
        }
    }
    out
}

fn find_matches(lines: &Vec<String>, query: &String) -> (m: Vec<usize>)
    ensures
        m@ == matching_lines(texts(lines@), query@),
{
    let ghost ls = texts(lines@);
    let mut m: Vec<usize> = Vec::new();
    let mut i: usize = 0;
    proof {
        assert(ls.take(0) =~= Seq::<Seq<char>>::empty());
    }
    while i < lines.len()
        invariant
            i <= lines.len(),
            ls == texts(lines@),
            m@ == matching_lines(ls.take(i as int), query@),
        decreases lines.len() - i,
    {
        proof {
            assert(ls.take(i + 1).drop_last() =~= ls.take(i as int));
            assert(ls.take(i + 1).last() == lines@[i as int]@);
        }
        if text_contains(&lines[i], query) {
            m.push(i);
        }
        i += 1;
    }
    proof {
        assert(ls.take(lines.len() as int) =~= ls);
    }
    m
}

/// The lines joined by line feeds, with a final line feed.
pub fn join_lines(lines: &Vec<String>) -> (out: String)
    ensures
        out@ == joined_text(texts(lines@)),
{
    let ghost ls = texts(lines@);
    let mut out = String::new();
    let mut i: usize = 0;
    while i < lines.len()
        invariant
            i <= lines.len(),
            ls == texts(lines@),
            i == 0 ==> out@ == Seq::<char>::empty(),
            i > 0 ==> out@ + "\n"@ == joined_text(ls.take(i as int)),
        decreases lines.len() - i,
    {
        proof {
            reveal_strlit("\n");
            assert(ls.take(i + 1).drop_last() =~= ls.take(i as int));
            assert(ls.take(i + 1).last() == lines@[i as int]@);
        }
        if i > 0 {
            push_char(&mut out, '\n');
        }
        push_string(&mut out, &lines[i]);
        proof {
            let prev = joined_text(ls.take(i as int));
            if i > 0 {
                assert((out@ + "\n"@).drop_last() =~= out@);
                assert(prev.drop_last() + "\n"@ + lines@[i as int]@ == out@) by {
                    assert(prev.drop_last() =~= out@.subrange(0, prev.len() - 1));
                }
            }
            assert(out@ + "\n"@ =~= joined_text(ls.take(i + 1)));
        }
        i += 1;
    }
    push_char(&mut out, '\n');
    proof {
        reveal_strlit("\n");
        assert(ls.take(lines.len() as int) =~= ls);
        assert(out@ =~= joined_text(ls));
    }
    out
}

fn search_message(query: &String, n: usize) -> (s: String)
    ensures
        s@ == search_note(query@, n as nat),
{
    let mut s = String::new();
    if n == 0 {
        s.append("No matches for '");
        push_string(&mut s, query);
        s.append("'");
    } else {
        push_decimal(&mut s, n);
        s.append(" matches");
    }
    s
}

/// In the viewer with matches, `N` steps back to the previous match (from
/// the first one, round to the last) and scrolls to its line, and `n` steps
/// forward (from the last one, round to the first); so `n` then `N`, and
/// `N` then `n`, come back to the same match and its line.
pub proof fn lemma_match_steps(s: ShowView, lines: Seq<Seq<char>>, visible: int, ctrl: bool)
    requires
        s.mode == ShowMode::Normal,
        s.matches.len() > 0,
        s.matches.len() <= usize::MAX,
        s.idx < s.matches.len(),
    ensures
        ({
            let back = show_step(s, KeyPress { code: Key::Char('N'), ctrl }, lines, visible);
            let fwd = show_step(s, KeyPress { code: Key::Char('n'), ctrl }, lines, visible);
            let p: int = if s.idx > 0 {
                s.idx - 1
            } else {
                s.matches.len() - 1
            };
            let q: int = if s.idx + 1 < s.matches.len() {
                s.idx + 1
            } else {
                0
            };
            &&& back.1 == ShowActionV::Continue
            &&& back.0.idx == p
            &&& back.0.scroll == s.matches[p]
            &&& back.0.matches == s.matches
            &&& back.0.mode == ShowMode::Normal
            &&& fwd.1 == ShowActionV::Continue
            &&& fwd.0.idx == q
            &&& fwd.0.scroll == s.matches[q]
            &&& fwd.0.matches == s.matches
            &&& fwd.0.mode == ShowMode::Normal
            &&& show_step(back.0, KeyPress { code: Key::Char('n'), ctrl }, lines, visible).0.idx == s.idx
            &&& show_step(back.0, KeyPress { code: Key::Char('n'), ctrl }, lines, visible).0.scroll == s.matches[s.idx as int]
            &&& show_step(fwd.0, KeyPress { code: Key::Char('N'), ctrl }, lines, visible).0.idx == s.idx
            &&& show_step(fwd.0, KeyPress { code: Key::Char('N'), ctrl }, lines, visible).0.scroll == s.matches[s.idx as int]
        }),
{
    let len = s.matches.len() as int;
    vstd::arithmetic::div_mod::lemma_mod_self_0(len);
    if s.idx + 1 < len {
        vstd::arithmetic::div_mod::lemma_small_mod((s.idx + 1) as nat, len as nat);
    }
    if s.idx > 0 {
        vstd::arithmetic::div_mod::lemma_small_mod(s.idx as nat, len as nat);
    }
    let kb = KeyPress { code: Key::Char('N'), ctrl };
    let kf = KeyPress { code: Key::Char('n'), ctrl };
    assert(!quits(kb) && !quits(kf));
    let back = show_step(s, kb, lines, visible);
    let fwd = show_step(s, kf, lines, visible);
    assert(back.1 == ShowActionV::Continue);
    assert(back.0.idx == (if s.idx > 0 { s.idx - 1 } else { len - 1 }));
    assert(fwd.0.idx == (if s.idx + 1 < len { s.idx + 1 } else { 0 }));
    assert(back.0.matches == s.matches && back.0.mode == ShowMode::Normal);
    assert(fwd.0.matches == s.matches && fwd.0.mode == ShowMode::Normal);
    let bf = show_step(back.0, kf, lines, visible);
    let fb = show_step(fwd.0, kb, lines, visible);
    if back.0.idx + 1 < len {
        vstd::arithmetic::div_mod::lemma_small_mod((back.0.idx + 1) as nat, len as nat);
    }
    assert(bf.0.idx == s.idx);
    assert(fb.0.idx == s.idx);
}

/// Apply a key to the text viewer showing `lines`, `visible` rows at a time.
pub fn show_key(state: &mut ShowState, key: &KeyPress, lines: &Vec<String>, visible: usize) -> (action: ShowAction)
    requires
        old(state).wf(),
        old(state).scroll < usize::MAX,
        old(state).scroll + visible <= usize::MAX,
    ensures
        final(state).wf(),
        (final(state).view(), action.model()) == show_step(old(state).view(), *key, texts(lines@), visible as int),
{
    let total = lines.len();
    match state.mode {
        ShowMode::Normal => {
            state.status_msg = None;
            if is_quit(key) {
                return ShowAction::Quit;
            }
            if is_char(key, 'j') || key.code == Key::Down {
                if state.scroll + 1 < total {
                    state.scroll = state.scroll + 1;
                }
            } else if is_char(key, 'k') || key.code == Key::Up {
                if state.scroll > 0 {
                    state.scroll = state.scroll - 1;
                }
            } else if key.code == Key::PageDown {
                let a = if total > 0 {
                    total - 1
                } else {
                    0
                };
                let b = state.scroll + visible;
                state.scroll = if a <= b {
                    a
                } else {
                    b
                };
            } else if key.code == Key::PageUp {
                state.scroll = if state.scroll >= visible {
                    state.scroll - visible
                } else {
                    0
                };
            } else if is_char(key, 'g') || key.code == Key::Home {
                state.scroll = 0;
            } else if is_char(key, 'G') || key.code == Key::End {
                state.scroll = if total >= visible {
                    total - visible
                } else {
                    0
                };
            } else if is_char(key, '/') {
                state.mode = ShowMode::Search;
                state.search_query = String::new();
            } else if is_char(key, 'n') {
                if state.search_matches.len() > 0 {
                    state.search_idx = (state.search_idx + 1) % state.search_matches.len();
                    state.scroll = state.search_matches[state.search_idx];
                }
            } else if is_char(key, 'N') {
                if state.search_matches.len() > 0 {
                    state.search_idx = if state.search_idx > 0 {
                        state.search_idx - 1
                    } else {
                        state.search_matches.len() - 1
                    };
                    state.scroll = state.search_matches[state.search_idx];
                }
            } else if is_char(key, 's') {
                state.mode = ShowMode::Save;
                state.save_path = String::new();
            }
            ShowAction::Continue
        },
        ShowMode::Search => {
            if key.code == Key::Enter {
                let m = find_matches(lines, &state.search_query);
                let msg = search_message(&state.search_query, m.len());
                if m.len() > 0 {
                    state.scroll = m[0];
                }
                state.search_matches = m;
                state.search_idx = 0;
                state.mode = ShowMode::Normal;
                state.status_msg = Some(msg);
            } else if key.code == Key::Esc {
                state.mode = ShowMode::Normal;
                state.search_matches = Vec::new();
            } else if key.code == Key::Backspace {
                state.search_query = drop_last_char(&state.search_query);
            } else {
                match key.code {
                    Key::Char(c) => {
                        push_char(&mut state.search_query, c);
                    },
                    _ => {},
                }
            }
            ShowAction::Continue
        },
        ShowMode::Save => {
            if key.code == Key::Enter {
                let path = copy_string(&state.save_path);
                state.mode = ShowMode::Normal;
                if path.as_str().unicode_len() > 0 {
                    let text = join_lines(lines);
                    return ShowAction::Save { path, text };
                }
            } else if key.code == Key::Esc {
                state.mode = ShowMode::Normal;
            } else if key.code == Key::Backspace {
                state.save_path = drop_last_char(&state.save_path);
            } else {
                match key.code {
                    Key::Char(c) => {
                        push_char(&mut state.save_path, c);
                    },
                    _ => {},
                }
            }
            ShowAction::Continue
        },
    }
}

/// The message after writing the file `path`: where it went, or the error.
pub open spec fn save_note(path: Seq<char>, error: Option<Seq<char>>) -> Seq<char> {
    match error {
        None => "Saved to "@ + path,
        Some(e) => "Error: "@ + e,
    }
}

/// Reports the outcome of a save in the status line.
pub fn save_outcome(state: &mut ShowState, path: &String, error: Option<String>)
    ensures
        final(state).view() == (ShowView {
            status: Some(save_note(
                path@,
                match error {
                    Some(e) => Some(e@),
                    None => None,
                },
            )),
            ..old(state).view()
        }),
        final(state).wf() == old(state).wf(),
{
    let mut s = String::new();
    match error {
        None => {
            s.append("Saved to ");
            push_string(&mut s, path);
        },
        Some(e) => {
            s.append("Error: ");
            push_string(&mut s, &e);
        },
    }
    state.status_msg = Some(s);
}

} // verus!
