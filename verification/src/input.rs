//! The line editor: a state machine over one key event at a time. The
//! buffer is a character vector and the cursor a character index, so the
//! cursor always sits on a character boundary by construction. The
//! terminal driver reads keys, calls [`EditorState::apply_key`], fetches
//! completion candidates on request, and redraws.

use vstd::prelude::*;

use crate::chars::{
    charss_view, chars_eq, chars_prefix, chars_to_string, split_ws, split_ws_chars, str_to_chars,
    subvec,
};

verus! {

/// The editor's state while one line is being read.
pub struct EditorState {
    /// The input buffer.
    pub input: Vec<char>,
    /// The cursor, as a character index into `input`.
    pub cursor: usize,
    /// Past lines, oldest first.
    pub history: Vec<Vec<char>>,
    /// The history entry shown while browsing.
    pub history_index: Option<usize>,
    /// The buffer saved when history browsing started.
    pub temp_input: Vec<char>,
    /// Whether a hint was just accepted.
    pub matched_hint: bool,
    /// The prompt text.
    pub prompt: String,
    /// The completion candidates.
    pub completions: Vec<String>,
    /// The highlighted candidate.
    pub completion_index: usize,
    /// Whether the candidate list is shown.
    pub show_completions: bool,
}

/// The mathematical value of an [`EditorState`].
#[verifier::ext_equal]
pub ghost struct EditorV {
    pub input: Seq<char>,
    pub cursor: nat,
    pub history: Seq<Seq<char>>,
    pub history_index: Option<nat>,
    pub temp_input: Seq<char>,
    pub matched_hint: bool,
    pub prompt: Seq<char>,
    pub completions: Seq<Seq<char>>,
    pub completion_index: nat,
    pub show_completions: bool,
}

impl View for EditorState {
    type V = EditorV;

    open spec fn view(&self) -> EditorV {
        EditorV {
            input: self.input@,
            cursor: self.cursor as nat,
            history: charss_view(self.history@),
            history_index: match self.history_index {
                Some(i) => Some(i as nat),
                None => None,
            },
            temp_input: self.temp_input@,
            matched_hint: self.matched_hint,
            prompt: self.prompt@,
            completions: self.completions.deep_view(),
            completion_index: self.completion_index as nat,
            show_completions: self.show_completions,
        }
    }
}

/// The editor's invariant: the cursor stays inside the buffer, a history
/// index names an entry, and a shown, non-empty candidate list has its
/// highlight in range.
pub open spec fn editor_inv(v: EditorV) -> bool {
    &&& v.cursor <= v.input.len()
    &&& (v.history_index matches Some(i) ==> i < v.history.len())
    &&& (v.show_completions && v.completions.len() > 0 ==> v.completion_index
        < v.completions.len())
}

/// The hint for a buffer: the most recent history entry that starts with
/// the buffer and is not the buffer itself; an empty buffer has none.
pub open spec fn hint_of(history: Seq<Seq<char>>, input: Seq<char>) -> Option<Seq<char>>
    decreases history.len(),
{
    if input.len() == 0 {
        None
    } else if history.len() == 0 {
        None
    } else if input.is_prefix_of(history.last()) && history.last() != input {
        Some(history.last())
    } else {
        hint_of(history.drop_last(), input)
    }
}

/// The cursor one character to the left, stopping at the start.
pub open spec fn left_of(c: nat) -> nat {
    if c == 0 {
        0
    } else {
        (c - 1) as nat
    }
}

/// The cursor one character to the right, stopping at the end.
pub open spec fn right_of(c: nat, len: nat) -> nat {
    if c >= len {
        len
    } else {
        c + 1
    }
}

impl EditorState {
    /// A fresh editor over the given history, with an empty buffer.
    pub fn new(history: &[String], prompt: String) -> (r: EditorState)
        ensures
            r@.input == Seq::<char>::empty(),
            r@.cursor == 0,
            r@.history == history.deep_view(),
            r@.history_index is None,
            r@.temp_input == Seq::<char>::empty(),
            r@.matched_hint == false,
            r@.prompt == prompt@,
            r@.completions == Seq::<Seq<char>>::empty(),
            r@.completion_index == 0,
            r@.show_completions == false,
            editor_inv(r@),
    {
        let mut h: Vec<Vec<char>> = Vec::new();
        let mut i: usize = 0;
        while i < history.len()
            invariant
                i <= history@.len(),
                charss_view(h@) == history.deep_view().subrange(0, i as int),
            decreases history@.len() - i,
        {
            let ghost hpre = h@;
            h.push(str_to_chars(history[i].as_str()));
            i = i + 1;
            proof {
                crate::chars::lemma_charss_view_push(hpre, h@.last());
                assert(charss_view(h@) =~= history.deep_view().subrange(0, i as int));
            }
        }
        assert(history.deep_view().subrange(0, history@.len() as int) =~= history.deep_view());
        let r = EditorState {
            input: Vec::new(),
            cursor: 0,
            history: h,
            history_index: None,
            temp_input: Vec::new(),
            matched_hint: false,
            prompt,
            completions: Vec::new(),
            completion_index: 0,
            show_completions: false,
        };
        proof {
            assert(r@.completions =~= Seq::<Seq<char>>::empty());
        }
        r
    }

    /// The cursor moved one character left, stopping at the start.
    pub fn move_cursor_left(&self) -> (r: usize)
        ensures
            r == left_of(self@.cursor),
    {
        if self.cursor == 0 {
            0
        } else {
            self.cursor - 1
        }
    }

    /// The cursor moved one character right, stopping at the end.
    pub fn move_cursor_right(&self) -> (r: usize)
        ensures
            r == right_of(self@.cursor, self@.input.len()),
    {
        if self.cursor >= self.input.len() {
            self.input.len()
        } else {
            self.cursor + 1
        }
    }

    /// The hint's characters, scanning the history newest to oldest.
    fn hint_chars(&self) -> (r: Option<Vec<char>>)
        ensures
            match r {
                Some(h) => hint_of(self@.history, self@.input) == Some(h@),
                None => hint_of(self@.history, self@.input) is None,
            },
    {
        let ghost hist = self@.history;
        if self.input.len() == 0 {
            return None;
        }
        let mut i: usize = self.history.len();
        assert(hist.subrange(0, i as int) =~= hist);
        while i > 0
            invariant
                i <= self.history@.len(),
                hist == self@.history,
                self@.input.len() > 0,
                hint_of(hist, self@.input) == hint_of(hist.subrange(0, i as int), self@.input),
            decreases i,
        {
            let ghost sub = hist.subrange(0, i as int);
            let e = &self.history[i - 1];
            if chars_prefix(e, &self.input) && !chars_eq(e, &self.input) {
                proof {
                    assert(sub.last() == hist[i - 1]);
                }
                return Some(subvec(e, 0, e.len()));
            }
            i = i - 1;
            proof {
                assert(sub.last() == hist[i as int]);
                assert(sub.drop_last() =~= hist.subrange(0, i as int));
            }
        }
        assert(hist.subrange(0, 0) =~= Seq::<Seq<char>>::empty());
        None
    }

    /// The hint for the current buffer, if any.
    pub fn get_hint(&self) -> (r: Option<String>)
        ensures
            r.deep_view() == hint_of(self@.history, self@.input),
    {
        match self.hint_chars() {
            Some(h) => Some(chars_to_string(&h)),
            None => None,
        }
    }
}

/// A hint is always a proper extension of the buffer it was found for:
/// the buffer is a prefix of it, and it is strictly longer.
pub proof fn lemma_hint_extends_buffer(history: Seq<Seq<char>>, input: Seq<char>, h: Seq<char>)
    requires
        hint_of(history, input) == Some(h),
    ensures
        input.is_prefix_of(h),
        h != input,
        h.len() > input.len(),
    decreases history.len(),
{
    if input.len() == 0 || history.len() == 0 {
    } else if input.is_prefix_of(history.last()) && history.last() != input {
        assert(input.len() <= h.len());
        if h.len() == input.len() {
            assert(input =~= h);
        }
    } else {
        lemma_hint_extends_buffer(history.drop_last(), input, h);
    }
}

impl EditorState {
    /// The part of the hint that extends the buffer, shown after it in a
    /// distinguishing style.
    pub fn hint_suffix(&self) -> (r: Option<String>)
        ensures
            match r {
                Some(s) => hint_of(self@.history, self@.input) matches Some(h) && s@ == h.skip(
                    self@.input.len() as int,
                ),
                None => hint_of(self@.history, self@.input) is None,
            },
    {
        match self.hint_chars() {
            Some(h) => {
                proof {
                    lemma_hint_extends_buffer(self@.history, self@.input, h@);
                }
                let rest = subvec(&h, self.input.len(), h.len());
                assert(rest@ =~= h@.skip(self@.input.len() as int));
                Some(chars_to_string(&rest))
            },
            None => None,
        }
    }
}

/// The longest of the given lengths, zero when there are none.
pub open spec fn max_len(ls: Seq<usize>) -> nat
    decreases ls.len(),
{
    if ls.len() == 0 {
        0
    } else {
        let m = max_len(ls.drop_last());
        if ls.last() >= m {
            ls.last() as nat
        } else {
            m
        }
    }
}

/// The completion grid's shape: the cell width is the widest candidate
/// plus two spaces, and as many cells fit per row as the terminal width
/// allows, at least one.
pub fn grid_layout(width: usize, lengths: &Vec<usize>) -> (r: (usize, usize))
    requires
        max_len(lengths@) + 2 <= usize::MAX,
    ensures
        r.0 == max_len(lengths@) + 2,
        r.1 == (if width as int / (max_len(lengths@) + 2) as int >= 1 {
            width as int / (max_len(lengths@) + 2) as int
        } else {
            1
        }),
{
    let mut mx: usize = 0;
    let mut i: usize = 0;
    assert(lengths@.subrange(0, 0) =~= Seq::<usize>::empty());
    while i < lengths.len()
        invariant
            i <= lengths@.len(),
            mx == max_len(lengths@.subrange(0, i as int)),
            max_len(lengths@.subrange(0, i as int)) <= max_len(lengths@),
        decreases lengths@.len() - i,
    {
        let ghost pre = lengths@.subrange(0, i as int);
        if lengths[i] > mx {
            mx = lengths[i];
        }
        i = i + 1;
        proof {
            let cur = lengths@.subrange(0, i as int);
            assert(cur.drop_last() =~= pre);
            assert(cur.last() == lengths@[i - 1]);
            lemma_max_len_monotone(lengths@, i as int);
        }
    }
    assert(lengths@.subrange(0, lengths@.len() as int) =~= lengths@);
    let cell = mx + 2;
    let cols = width / cell;
    if cols == 0 {
        (cell, 1)
    } else {
        (cell, cols)
    }
}

proof fn lemma_max_len_monotone(ls: Seq<usize>, i: int)
    requires
        0 <= i <= ls.len(),
    ensures
        max_len(ls.subrange(0, i)) <= max_len(ls),
    decreases ls.len() - i,
{
    if i == ls.len() {
        assert(ls.subrange(0, i) =~= ls);
    } else {
        lemma_max_len_monotone(ls, i + 1);
        let a = ls.subrange(0, i);
        let b = ls.subrange(0, i + 1);
        assert(b.drop_last() =~= a);
        assert(max_len(a) <= max_len(b));
    }
}

/// One key event, as the terminal driver reports it.
#[derive(Debug, PartialEq, Eq, Structural, Clone, Copy)]
pub enum Key {
    Char(char),
    Backspace,
    Left,
    Right,
    Up,
    Down,
    Enter,
    Tab,
    CtrlC,
}

/// What the driver does after a key was applied.
#[derive(Debug, PartialEq, Eq, Structural, Clone, Copy)]
pub enum EditorAction {
    /// Redraw and read the next key.
    Redraw,
    /// The line is finished: return the buffer.
    Submit,
    /// The line was cancelled: the buffer is empty, return it.
    Cancel,
    /// Compute completion candidates, hand them back, then redraw.
    NeedCompletions,
}

/// The editor's transition on one key.
pub open spec fn step(v: EditorV, k: Key) -> EditorV {
    match k {
        Key::Enter => if v.show_completions {
            EditorV { show_completions: false, completions: Seq::empty(), ..v }
        } else {
            v
        },
        Key::Tab => if !v.show_completions {
            v
        } else if v.completions.len() > 0 {
            EditorV { completion_index: (v.completion_index + 1) % v.completions.len(), ..v }
        } else {
            v
        },
        Key::Char(c) => EditorV {
            input: v.input.insert(v.cursor as int, c),
            cursor: v.cursor + 1,
            matched_hint: false,
            show_completions: false,
            ..v
        },
        Key::Backspace => if v.cursor > 0 {
            EditorV {
                input: v.input.remove(v.cursor - 1),
                cursor: (v.cursor - 1) as nat,
                matched_hint: false,
                show_completions: false,
                ..v
            }
        } else {
            v
        },
        Key::Left => EditorV {
            cursor: left_of(v.cursor),
            matched_hint: false,
            show_completions: false,
            ..v
        },
        Key::Right => if v.cursor == v.input.len() {
            match hint_of(v.history, v.input) {
                Some(h) => EditorV {
                    input: h,
                    cursor: h.len(),
                    matched_hint: true,
                    show_completions: false,
                    ..v
                },
                None => EditorV { show_completions: false, ..v },
            }
        } else {
            EditorV { cursor: v.cursor + 1, show_completions: false, ..v }
        },
        Key::Up => if v.history.len() == 0 {
            EditorV { show_completions: false, ..v }
        } else {
            let idx = match v.history_index {
                None => (v.history.len() - 1) as nat,
                Some(i) => if i > 0 {
                    (i - 1) as nat
                } else {
                    i
                },
            };
            let temp = match v.history_index {
                None => v.input,
                Some(i) => v.temp_input,
            };
            EditorV {
                history_index: Some(idx),
                temp_input: temp,
                input: v.history[idx as int],
                cursor: v.history[idx as int].len(),
                matched_hint: false,
                show_completions: false,
                ..v
            }
        },
        Key::Down => match v.history_index {
            Some(i) => if i + 1 < v.history.len() {
                EditorV {
                    history_index: Some(i + 1),
                    input: v.history[i + 1 as int],
                    cursor: v.history[i + 1 as int].len(),
                    matched_hint: false,
                    show_completions: false,
                    ..v
                }
            } else {
                EditorV {
                    history_index: None,
                    input: v.temp_input,
                    cursor: v.temp_input.len(),
                    matched_hint: false,
                    show_completions: false,
                    ..v
                }
            },
            None => EditorV { show_completions: false, ..v },
        },
        Key::CtrlC => EditorV { input: Seq::empty(), cursor: 0, ..v },
    }
}

/// The driver's action on one key.
pub open spec fn action_of(v: EditorV, k: Key) -> EditorAction {
    match k {
        Key::Enter => EditorAction::Submit,
        Key::CtrlC => EditorAction::Cancel,
        Key::Tab => if !v.show_completions {
            EditorAction::NeedCompletions
        } else {
            EditorAction::Redraw
        },
        _ => EditorAction::Redraw,
    }
}

/// Every key keeps the editor's invariant.
pub proof fn lemma_step_preserves_inv(v: EditorV, k: Key)
    requires
        editor_inv(v),
    ensures
        editor_inv(step(v, k)),
{
}

impl EditorState {
    /// Applies one key event and says what the driver should do next.
    pub fn apply_key(&mut self, k: Key) -> (r: EditorAction)
        requires
            editor_inv(old(self)@),
        ensures
            final(self)@ == step(old(self)@, k),
            r == action_of(old(self)@, k),
            editor_inv(final(self)@),
    {
        let ghost v = self@;
        match k {
            Key::Enter => {
                if self.show_completions {
                    self.show_completions = false;
                    self.completions = Vec::new();
                    assert(self@.completions =~= Seq::<Seq<char>>::empty());
                    assert(self@ =~= step(v, k));
                } else {
                    assert(self@ =~= step(v, k));
                }
                EditorAction::Submit
            },
            Key::Tab => {
                if !self.show_completions {
                    assert(self@ =~= step(v, k));
                    EditorAction::NeedCompletions
                } else {
                    if self.completions.len() > 0 {
                        self.completion_index = (self.completion_index + 1)
                            % self.completions.len();
                    }
                    assert(self@ =~= step(v, k));
                    EditorAction::Redraw
                }
            },
            Key::Char(c) => {
                self.show_completions = false;
                self.input.insert(self.cursor, c);
                self.cursor = self.move_cursor_right();
                self.matched_hint = false;
                assert(self@ =~= step(v, k));
                EditorAction::Redraw
            },
            Key::Backspace => {
                if self.cursor > 0 {
                    let prev = self.move_cursor_left();
                    self.input.remove(prev);
                    self.cursor = prev;
                    self.matched_hint = false;
                    self.show_completions = false;
                }
                assert(self@ =~= step(v, k));
                EditorAction::Redraw
            },
            Key::Left => {
                self.cursor = self.move_cursor_left();
                self.matched_hint = false;
                self.show_completions = false;
                assert(self@ =~= step(v, k));
                EditorAction::Redraw
            },
            Key::Right => {
                if self.cursor == self.input.len() {
                    match self.hint_chars() {
                        Some(h) => {
                            self.input = h;
                            self.cursor = self.input.len();
                            self.matched_hint = true;
                        },
                        None => {},
                    }
                } else {
                    self.cursor = self.move_cursor_right();
                }
                self.show_completions = false;
                assert(self@ =~= step(v, k));
                EditorAction::Redraw
            },
            Key::Up => {
                self.show_completions = false;
                if self.history.len() == 0 {
                    assert(self@ =~= step(v, k));
                    return EditorAction::Redraw;
                }
                match self.history_index {
                    None => {
                        self.temp_input = subvec(&self.input, 0, self.input.len());
                        self.history_index = Some(self.history.len() - 1);
                    },
                    Some(i) => {
                        if i > 0 {
                            self.history_index = Some(i - 1);
                        }
                    },
                }
                match self.history_index {
                    Some(idx) => {
                        let e = &self.history[idx];
                        self.input = subvec(e, 0, e.len());
                        self.cursor = self.input.len();
                        self.matched_hint = false;
                    },
                    None => {
                        assert(false);
                    },
                }
                assert(self@.input =~= step(v, k).input);
                assert(self@ =~= step(v, k));
                EditorAction::Redraw
            },
            Key::Down => {
                self.show_completions = false;
                match self.history_index {
                    Some(i) => {
                        let n = self.history.len();
                        assert(i < n);
                        if i < n - 1 {
                            self.history_index = Some(i + 1);
                            let e = &self.history[i + 1];
                            self.input = subvec(e, 0, e.len());
                        } else {
                            self.history_index = None;
                            self.input = subvec(&self.temp_input, 0, self.temp_input.len());
                        }
                        self.cursor = self.input.len();
                        self.matched_hint = false;
                    },
                    None => {},
                }
                assert(self@ =~= step(v, k));
                EditorAction::Redraw
            },
            Key::CtrlC => {
                self.input = Vec::new();
                self.cursor = 0;
                assert(self@.input =~= Seq::<char>::empty());
                assert(self@ =~= step(v, k));
                EditorAction::Cancel
            },
        }
    }

    /// Installs freshly computed completion candidates: the list is shown
    /// when non-empty, highlighted from its start.
    pub fn set_completions(&mut self, list: Vec<String>)
        ensures
            final(self)@ == (EditorV {
                completions: list.deep_view(),
                completion_index: 0,
                show_completions: list@.len() > 0,
                ..old(self)@
            }),
            editor_inv(old(self)@) ==> editor_inv(final(self)@),
    {
        let ghost v = self@;
        self.show_completions = list.len() > 0;
        self.completions = list;
        self.completion_index = 0;
        assert(self@ =~= (EditorV {
            completions: self.completions.deep_view(),
            completion_index: 0,
            show_completions: self.completions@.len() > 0,
            ..v
        }));
    }
}

/// The mathematical value of a [`CompletionQuery`].
pub ghost enum QueryV {
    Nothing,
    EmptyPath,
    Command(Seq<char>),
    Path(Seq<char>),
}

/// What kind of completion the buffer calls for: trailing whitespace asks
/// for paths with an empty prefix, a single word for command names, more
/// words for a path anchored on the last word.
pub enum CompletionQuery {
    Nothing,
    EmptyPath,
    Command(String),
    Path(String),
}

impl DeepView for CompletionQuery {
    type V = QueryV;

    open spec fn deep_view(&self) -> QueryV {
        match self {
            CompletionQuery::Nothing => QueryV::Nothing,
            CompletionQuery::EmptyPath => QueryV::EmptyPath,
            CompletionQuery::Command(s) => QueryV::Command(s@),
            CompletionQuery::Path(s) => QueryV::Path(s@),
        }
    }
}

/// The completion request for a buffer.
pub open spec fn query_of(input: Seq<char>) -> QueryV {
    if input.len() > 0 && crate::chars::is_shell_space(input.last()) {
        QueryV::EmptyPath
    } else {
        let parts = split_ws(input);
        if parts.len() == 0 {
            QueryV::Nothing
        } else if parts.len() == 1 {
            QueryV::Command(parts.last())
        } else {
            QueryV::Path(parts.last())
        }
    }
}

impl EditorState {
    /// Decides, from the buffer alone, which candidates the driver should
    /// gather for the Tab key.
    pub fn completion_query(&self) -> (r: CompletionQuery)
        ensures
            r.deep_view() == query_of(self@.input),
    {
        if self.input.len() > 0 && crate::chars::is_space_char(self.input[self.input.len() - 1]) {
            return CompletionQuery::EmptyPath;
        }
        let parts = split_ws_chars(&self.input);
        if parts.len() == 0 {
            CompletionQuery::Nothing
        } else if parts.len() == 1 {
            CompletionQuery::Command(chars_to_string(&parts[0]))
        } else {
            let last = &parts[parts.len() - 1];
            CompletionQuery::Path(chars_to_string(last))
        }
    }
}

} // verus!
