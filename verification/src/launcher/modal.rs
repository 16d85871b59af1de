//! The launcher's modal picker as a pure state machine: abstract keys in,
//! abstract steps out, and a frame rendered as roled lines. The terminal
//! shell around it owns raw mode, colour, and the directory reads.

use vstd::prelude::*;

use super::{resolve_path, resolved};
use crate::paths::{join_path, parent_path, path_join, path_parent};
use crate::text::{append, append_str, chars_of, decimal, decimal_chars, string_of, trim, trimmed};

verus! {

/// Abstract keys the state machine understands.
#[derive(Clone, Copy, PartialEq, Eq, Debug, Structural)]
pub enum Key {
    Up,
    Down,
    In,
    Out,
    Enter,
    ToggleOpenCode,
    TypePath,
    Char(char),
    Backspace,
    Quit,
}

/// What the state machine asks of its driver after a key.
pub enum Step {
    /// Nothing but a redraw.
    Stay,
    /// Read the subdirectories of this path and call [`Modal::listed`].
    List(String),
    /// Validate this path; [`Modal::reject`] it or finish with it.
    Choose(String),
    /// The reader backed out.
    Quit,
}

/// A step as a value of the model.
pub enum StepView {
    Stay,
    List(Seq<char>),
    Choose(Seq<char>),
    Quit,
}

impl Step {
    pub open spec fn view(&self) -> StepView {
        match self {
            Step::Stay => StepView::Stay,
            Step::List(p) => StepView::List(p@),
            Step::Choose(p) => StepView::Choose(p@),
            Step::Quit => StepView::Quit,
        }
    }
}

/// One row of the picker list.
pub enum Row {
    /// The directory being listed — choosing it is choosing "here".
    Here,
    /// The visible way up.
    Up,
    /// A subdirectory, by name.
    Sub(String),
}

pub enum RowView {
    Here,
    Up,
    Sub(Seq<char>),
}

impl Row {
    pub open spec fn view(&self) -> RowView {
        match self {
            Row::Here => RowView::Here,
            Row::Up => RowView::Up,
            Row::Sub(n) => RowView::Sub(n@),
        }
    }
}

/// The modal's whole state.
pub struct Modal {
    pub dir: String,
    pub entries: Vec<String>,
    pub cursor: usize,
    pub open_code: bool,
    pub typing: Option<String>,
    pub error: Option<String>,
    /// `Some` while the confirm frame is up: the path awaiting a final
    /// Enter.
    pub confirming: Option<String>,
    pub home: Option<String>,
}

/// The modal as a value of the model.
pub struct ModalView {
    pub dir: Seq<char>,
    pub entries: Seq<Seq<char>>,
    pub cursor: nat,
    pub open_code: bool,
    pub typing: Option<Seq<char>>,
    pub error: Option<Seq<char>>,
    pub confirming: Option<Seq<char>>,
    pub home: Option<Seq<char>>,
}

pub open spec fn opt_view(o: Option<String>) -> Option<Seq<char>> {
    match o {
        Some(s) => Some(s@),
        None => None,
    }
}

impl Modal {
    pub open spec fn view(&self) -> ModalView {
        ModalView {
            dir: self.dir@,
            entries: self.entries@.map_values(|s: String| s@),
            cursor: self.cursor as nat,
            open_code: self.open_code,
            typing: opt_view(self.typing),
            error: opt_view(self.error),
            confirming: opt_view(self.confirming),
            home: opt_view(self.home),
        }
    }
}

/// The list as the reader sees it: here, up (when a parent exists), then
/// the subdirectories.
pub open spec fn rows_of(m: ModalView) -> Seq<RowView> {
    seq![RowView::Here] + (if path_parent(m.dir) is Some {
        seq![RowView::Up]
    } else {
        Seq::<RowView>::empty()
    }) + m.entries.map_values(|n: Seq<char>| RowView::Sub(n))
}

/// Where climbing leads: the parent, when there is one.
pub open spec fn climb_step(m: ModalView) -> StepView {
    match path_parent(m.dir) {
        Some(p) => StepView::List(p),
        None => StepView::Stay,
    }
}

/// Whether the key reads the row under the cursor.
pub open spec fn reads_row(m: ModalView, key: Key) -> bool {
    m.confirming is None && m.typing is None && (key == Key::In || key == Key::Enter)
}

/// The state machine: what one key does to the modal, and what it asks of
/// the driver.
pub open spec fn transition(m: ModalView, key: Key) -> (ModalView, StepView) {
    if m.confirming is Some {
        let chosen = m.confirming->0;
        match key {
            Key::Enter => (m, StepView::Choose(chosen)),
            Key::ToggleOpenCode => (ModalView { open_code: !m.open_code, ..m }, StepView::Stay),
            Key::Quit | Key::Out => (ModalView { confirming: None, ..m }, StepView::Stay),
            _ => (m, StepView::Stay),
        }
    } else if m.typing is Some {
        let buffer = m.typing->0;
        match key {
            Key::Char(c) => (ModalView { typing: Some(buffer.push(c)), ..m }, StepView::Stay),
            Key::Backspace => (ModalView {
                typing: Some(if buffer.len() > 0 { buffer.drop_last() } else { buffer }),
                ..m
            }, StepView::Stay),
            Key::Enter => (ModalView {
                typing: None,
                confirming: Some(resolved(trimmed(buffer), m.home, m.dir)),
                ..m
            }, StepView::Stay),
            Key::TypePath | Key::Quit => (ModalView { typing: None, error: None, ..m }, StepView::Stay),
            _ => (m, StepView::Stay),
        }
    } else {
        let rows = rows_of(m);
        match key {
            Key::Down => (ModalView {
                cursor: if m.cursor + 1 < rows.len() { m.cursor + 1 } else { m.cursor },
                ..m
            }, StepView::Stay),
            Key::Up => (ModalView { cursor: if m.cursor > 0 { (m.cursor - 1) as nat } else { 0 }, ..m }, StepView::Stay),
            Key::In => match rows[m.cursor as int] {
                RowView::Here => (m, StepView::Stay),
                RowView::Up => (m, climb_step(m)),
                RowView::Sub(name) => (m, StepView::List(path_join(m.dir, name))),
            },
            Key::Out => (m, climb_step(m)),
            Key::Enter => match rows[m.cursor as int] {
                RowView::Up => (m, climb_step(m)),
                RowView::Here => (ModalView { confirming: Some(m.dir), ..m }, StepView::Stay),
                RowView::Sub(name) => (m, StepView::List(path_join(m.dir, name))),
            },
            Key::ToggleOpenCode => (ModalView { open_code: !m.open_code, ..m }, StepView::Stay),
            Key::TypePath => (ModalView { typing: Some(Seq::<char>::empty()), error: None, ..m }, StepView::Stay),
            Key::Quit => (m, StepView::Quit),
            Key::Char(_) | Key::Backspace => (m, StepView::Stay),
        }
    }
}

/// The cursor law: no key moves the listing, and from a cursor on a row
/// every key leaves it on a row — so the row a key reads always exists. A
/// fresh modal and a fresh listing both start on the first row, which
/// always exists.
pub proof fn law_the_cursor_always_rests_on_a_row(m: ModalView, key: Key)
    requires
        m.cursor < rows_of(m).len(),
    ensures
        transition(m, key).0.dir == m.dir,
        transition(m, key).0.entries == m.entries,
        transition(m, key).0.cursor < rows_of(transition(m, key).0).len(),
        0 < rows_of(m).len(),
{
    let n = transition(m, key).0;
    assert(rows_of(n) =~= rows_of(m));
}

fn copy_string(s: &String) -> (r: String)
    ensures
        r@ == s@,
{
    s.clone()
}

fn copy_opt(o: &Option<String>) -> (r: Option<String>)
    ensures
        opt_view(r) == opt_view(*o),
{
    match o {
        Some(s) => Some(s.clone()),
        None => None,
    }
}

impl Modal {
    pub fn new(dir: String, entries: Vec<String>, home: Option<String>) -> (m: Modal)
        ensures
            m.dir == dir,
            m.entries == entries,
            m.cursor == 0,
            !m.open_code,
            m.typing is None,
            m.error is None,
            m.confirming is None,
            m.home == home,
    {
        Modal { dir, entries, cursor: 0, open_code: false, typing: None, error: None, confirming: None, home }
    }

    /// The list as the reader sees it.
    pub fn rows(&self) -> (r: Vec<Row>)
        ensures
            r@.map_values(|row: Row| row.view()) == rows_of(self.view()),
    {
        let mut rows: Vec<Row> = Vec::new();
        rows.push(Row::Here);
        if parent_path(self.dir.as_str()).is_some() {
            rows.push(Row::Up);
        }
        let ghost head = rows@.map_values(|row: Row| row.view());
        let mut i: usize = 0;
        while i < self.entries.len()
            invariant
                i <= self.entries.len(),
                rows@.map_values(|row: Row| row.view()) == head + self.view().entries.take(i as int).map_values(
                    |n: Seq<char>| RowView::Sub(n),
                ),
            decreases self.entries.len() - i,
        {
            let ghost before = rows@;
            rows.push(Row::Sub(self.entries[i].clone()));
            proof {
                let names = self.view().entries;
                assert(rows@.map_values(|row: Row| row.view()) =~= before.map_values(|row: Row| row.view()).push(
                    RowView::Sub(names[i as int]),
                ));
                assert(names.take(i + 1).map_values(|n: Seq<char>| RowView::Sub(n)) =~= names.take(i as int).map_values(
                    |n: Seq<char>| RowView::Sub(n),
                ).push(RowView::Sub(names[i as int])));
            }
            i += 1;
        }
        proof {
            let names = self.view().entries;
            assert(names.take(i as int) =~= names);
            assert(head =~= seq![RowView::Here] + (if path_parent(self.dir@) is Some {
                seq![RowView::Up]
            } else {
                Seq::<RowView>::empty()
            }));
        }
        rows
    }

    /// The driver read a directory listing after a [`Step::List`].
    pub fn listed(&mut self, dir: String, entries: Vec<String>)
        ensures
            final(self).view() == (ModalView {
                dir: dir@,
                entries: entries@.map_values(|s: String| s@),
                cursor: 0,
                error: None,
                ..old(self).view()
            }),
    {
        self.dir = dir;
        self.entries = entries;
        self.cursor = 0;
        self.error = None;
    }

    /// The driver found a chosen path not to be a directory.
    pub fn reject(&mut self, path: &str)
        ensures
            final(self).view() == (ModalView {
                error: Some("no directory at "@ + path@),
                confirming: None,
                ..old(self).view()
            }),
    {
        let mut message = chars_of("no directory at ");
        append_str(&mut message, path);
        self.error = Some(string_of(&message));
        self.confirming = None;
        proof {
            reveal_strlit("no directory at ");
        }
    }

    /// Where climbing leads: the parent, when there is one.
    fn climb(&self) -> (r: Step)
        ensures
            r.view() == climb_step(self.view()),
    {
        match parent_path(self.dir.as_str()) {
            Some(parent) => Step::List(parent),
            None => Step::Stay,
        }
    }

    /// One key: the confirm frame first, then typing mode, then the list.
    pub fn handle(&mut self, key: Key) -> (r: Step)
        requires
            reads_row(old(self).view(), key) ==> old(self).cursor < rows_of(old(self).view()).len(),
        ensures
            (final(self).view(), r.view()) == transition(old(self).view(), key),
    {
        let ghost m = self.view();
        if let Some(chosen) = &self.confirming {
            let chosen = copy_string(chosen);
            return match key {
                Key::Enter => Step::Choose(chosen),
                Key::ToggleOpenCode => {
                    self.open_code = !self.open_code;
                    Step::Stay
                },
                Key::Quit | Key::Out => {
                    self.confirming = None;
                    Step::Stay
                },
                _ => Step::Stay,
            };
        }
        if let Some(buffer) = &self.typing {
            let mut text = chars_of(buffer.as_str());
            match key {
                Key::Char(c) => {
                    text.push(c);
                    self.typing = Some(string_of(&text));
                    return Step::Stay;
                },
                Key::Backspace => {
                    if text.len() > 0 {
                        text.pop();
                    }
                    self.typing = Some(string_of(&text));
                    proof {
                        if m.typing->0.len() > 0 {
                            assert(text@ =~= m.typing->0.drop_last());
                        }
                    }
                    return Step::Stay;
                },
                Key::Enter => {
                    let raw = trim(buffer.as_str());
                    let resolved = match &self.home {
                        Some(h) => resolve_path(raw.as_str(), Some(h.as_str()), self.dir.as_str()),
                        None => resolve_path(raw.as_str(), None, self.dir.as_str()),
                    };
                    self.typing = None;
                    self.confirming = Some(resolved);
                    return Step::Stay;
                },
                Key::TypePath | Key::Quit => {
                    self.typing = None;
                    self.error = None;
                    return Step::Stay;
                },
                _ => {
                    return Step::Stay;
                },
            }
        }
        let rows = self.rows();
        proof {
            assert(rows@.len() == rows_of(m).len());
        }
        match key {
            Key::Down => {
                if self.cursor < rows.len() - 1 {
                    self.cursor = self.cursor + 1;
                }
                Step::Stay
            },
            Key::Up => {
                if self.cursor > 0 {
                    self.cursor = self.cursor - 1;
                }
                Step::Stay
            },
            Key::In => {
                proof {
                    assert(rows@.map_values(|row: Row| row.view())[self.cursor as int] == rows@[self.cursor as int].view());
                }
                match &rows[self.cursor] {
                    Row::Here => Step::Stay,
                    Row::Up => self.climb(),
                    Row::Sub(name) => Step::List(join_path(self.dir.as_str(), name.as_str())),
                }
            },
            Key::Out => self.climb(),
            Key::Enter => {
                proof {
                    assert(rows@.map_values(|row: Row| row.view())[self.cursor as int] == rows@[self.cursor as int].view());
                }
                match &rows[self.cursor] {
                    Row::Up => self.climb(),
                    Row::Here => {
                        self.confirming = Some(copy_string(&self.dir));
                        Step::Stay
                    },
                    Row::Sub(name) => Step::List(join_path(self.dir.as_str(), name.as_str())),
                }
            },
            Key::ToggleOpenCode => {
                self.open_code = !self.open_code;
                Step::Stay
            },
            Key::TypePath => {
                self.typing = Some(String::new());
                self.error = None;
                Step::Stay
            },
            Key::Quit => Step::Quit,
            Key::Char(_) | Key::Backspace => Step::Stay,
        }
    }
}

/// What a rendered line is, so the shell can colour by meaning.
#[derive(Clone, Copy, PartialEq, Eq, Debug, Structural)]
pub enum Role {
    Border,
    Title,
    Where,
    Cursor,
    Row,
    Setting,
    Input,
    Error,
    Footer,
    Blank,
    Confirm,
}

/// One rendered line: its role and its text.
pub struct Line {
    pub role: Role,
    pub text: String,
}

pub open spec fn line_view(l: Line) -> (Role, Seq<char>) {
    (l.role, l.text@)
}

pub open spec fn lines_view(v: Seq<Line>) -> Seq<(Role, Seq<char>)> {
    v.map_values(|l: Line| line_view(l))
}

/// `text` cut to `width` characters, an ellipsis marking the cut.
pub open spec fn clipped(text: Seq<char>, width: nat) -> Seq<char> {
    if text.len() <= width {
        text
    } else {
        text.take(if width >= 1 { width - 1 } else { 0 }).push('…')
    }
}

pub fn clip(text: &str, width: usize) -> (r: String)
    ensures
        r@ == clipped(text@, width as nat),
{
    let v = chars_of(text);
    if v.len() <= width {
        return text.to_owned();
    }
    let keep: usize = if width >= 1 {
        width - 1
    } else {
        0
    };
    let mut cut = crate::text::slice(&v, 0, keep);
    cut.push('…');
    proof {
        assert(cut@ =~= clipped(text@, width as nat));
    }
    string_of(&cut)
}

pub open spec fn title_text() -> Seq<char> {
    "CODEATLAS — map a repository"@
}

pub open spec fn open_text(on: bool) -> Seq<char> {
    if on {
        "OPEN CODE ON — dashboard may show file source"@
    } else {
        "OPEN CODE OFF — dashboard shows the map only"@
    }
}

/// The confirm frame: the chosen path, and open code stated loudly.
pub open spec fn confirm_frame(m: ModalView) -> Seq<(Role, Seq<char>)> {
    seq![
        (Role::Title, title_text()),
        (Role::Blank, Seq::<char>::empty()),
        (Role::Where, "ready: "@ + m.confirming->0),
        (Role::Blank, Seq::<char>::empty()),
        (Role::Confirm, open_text(m.open_code)),
    ] + (match m.error {
        Some(e) => seq![(Role::Error, "! "@ + e)],
        None => Seq::<(Role, Seq<char>)>::empty(),
    }) + seq![(Role::Blank, Seq::<char>::empty()), (Role::Footer, "Enter go · o flip open code · Esc back"@)]
}

/// The first row the window shows: it slides to keep the cursor visible.
pub open spec fn window_start(cursor: nat, rows: nat, visible: nat) -> nat {
    let a: nat = if cursor + 1 >= visible { (cursor + 1 - visible) as nat } else { 0 };
    let b: nat = if rows >= visible { (rows - visible) as nat } else { 0 };
    if a <= b {
        a
    } else {
        b
    }
}

pub open spec fn row_label(r: RowView) -> Seq<char> {
    match r {
        RowView::Here => ". (map this directory)"@,
        RowView::Up => "../ (up)"@,
        RowView::Sub(name) => name + "/"@,
    }
}

pub open spec fn row_line(m: ModalView, rows: Seq<RowView>, index: int) -> (Role, Seq<char>) {
    (if index == m.cursor {
        Role::Cursor
    } else {
        Role::Row
    }, " "@ + (if index == m.cursor {
        "▸"@
    } else {
        " "@
    }) + " "@ + row_label(rows[index]))
}

/// How many rows the window shows.
pub open spec fn window_rows(m: ModalView, visible: nat) -> nat {
    let rows = rows_of(m);
    let first = window_start(m.cursor, rows.len(), visible);
    if rows.len() - first < visible {
        (rows.len() - first) as nat
    } else {
        visible
    }
}

pub open spec fn list_head(m: ModalView) -> Seq<(Role, Seq<char>)> {
    seq![
        (Role::Title, title_text()),
        (Role::Blank, Seq::<char>::empty()),
        (Role::Where, "in "@ + m.dir),
        (Role::Blank, Seq::<char>::empty()),
    ]
}

pub open spec fn list_window(m: ModalView, visible: nat) -> Seq<(Role, Seq<char>)> {
    let rows = rows_of(m);
    let first = window_start(m.cursor, rows.len(), visible);
    Seq::new(window_rows(m, visible), |k: int| row_line(m, rows, first + k)) + if rows.len() > first
        + visible {
        seq![(Role::Row, "   … "@ + decimal((rows.len() - (first + visible)) as nat) + " more below"@)]
    } else {
        Seq::<(Role, Seq<char>)>::empty()
    }
}

pub open spec fn list_tail(m: ModalView) -> Seq<(Role, Seq<char>)> {
    seq![
        (Role::Blank, Seq::<char>::empty()),
        (Role::Setting, (if m.open_code {
            "[x]"@
        } else {
            "[ ]"@
        }) + " open code in dashboard"@),
    ] + (match m.typing {
        Some(b) => seq![(Role::Input, "path: "@ + b + "▏"@)],
        None => Seq::<(Role, Seq<char>)>::empty(),
    }) + (match m.error {
        Some(e) => seq![(Role::Error, "! "@ + e + " — try again"@)],
        None => Seq::<(Role, Seq<char>)>::empty(),
    }) + seq![(Role::Blank, Seq::<char>::empty())] + if m.typing is Some {
        seq![(Role::Footer, "Enter continue · Esc back to list"@)]
    } else {
        seq![
            (Role::Footer, "j/k move · Enter open · h up · / type"@),
            (Role::Footer, "Enter on . maps here · o open code · q quit"@),
        ]
    }
}

/// The whole modal as roled lines: the confirm frame while a path awaits
/// its final Enter, else the list, sliding to keep the cursor visible.
pub open spec fn frame(m: ModalView, visible: nat) -> Seq<(Role, Seq<char>)> {
    if m.confirming is Some {
        confirm_frame(m)
    } else {
        list_head(m) + list_window(m, visible) + list_tail(m)
    }
}

fn push_line(lines: &mut Vec<Line>, role: Role, text: &Vec<char>)
    ensures
        lines_view(final(lines)@) == lines_view(old(lines)@).push((role, text@)),
{
    lines.push(Line { role, text: string_of(text) });
    assert(lines_view(lines@) =~= lines_view(old(lines)@).push((role, text@)));
}

fn push_str(lines: &mut Vec<Line>, role: Role, text: &str)
    ensures
        lines_view(final(lines)@) == lines_view(old(lines)@).push((role, text@)),
{
    lines.push(Line { role, text: text.to_owned() });
    assert(lines_view(lines@) =~= lines_view(old(lines)@).push((role, text@)));
}

fn confirm_lines(modal: &Modal) -> (lines: Vec<Line>)
    requires
        modal.confirming is Some,
    ensures
        lines_view(lines@) == confirm_frame(modal.view()),
{
    let mut lines: Vec<Line> = Vec::new();
    push_str(&mut lines, Role::Title, "CODEATLAS — map a repository");
    push_str(&mut lines, Role::Blank, "");
    let mut ready = chars_of("ready: ");
    match &modal.confirming {
        Some(c) => append_str(&mut ready, c.as_str()),
        None => {},
    }
    push_line(&mut lines, Role::Where, &ready);
    push_str(&mut lines, Role::Blank, "");
    if modal.open_code {
        push_str(&mut lines, Role::Confirm, "OPEN CODE ON — dashboard may show file source");
    } else {
        push_str(&mut lines, Role::Confirm, "OPEN CODE OFF — dashboard shows the map only");
    }
    let ghost mid = lines_view(lines@);
    match &modal.error {
        Some(e) => {
            let mut text = chars_of("! ");
            append_str(&mut text, e.as_str());
            push_line(&mut lines, Role::Error, &text);
        },
        None => {},
    }
    let ghost mid2 = lines_view(lines@);
    push_str(&mut lines, Role::Blank, "");
    push_str(&mut lines, Role::Footer, "Enter go · o flip open code · Esc back");
    proof {
        reveal_strlit("");
        reveal_strlit("ready: ");
        reveal_strlit("! ");
        let m = modal.view();
        assert(mid.len() == 5);
        assert(mid[0] == (Role::Title, title_text()));
        assert(mid[1] == (Role::Blank, Seq::<char>::empty()));
        assert(mid[2] == (Role::Where, "ready: "@ + m.confirming->0));
        assert(mid[4] == (Role::Confirm, open_text(m.open_code)));
        assert(mid =~= seq![
            (Role::Title, title_text()),
            (Role::Blank, Seq::<char>::empty()),
            (Role::Where, "ready: "@ + m.confirming->0),
            (Role::Blank, Seq::<char>::empty()),
            (Role::Confirm, open_text(m.open_code)),
        ]);
        assert(lines_view(lines@) =~= confirm_frame(m));
    }
    lines
}

fn window_lines(modal: &Modal, visible: usize) -> (lines: Vec<Line>)
    requires
        visible >= 1,
        modal.confirming is None,
    ensures
        lines_view(lines@) == list_window(modal.view(), visible as nat),
{
    let ghost m = modal.view();
    let rows = modal.rows();
    let ghost rv = rows@.map_values(|row: Row| row.view());
    let a: usize = if modal.cursor >= visible - 1 {
        modal.cursor - (visible - 1)
    } else {
        0
    };
    let b: usize = if rows.len() >= visible {
        rows.len() - visible
    } else {
        0
    };
    let first: usize = if a <= b {
        a
    } else {
        b
    };
    assert(first == window_start(m.cursor, rv.len(), visible as nat));
    let shown: usize = if rows.len() - first < visible {
        rows.len() - first
    } else {
        visible
    };
    assert(shown == window_rows(m, visible as nat));
    let mut lines: Vec<Line> = Vec::new();
    let mut k: usize = 0;
    while k < shown
        invariant
            k <= shown,
            first + shown <= rows.len(),
            rv == rows@.map_values(|row: Row| row.view()),
            rv == rows_of(m),
            m == modal.view(),
            lines_view(lines@) == Seq::new(k as nat, |j: int| row_line(m, rv, first + j)),
        decreases shown - k,
    {
        let index = first + k;
        let here = index == modal.cursor;
        let mut text = chars_of(" ");
        if here {
            append_str(&mut text, "▸");
        } else {
            append_str(&mut text, " ");
        }
        append_str(&mut text, " ");
        match &rows[index] {
            Row::Here => append_str(&mut text, ". (map this directory)"),
            Row::Up => append_str(&mut text, "../ (up)"),
            Row::Sub(name) => {
                append_str(&mut text, name.as_str());
                append_str(&mut text, "/");
            },
        }
        let role = if here {
            Role::Cursor
        } else {
            Role::Row
        };
        proof {
            reveal_strlit(" ");
            assert(rv[index as int] == rows@[index as int].view());
            assert(text@ =~= row_line(m, rv, index as int).1);
        }
        push_line(&mut lines, role, &text);
        proof {
            assert(lines_view(lines@) =~= Seq::new((k + 1) as nat, |j: int| row_line(m, rv, first + j)));
        }
        k += 1;
    }
    if rows.len() > first + visible {
        let mut text = chars_of("   … ");
        append(&mut text, &decimal_chars((rows.len() - (first + visible)) as u64));
        append_str(&mut text, " more below");
        push_line(&mut lines, Role::Row, &text);
    }
    proof {
        assert(lines_view(lines@) =~= list_window(m, visible as nat));
    }
    lines
}

fn tail_lines(modal: &Modal) -> (lines: Vec<Line>)
    ensures
        lines_view(lines@) == list_tail(modal.view()),
{
    let ghost m = modal.view();
    let mut lines: Vec<Line> = Vec::new();
    push_str(&mut lines, Role::Blank, "");
    if modal.open_code {
        push_str(&mut lines, Role::Setting, "[x] open code in dashboard");
    } else {
        push_str(&mut lines, Role::Setting, "[ ] open code in dashboard");
    }
    let ghost a = lines_view(lines@);
    match &modal.typing {
        Some(b) => {
            let mut text = chars_of("path: ");
            append_str(&mut text, b.as_str());
            append_str(&mut text, "▏");
            push_line(&mut lines, Role::Input, &text);
        },
        None => {},
    }
    let ghost b = lines_view(lines@);
    match &modal.error {
        Some(e) => {
            let mut text = chars_of("! ");
            append_str(&mut text, e.as_str());
            append_str(&mut text, " — try again");
            push_line(&mut lines, Role::Error, &text);
        },
        None => {},
    }
    let ghost c = lines_view(lines@);
    push_str(&mut lines, Role::Blank, "");
    if modal.typing.is_some() {
        push_str(&mut lines, Role::Footer, "Enter continue · Esc back to list");
    } else {
        push_str(&mut lines, Role::Footer, "j/k move · Enter open · h up · / type");
        push_str(&mut lines, Role::Footer, "Enter on . maps here · o open code · q quit");
    }
    proof {
        reveal_strlit("");
        reveal_strlit("[x] open code in dashboard");
        reveal_strlit("[ ] open code in dashboard");
        reveal_strlit("[x]");
        reveal_strlit("[ ]");
        reveal_strlit(" open code in dashboard");
        assert("[x]"@ + " open code in dashboard"@ =~= "[x] open code in dashboard"@);
        assert("[ ]"@ + " open code in dashboard"@ =~= "[ ] open code in dashboard"@);
        assert(a.len() == 2);
        assert(a[0] == (Role::Blank, Seq::<char>::empty()));
        assert(a[1] == (Role::Setting, (if m.open_code {
            "[x]"@
        } else {
            "[ ]"@
        }) + " open code in dashboard"@));
        assert(a =~= seq![
            (Role::Blank, Seq::<char>::empty()),
            (Role::Setting, (if m.open_code {
                "[x]"@
            } else {
                "[ ]"@
            }) + " open code in dashboard"@),
        ]);
        assert(lines_view(lines@) =~= list_tail(m));
    }
    lines
}

fn extend_lines(lines: &mut Vec<Line>, more: Vec<Line>)
    ensures
        lines_view(final(lines)@) == lines_view(old(lines)@) + lines_view(more@),
{
    let mut more = more;
    let ghost added = more@;
    lines.append(&mut more);
    assert(lines_view(lines@) =~= lines_view(old(lines)@) + lines_view(added));
}

/// Renders the whole modal as roled lines. `visible` is how many list rows
/// the frame shows at once; the window slides to keep the cursor visible.
pub fn draw(modal: &Modal, visible: usize) -> (lines: Vec<Line>)
    requires
        modal.confirming is None ==> visible >= 1,
    ensures
        lines_view(lines@) == frame(modal.view(), visible as nat),
{
    if modal.confirming.is_some() {
        return confirm_lines(modal);
    }
    let mut lines: Vec<Line> = Vec::new();
    push_str(&mut lines, Role::Title, "CODEATLAS — map a repository");
    push_str(&mut lines, Role::Blank, "");
    let mut place = chars_of("in ");
    append_str(&mut place, modal.dir.as_str());
    push_line(&mut lines, Role::Where, &place);
    push_str(&mut lines, Role::Blank, "");
    proof {
        reveal_strlit("");
        reveal_strlit("in ");
        let h = lines_view(lines@);
        assert(h.len() == 4);
        assert(h[0] == (Role::Title, title_text()));
        assert(h[1] == (Role::Blank, Seq::<char>::empty()));
        assert(h[2] == (Role::Where, "in "@ + modal.view().dir));
        assert(h[3] == (Role::Blank, Seq::<char>::empty()));
        assert(lines_view(lines@) =~= list_head(modal.view()));
    }
    extend_lines(&mut lines, window_lines(modal, visible));
    extend_lines(&mut lines, tail_lines(modal));
    lines
}

/// A key press as the terminal reports it, reduced to what the modal
/// reads: the key, and whether Control was held.
#[derive(Clone, Copy, PartialEq, Eq, Debug, Structural)]
pub enum Press {
    Char(char),
    Enter,
    Esc,
    Backspace,
    Up,
    Down,
    Left,
    Right,
    Other,
}

/// The abstract key a press means, honouring the mode: while typing,
/// letters are letters. Only presses count (not releases or repeats); a
/// newline character is Enter in every mode, since input that crossed a
/// pseudo-terminal arrives cooked.
pub open spec fn key_for(press: Press, is_press: bool, control: bool, typing: bool) -> Option<Key> {
    if !is_press {
        None
    } else if control && press == Press::Char('c') {
        Some(Key::Quit)
    } else if press == Press::Char('\n') || press == Press::Char('\r') {
        Some(Key::Enter)
    } else if typing {
        match press {
            Press::Enter => Some(Key::Enter),
            Press::Esc => Some(Key::TypePath),
            Press::Backspace => Some(Key::Backspace),
            Press::Char(c) => Some(Key::Char(c)),
            _ => None,
        }
    } else {
        match press {
            Press::Down | Press::Char('j') => Some(Key::Down),
            Press::Up | Press::Char('k') => Some(Key::Up),
            Press::Right | Press::Char('l') => Some(Key::In),
            Press::Left | Press::Char('h') => Some(Key::Out),
            Press::Enter => Some(Key::Enter),
            Press::Char('o') => Some(Key::ToggleOpenCode),
            Press::Char('/') => Some(Key::TypePath),
            Press::Esc | Press::Char('q') => Some(Key::Quit),
            _ => None,
        }
    }
}

pub fn map_key(press: Press, is_press: bool, control: bool, typing: bool) -> (r: Option<Key>)
    ensures
        r == key_for(press, is_press, control, typing),
{
    if !is_press {
        return None;
    }
    if control && press == Press::Char('c') {
        return Some(Key::Quit);
    }
    if press == Press::Char('\n') || press == Press::Char('\r') {
        return Some(Key::Enter);
    }
    if typing {
        return match press {
            Press::Enter => Some(Key::Enter),
            Press::Esc => Some(Key::TypePath),
            Press::Backspace => Some(Key::Backspace),
            Press::Char(c) => Some(Key::Char(c)),
            _ => None,
        };
    }
    match press {
        Press::Down | Press::Char('j') => Some(Key::Down),
        Press::Up | Press::Char('k') => Some(Key::Up),
        Press::Right | Press::Char('l') => Some(Key::In),
        Press::Left | Press::Char('h') => Some(Key::Out),
        Press::Enter => Some(Key::Enter),
        Press::Char('o') => Some(Key::ToggleOpenCode),
        Press::Char('/') => Some(Key::TypePath),
        Press::Esc | Press::Char('q') => Some(Key::Quit),
        _ => None,
    }
}

} // verus!
