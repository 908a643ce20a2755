//! The interactive session: which key does what in which state, and what is
//! shown.
//!
//! The session is a state machine. `App::transition` takes a key, edits the
//! list of documents and moves to the next state; `App::ui` says what the
//! screen shows in a state. Reading keys, drawing and writing files are left to
//! the caller.

use crate::arrange::{swapped_pages, toggled_pages};
use crate::display::{cjk_width, push_char, width_cjk};
use crate::key_bind::{CONFIRM, DOWN, INCLUDE_TOGGLE, PICK_TOGGLE, QUIT, SAVE, UP};
use crate::page::{OrderError, Page, PageList, PageView, SwapDirection};
use vstd::prelude::*;
use vstd::string::StrSliceExecFns;
use vstd::string::StringExecFns;

verus! {

/// A key as the session reads it.
#[derive(Clone, Copy, Debug, PartialEq, Eq)]
pub enum Key {
    /// The key of a character.
    Char(char),
    /// The arrow up.
    Up,
    /// The arrow down.
    Down,
    /// Any other key.
    Other,
}

/// The state of the session.
#[derive(Clone, Copy, Debug, PartialEq, Eq)]
pub enum Status {
    /// The user browses the list; the selection moves freely.
    Unpicked,
    /// The user has picked the selected document up, and moves it.
    Picked,
    /// The user is asked whether to quit without saving.
    AskQuit,
    /// The user is asked whether to save and quit.
    AskSave,
    /// The session has ended.
    Quit,
}

impl Default for Status {
    fn default() -> (r: Self)
        ensures
            r == Status::Unpicked,
    {
        Status::Unpicked
    }
}

/// What the caller has to do after a key has been taken.
#[derive(Clone, Copy, Debug, PartialEq, Eq)]
pub enum Action {
    /// Draw the screen again and read the next key.
    Redraw,
    /// Write the files of the documents that changed, and end.
    Persist,
    /// End, and write nothing.
    Quit,
}

/// What a key means in a state.
pub enum Input {
    Quit,
    Save,
    Up,
    Down,
    /// Take the selected document into the ordered subset, or out of it.
    Toggle,
    /// Pick the selected document up, or put it down.
    Pick,
    Confirm,
    /// A key without a meaning in the state.
    Other,
}

/// A session.
#[derive(Debug)]
pub struct App {
    page_list: PageList,
    selected_idx: usize,
    current_status: Status,
    previous_status: Status,
}

/// What an `App` stands for.
pub struct AppView {
    /// The documents.
    pub pages: Seq<PageView>,
    /// The key of the ordering.
    pub key: Seq<char>,
    /// The position of the selected document.
    pub selected: int,
    /// The state.
    pub current: Status,
    /// The state before the last change of state.
    pub previous: Status,
}

/// A column of the table of documents.
#[derive(Clone, Copy, Debug, PartialEq, Eq)]
pub enum Column {
    Title,
    File,
    Directory,
}

/// A row of the table of documents.
#[derive(Debug, PartialEq, Eq)]
pub struct Row {
    /// The title of the document, empty where it has none.
    pub title: String,
    /// `x` for a document outside the ordered subset, empty for one in it.
    pub mark: String,
    /// The name of the file.
    pub file_name: String,
    /// The directory that holds the file.
    pub directory: String,
}

/// The screen on which the user browses and reorders the list.
#[derive(Debug, PartialEq, Eq)]
pub struct SelectScreen {
    /// The line that names the keys of the state.
    pub guidance: String,
    /// The number of lines that the guidance takes up.
    pub guidance_height: u16,
    /// The number of lines that are left for the table, below the guidance and
    /// one empty line.
    pub table_height: u16,
    /// The headings of the columns.
    pub header: Row,
    /// The width of the column of titles.
    pub title_width: usize,
    /// The width of the column of marks.
    pub mark_width: usize,
    /// The width of the column of file names.
    pub file_width: usize,
    /// The width of the column of directories.
    pub directory_width: usize,
    /// The rows, one for each document.
    pub rows: Vec<Row>,
    /// What stands before the selected row.
    pub highlight_symbol: String,
    /// The position of the selected row.
    pub selected: usize,
}

/// A question to the user.
#[derive(Debug, PartialEq, Eq)]
pub struct Prompt {
    /// The question.
    pub title: String,
    /// The answers.
    pub message: String,
}

/// What the screen shows.
#[derive(Debug, PartialEq, Eq)]
pub enum Screen {
    /// The table of documents.
    Select(SelectScreen),
    /// The question whether to quit without saving.
    AskQuit(Prompt),
    /// The question whether to save and quit.
    AskSave(Prompt),
}

/// What `key` means while the user browses the list.
pub open spec fn unpicked_input(key: Key) -> Input {
    match key {
        Key::Char(c) => if c == QUIT {
            Input::Quit
        } else if c == SAVE {
            Input::Save
        } else if c == UP {
            Input::Up
        } else if c == DOWN {
            Input::Down
        } else if c == INCLUDE_TOGGLE {
            Input::Toggle
        } else if c == PICK_TOGGLE {
            Input::Pick
        } else {
            Input::Other
        },
        Key::Up => Input::Up,
        Key::Down => Input::Down,
        Key::Other => Input::Other,
    }
}

/// What `key` means while the user moves a document.
pub open spec fn picked_input(key: Key) -> Input {
    match key {
        Key::Char(c) => if c == QUIT {
            Input::Quit
        } else if c == UP {
            Input::Up
        } else if c == DOWN {
            Input::Down
        } else if c == PICK_TOGGLE {
            Input::Pick
        } else {
            Input::Other
        },
        Key::Up => Input::Up,
        Key::Down => Input::Down,
        Key::Other => Input::Other,
    }
}

/// What `key` means as the answer to a question.
pub open spec fn answer_input(key: Key) -> Input {
    if key == Key::Char(CONFIRM) {
        Input::Confirm
    } else {
        Input::Other
    }
}

/// A piece of the guidance: a label that ends with an opening bracket, the
/// key, and the closing bracket.
pub open spec fn bound(label: Seq<char>, key: char) -> Seq<char> {
    label + seq![key] + "]"@
}

/// The guidance: the keys that mean something, each with what it does.
/// `picked` says whether a document is being moved, `included` whether the
/// selected document is in the ordered subset.
pub open spec fn guidance_text(picked: bool, included: bool) -> Seq<char> {
    bound(" Quit ["@, QUIT) + bound(", Up ["@, UP) + bound(", Down ["@, DOWN) + if picked {
        bound(", Unpick ["@, PICK_TOGGLE)
    } else {
        bound(", Pick ["@, PICK_TOGGLE) + if included {
            bound(", Exclude ["@, INCLUDE_TOGGLE)
        } else {
            bound(", Include ["@, INCLUDE_TOGGLE)
        } + bound(", Save ["@, SAVE)
    }
}

/// The number of lines that a guidance of `length` characters takes up on a
/// screen `width` columns wide.
pub open spec fn guidance_lines(length: int, width: int) -> int {
    1 + length / width
}

/// The number of bytes of a text.
pub open spec fn byte_len(text: Seq<char>) -> usize {
    vstd::utf8::encode_utf8(text).len() as usize
}

/// How wide the entry of a document is in a column: titles are measured in
/// terminal columns, wide characters counted as such, names in bytes.
pub open spec fn measure(page: PageView, column: Column) -> int {
    match column {
        Column::Title => match page.title {
            Some(title) => cjk_width(title) as int,
            None => 0,
        },
        Column::File => byte_len(page.file_name) as int,
        Column::Directory => byte_len(page.directory) as int,
    }
}

/// The greatest of `entries` and `floor`.
pub open spec fn widest_of(entries: Seq<usize>, floor: int) -> int
    decreases entries.len(),
{
    if entries.len() == 0 {
        floor
    } else {
        let rest = widest_of(entries.drop_last(), floor);
        if entries.last() > rest {
            entries.last() as int
        } else {
            rest
        }
    }
}

/// The width of a column: that of its widest entry, and at least `floor`.
pub open spec fn column_width(pages: Seq<PageView>, column: Column, floor: int) -> int {
    widest_of(Seq::new(pages.len(), |i: int| measure(pages[i], column) as usize), floor)
}

/// The heading of the column of titles.
pub open spec fn title_heading() -> Seq<char> {
    "Title"@
}

/// The heading of the column of file names.
pub open spec fn file_heading() -> Seq<char> {
    "File"@
}

/// The heading of the column of directories.
pub open spec fn directory_heading() -> Seq<char> {
    "Dirctory"@
}

impl Row {
    /// Whether the row shows `page`.
    pub open spec fn shows(&self, page: PageView) -> bool {
        &&& self.title@ == match page.title {
            Some(title) => title,
            None => Seq::<char>::empty(),
        }
        &&& self.mark@ == if page.value is None {
            "x"@
        } else {
            Seq::<char>::empty()
        }
        &&& self.file_name@ == page.file_name
        &&& self.directory@ == page.directory
    }
}

impl AppView {
    /// The session after a change of state: the state left is remembered.
    pub open spec fn entered(self, status: Status) -> AppView {
        AppView { current: status, previous: self.current, ..self }
    }

    /// The session with the selection at `selected`.
    pub open spec fn selecting(self, selected: int) -> AppView {
        AppView { selected, ..self }
    }

    /// The session with the documents `pages`.
    pub open spec fn holding(self, pages: Seq<PageView>) -> AppView {
        AppView { pages, ..self }
    }

    /// Whether the selected document is in the ordered subset.
    pub open spec fn selected_is_included(self) -> bool {
        self.pages[self.selected].value is Some
    }

    /// Whether `after` and `r` are what a key that means `input` makes of the
    /// session while the user browses the list.
    ///
    /// The selection moves by one and stops at both ends. A toggle flips the
    /// membership of the selected document, and leaves the state as it is; on
    /// an empty list it fails.
    pub open spec fn unpicked_step(
        self,
        input: Input,
        after: AppView,
        r: Result<Action, OrderError>,
    ) -> bool {
        match input {
            Input::Quit => after == self.entered(Status::AskQuit) && r == Ok::<Action, OrderError>(
                Action::Redraw,
            ),
            Input::Save => after == self.entered(Status::AskSave) && r == Ok::<Action, OrderError>(
                Action::Redraw,
            ),
            Input::Up => after == self.entered(Status::Unpicked).selecting(
                if self.selected != 0 {
                    self.selected - 1
                } else {
                    self.selected
                },
            ) && r == Ok::<Action, OrderError>(Action::Redraw),
            Input::Down => after == self.entered(Status::Unpicked).selecting(
                if self.selected + 1 < self.pages.len() {
                    self.selected + 1
                } else {
                    self.selected
                },
            ) && r == Ok::<Action, OrderError>(Action::Redraw),
            Input::Toggle => if self.selected < self.pages.len() {
                after == self.holding(toggled_pages(self.pages, self.selected)) && r == Ok::<
                    Action,
                    OrderError,
                >(Action::Redraw)
            } else {
                after == self && r == Err::<Action, OrderError>(
                    OrderError::IndexOutOfRange(self.selected as usize),
                )
            },
            Input::Pick => after == self.entered(Status::Picked) && r == Ok::<Action, OrderError>(
                Action::Redraw,
            ),
            _ => after == self && r == Ok::<Action, OrderError>(Action::Redraw),
        }
    }

    /// Whether `after` and `r` are what a key that means `input` makes of the
    /// session while the user moves a document.
    ///
    /// The selected document trades places with its neighbour, and the
    /// selection goes with it; at the ends of the list nothing moves.
    pub open spec fn picked_step(
        self,
        input: Input,
        after: AppView,
        r: Result<Action, OrderError>,
    ) -> bool {
        &&& r == Ok::<Action, OrderError>(Action::Redraw)
        &&& match input {
            Input::Quit => after == self.entered(Status::AskQuit),
            Input::Up => after == if self.selected != 0 {
                self.entered(Status::Picked).holding(
                    swapped_pages(self.pages, self.selected, self.selected - 1),
                ).selecting(self.selected - 1)
            } else {
                self.entered(Status::Picked)
            },
            Input::Down => after == if self.selected + 1 < self.pages.len() {
                self.entered(Status::Picked).holding(
                    swapped_pages(self.pages, self.selected, self.selected + 1),
                ).selecting(self.selected + 1)
            } else {
                self.entered(Status::Picked)
            },
            Input::Pick => after == self.entered(Status::Unpicked),
            _ => after == self,
        }
    }

    /// Whether `after` and `r` are what a key that means `input` makes of the
    /// session while the user is asked whether to quit: the session ends on
    /// the confirmation, and goes back to the state before on any other key.
    pub open spec fn ask_quit_step(
        self,
        input: Input,
        after: AppView,
        r: Result<Action, OrderError>,
    ) -> bool {
        match input {
            Input::Confirm => after == self.entered(Status::Quit) && r == Ok::<Action, OrderError>(
                Action::Quit,
            ),
            _ => after == self.entered(self.previous) && r == Ok::<Action, OrderError>(
                Action::Redraw,
            ),
        }
    }

    /// Whether `after` and `r` are what a key that means `input` makes of the
    /// session while the user is asked whether to save: on the confirmation
    /// every ordering value is written into its front matter, the files are
    /// left to the caller to write, and the session ends. Any other key leads
    /// back to the state before.
    pub open spec fn ask_save_step(
        self,
        input: Input,
        after: AppView,
        r: Result<Action, OrderError>,
    ) -> bool {
        match input {
            Input::Confirm => {
                &&& r == Ok::<Action, OrderError>(Action::Persist)
                &&& after.current == Status::Quit
                &&& after.previous == Status::AskSave
                &&& after.selected == self.selected
                &&& after.key == self.key
                &&& after.pages.len() == self.pages.len()
                &&& forall|i: int|
                    0 <= i < self.pages.len() ==> (#[trigger] after.pages[i]).is_substituted(
                        self.pages[i],
                        self.key,
                    )
            },
            _ => after == self.entered(self.previous) && r == Ok::<Action, OrderError>(
                Action::Redraw,
            ),
        }
    }

    /// Whether `after` and `r` are what `key` makes of the session. A session
    /// that has ended takes no key.
    pub open spec fn step(self, key: Key, after: AppView, r: Result<Action, OrderError>) -> bool {
        match self.current {
            Status::Unpicked => self.unpicked_step(unpicked_input(key), after, r),
            Status::Picked => self.picked_step(picked_input(key), after, r),
            Status::AskQuit => self.ask_quit_step(answer_input(key), after, r),
            Status::AskSave => self.ask_save_step(answer_input(key), after, r),
            Status::Quit => false,
        }
    }

    /// Whether the table of documents can be drawn on a screen of `width`
    /// columns and `height` lines: there is a document to select, and the
    /// guidance and the empty line below it find room.
    pub open spec fn table_fits(self, picked: bool, width: int, height: int) -> bool {
        &&& 0 < self.pages.len()
        &&& 0 < width
        &&& guidance_lines(
            guidance_text(picked, self.selected_is_included()).len() as int,
            width,
        ) + 1 <= height
    }

    /// Whether the screen of the state can be drawn. A question always can.
    pub open spec fn can_draw(self, width: int, height: int) -> bool {
        match self.current {
            Status::Unpicked => self.table_fits(false, width, height),
            Status::Picked => self.table_fits(true, width, height),
            Status::AskQuit => true,
            Status::AskSave => true,
            Status::Quit => false,
        }
    }
}

impl SelectScreen {
    /// Whether the screen shows the session `app` on `width` columns and
    /// `height` lines.
    pub open spec fn shows(&self, app: AppView, picked: bool, width: int, height: int) -> bool {
        &&& self.guidance@ == guidance_text(picked, app.selected_is_included())
        &&& self.guidance_height == guidance_lines(self.guidance@.len() as int, width)
        &&& self.table_height == height - self.guidance_height - 1
        &&& self.header.title@ == title_heading()
        &&& self.header.mark@ == Seq::<char>::empty()
        &&& self.header.file_name@ == file_heading()
        &&& self.header.directory@ == directory_heading()
        &&& self.title_width == column_width(app.pages, Column::Title, title_heading().len() as int)
        &&& self.mark_width == 1
        &&& self.file_width == column_width(app.pages, Column::File, file_heading().len() as int)
        &&& self.directory_width == column_width(
            app.pages,
            Column::Directory,
            directory_heading().len() as int,
        )
        &&& self.rows@.len() == app.pages.len()
        &&& forall|i: int| 0 <= i < app.pages.len() ==> (#[trigger] self.rows@[i]).shows(app.pages[i])
        &&& self.highlight_symbol@ == if picked {
            " >> "@
        } else {
            " >  "@
        }
        &&& self.selected == app.selected
    }
}

impl Screen {
    /// Whether the screen shows the session `app` on `width` columns and
    /// `height` lines.
    pub open spec fn shows(&self, app: AppView, width: int, height: int) -> bool {
        match app.current {
            Status::Unpicked => self matches Screen::Select(screen) && screen.shows(
                app,
                false,
                width,
                height,
            ),
            Status::Picked => self matches Screen::Select(screen) && screen.shows(
                app,
                true,
                width,
                height,
            ),
            Status::AskQuit => self matches Screen::AskQuit(prompt) && prompt.title@
                == "Quit without save?"@ && prompt.message@ == "Y / [n]"@,
            Status::AskSave => self matches Screen::AskSave(prompt) && prompt.title@
                == "Save and quit?"@ && prompt.message@ == "Y / [n]"@,
            Status::Quit => false,
        }
    }
}

impl View for App {
    type V = AppView;

    closed spec fn view(&self) -> AppView {
        AppView {
            pages: self.page_list@,
            key: self.page_list.ordering_key(),
            selected: self.selected_idx as int,
            current: self.current_status,
            previous: self.previous_status,
        }
    }
}

/// The length of the longest guidance.
proof fn lemma_guidance_len(picked: bool, included: bool)
    ensures
        guidance_text(picked, included).len() <= 60,
{
    reveal_strlit(" Quit [");
    reveal_strlit(", Up [");
    reveal_strlit(", Down [");
    reveal_strlit(", Unpick [");
    reveal_strlit(", Pick [");
    reveal_strlit(", Exclude [");
    reveal_strlit(", Include [");
    reveal_strlit(", Save [");
    reveal_strlit("]");
}

/// Appends a label, a key and the closing bracket to a guidance.
fn push_bound(text: &mut String, label: &str, key: char)
    ensures
        final(text)@ == old(text)@ + bound(label@, key),
{
    text.append(label);
    push_char(text, key);
    text.append("]");
    assert(text@ =~= old(text)@ + bound(label@, key));
}

impl App {
    /// The documents of the session.
    pub closed spec fn list(&self) -> PageList {
        self.page_list
    }

    /// The invariant of the session: that of the list; the selection is on a
    /// document, or at 0 where there is none; and a question was asked from one
    /// of the two states in which the list is shown.
    pub open spec fn wf(&self) -> bool {
        &&& self.list().wf()
        &&& self.list()@ == self@.pages
        &&& self.list().ordering_key() == self@.key
        &&& 0 <= self@.selected
        &&& self@.selected < self@.pages.len() || self@.selected == 0
        &&& (self@.current == Status::AskQuit || self@.current == Status::AskSave) ==> (
        self@.previous == Status::Unpicked || self@.previous == Status::Picked)
    }

    /// Begins a session on a list: in the state `Unpicked`, with the first
    /// document selected.
    pub fn new(page_list: PageList) -> (r: App)
        requires
            page_list.wf(),
        ensures
            r.wf(),
            r.list() == page_list,
            r@ == (AppView {
                pages: page_list@,
                key: page_list.ordering_key(),
                selected: 0,
                current: Status::Unpicked,
                previous: Status::Unpicked,
            }),
    {
        Self {
            page_list,
            selected_idx: 0,
            current_status: Default::default(),
            previous_status: Default::default(),
        }
    }

    /// Tells whether the invariant of the session holds.
    pub fn is_well_formed(&self) -> (r: bool)
        ensures
            r == self.wf(),
    {
        let asked_from_a_list = match self.current_status {
            Status::AskQuit | Status::AskSave => match self.previous_status {
                Status::Unpicked | Status::Picked => true,
                _ => false,
            },
            _ => true,
        };
        self.page_list.is_well_formed() && (self.selected_idx < self.page_list.len()
            || self.selected_idx == 0) && asked_from_a_list
    }

    /// The list of documents.
    pub fn page_list(&self) -> (r: &PageList)
        ensures
            *r == self.list(),
    {
        &self.page_list
    }

    /// The position of the selected document.
    pub fn selected_idx(&self) -> (r: usize)
        ensures
            r == self@.selected,
    {
        self.selected_idx
    }

    /// The state.
    pub fn current_status(&self) -> (r: Status)
        ensures
            r == self@.current,
    {
        self.current_status
    }

    /// The state before the last change of state.
    pub fn previous_status(&self) -> (r: Status)
        ensures
            r == self@.previous,
    {
        self.previous_status
    }

    /// Changes the state, and remembers the one left.
    fn update_status(&mut self, status: Status)
        ensures
            final(self)@ == old(self)@.entered(status),
            final(self).list() == old(self).list(),
    {
        self.previous_status = self.current_status;
        self.current_status = status;
    }

    /// Takes a key: edits the list or changes the state as the key asks in the
    /// state of the session, and says what the caller has to do next.
    ///
    /// An edit that the list refuses is handed on as an error, and the session
    /// is left as it was.
    pub fn transition(&mut self, key: Key) -> (r: Result<Action, OrderError>)
        requires
            old(self).wf(),
            old(self)@.current != Status::Quit,
            old(self)@.current == Status::AskSave && key == Key::Char(CONFIRM) ==> old(
                self,
            ).list().all_mappings(),
        ensures
            final(self).wf(),
            old(self)@.step(key, final(self)@, r),
    {
        match self.current_status {
            Status::Unpicked => self.unpicked(key),
            Status::Picked => self.picked(key),
            Status::AskQuit => self.ask_quit(key),
            Status::AskSave => self.ask_save(key),
            Status::Quit => vstd::pervasive::unreached(),
        }
    }

    /// Takes a key while the user browses the list.
    fn unpicked(&mut self, key: Key) -> (r: Result<Action, OrderError>)
        requires
            old(self).wf(),
            old(self)@.current == Status::Unpicked,
        ensures
            final(self).wf(),
            old(self)@.unpicked_step(unpicked_input(key), final(self)@, r),
    {
        match key {
            Key::Char(c) => {
                if c == QUIT {
                    self.update_status(Status::AskQuit);
                } else if c == SAVE {
                    self.update_status(Status::AskSave);
                } else if c == UP {
                    self.select_previous();
                } else if c == DOWN {
                    self.select_next();
                } else if c == INCLUDE_TOGGLE {
                    match self.page_list.toggle_value(self.selected_idx) {
                        Ok(()) => {},
                        Err(error) => {
                            return Err(error);
                        },
                    }
                } else if c == PICK_TOGGLE {
                    self.update_status(Status::Picked);
                }
            },
            Key::Up => {
                self.select_previous();
            },
            Key::Down => {
                self.select_next();
            },
            Key::Other => {},
        }
        Ok(Action::Redraw)
    }

    /// Moves the selection up by one, unless it is on the first document.
    fn select_previous(&mut self)
        requires
            old(self).wf(),
            old(self)@.current == Status::Unpicked,
        ensures
            final(self).wf(),
            old(self)@.unpicked_step(Input::Up, final(self)@, Ok(Action::Redraw)),
    {
        self.update_status(Status::Unpicked);
        if self.selected_idx != 0 {
            self.selected_idx -= 1;
        }
    }

    /// Moves the selection down by one, unless it is on the last document.
    fn select_next(&mut self)
        requires
            old(self).wf(),
            old(self)@.current == Status::Unpicked,
        ensures
            final(self).wf(),
            old(self)@.unpicked_step(Input::Down, final(self)@, Ok(Action::Redraw)),
    {
        self.update_status(Status::Unpicked);
        let n = self.page_list.len();
        if n > 0 && self.selected_idx < n - 1 {
            self.selected_idx += 1;
        }
    }

    /// Takes a key while the user moves a document.
    fn picked(&mut self, key: Key) -> (r: Result<Action, OrderError>)
        requires
            old(self).wf(),
            old(self)@.current == Status::Picked,
        ensures
            final(self).wf(),
            old(self)@.picked_step(picked_input(key), final(self)@, r),
    {
        match key {
            Key::Char(c) => {
                if c == QUIT {
                    self.update_status(Status::AskQuit);
                } else if c == UP {
                    self.move_up();
                } else if c == DOWN {
                    self.move_down();
                } else if c == PICK_TOGGLE {
                    self.update_status(Status::Unpicked);
                }
            },
            Key::Up => {
                self.move_up();
            },
            Key::Down => {
                self.move_down();
            },
            Key::Other => {},
        }
        Ok(Action::Redraw)
    }

    /// Moves the selected document up by one, unless it is the first.
    fn move_up(&mut self)
        requires
            old(self).wf(),
            old(self)@.current == Status::Picked,
        ensures
            final(self).wf(),
            old(self)@.picked_step(Input::Up, final(self)@, Ok(Action::Redraw)),
    {
        self.update_status(Status::Picked);
        if self.selected_idx != 0 {
            let swapped = self.page_list.swap_with_value(self.selected_idx, SwapDirection::Prev);
            assert(swapped is Ok);
            self.selected_idx -= 1;
        }
    }

    /// Moves the selected document down by one, unless it is the last.
    fn move_down(&mut self)
        requires
            old(self).wf(),
            old(self)@.current == Status::Picked,
        ensures
            final(self).wf(),
            old(self)@.picked_step(Input::Down, final(self)@, Ok(Action::Redraw)),
    {
        self.update_status(Status::Picked);
        let n = self.page_list.len();
        if n > 0 && self.selected_idx < n - 1 {
            let swapped = self.page_list.swap_with_value(self.selected_idx, SwapDirection::Next);
            assert(swapped is Ok);
            self.selected_idx += 1;
        }
    }

    /// Takes the answer to the question whether to quit.
    fn ask_quit(&mut self, key: Key) -> (r: Result<Action, OrderError>)
        requires
            old(self).wf(),
            old(self)@.current == Status::AskQuit,
        ensures
            final(self).wf(),
            old(self)@.ask_quit_step(answer_input(key), final(self)@, r),
    {
        match key {
            Key::Char(c) => {
                if c == CONFIRM {
                    self.update_status(Status::Quit);
                    return Ok(Action::Quit);
                }
            },
            _ => {},
        }
        self.update_status(self.previous_status);
        Ok(Action::Redraw)
    }

    /// Takes the answer to the question whether to save.
    fn ask_save(&mut self, key: Key) -> (r: Result<Action, OrderError>)
        requires
            old(self).wf(),
            old(self)@.current == Status::AskSave,
            key == Key::Char(CONFIRM) ==> old(self).list().all_mappings(),
        ensures
            final(self).wf(),
            old(self)@.ask_save_step(answer_input(key), final(self)@, r),
    {
        match key {
            Key::Char(c) => {
                if c == CONFIRM {
                    self.page_list.substitute_value();
                    self.update_status(Status::Quit);
                    return Ok(Action::Persist);
                }
            },
            _ => {},
        }
        self.update_status(self.previous_status);
        Ok(Action::Redraw)
    }

    /// Tells whether the front matter of every document is a mapping, which a
    /// confirmed save asks for.
    pub fn can_save(&self) -> (r: bool)
        ensures
            r == self.list().all_mappings(),
    {
        self.page_list.has_all_mappings()
    }

    /// Tells whether the screen of the state can be drawn on `width` columns
    /// and `height` lines.
    pub fn can_draw(&self, width: u16, height: u16) -> (r: bool)
        requires
            self.wf(),
        ensures
            r == self@.can_draw(width as int, height as int),
    {
        match self.current_status {
            Status::Unpicked => self.table_fits(false, width, height),
            Status::Picked => self.table_fits(true, width, height),
            Status::AskQuit => true,
            Status::AskSave => true,
            Status::Quit => false,
        }
    }

    /// Tells whether the table of documents can be drawn.
    fn table_fits(&self, picked: bool, width: u16, height: u16) -> (r: bool)
        requires
            self.wf(),
        ensures
            r == self@.table_fits(picked, width as int, height as int),
    {
        if self.page_list.len() == 0 || width == 0 {
            return false;
        }
        let guidance = self.guidance(picked);
        let length = guidance.as_str().unicode_len();
        proof {
            lemma_guidance_len(picked, self@.selected_is_included());
        }
        let lines = 1 + length / (width as usize);
        lines + 1 <= height as usize
    }

    /// What the screen shows in the state of the session.
    pub fn ui(&self, width: u16, height: u16) -> (r: Screen)
        requires
            self.wf(),
            self@.can_draw(width as int, height as int),
        ensures
            r.shows(self@, width as int, height as int),
    {
        match self.current_status {
            Status::Unpicked => Screen::Select(self.ui_select(false, width, height)),
            Status::Picked => Screen::Select(self.ui_select(true, width, height)),
            Status::AskQuit => Screen::AskQuit(Self::ui_ask_quit()),
            Status::AskSave => Screen::AskSave(Self::ui_ask_save()),
            Status::Quit => vstd::pervasive::unreached(),
        }
    }

    /// The table of documents: the guidance, a row for each document with its
    /// title, its mark, its file name and its directory, columns as wide as
    /// their widest entry and their heading, and the selected row marked.
    pub fn ui_select(&self, picked: bool, width: u16, height: u16) -> (r: SelectScreen)
        requires
            self.wf(),
            self@.table_fits(picked, width as int, height as int),
        ensures
            r.shows(self@, picked, width as int, height as int),
    {
        let guidance = self.guidance(picked);
        let length = guidance.as_str().unicode_len();
        proof {
            lemma_guidance_len(picked, self@.selected_is_included());
        }
        let guidance_height: u16 = 1 + (length / (width as usize)) as u16;
        let table_height: u16 = height - guidance_height - 1;
        let header = Row {
            title: String::from_str("Title"),
            mark: String::new(),
            file_name: String::from_str("File"),
            directory: String::from_str("Dirctory"),
        };
        proof {
            reveal_strlit("Title");
            reveal_strlit("File");
            reveal_strlit("Dirctory");
        }
        let title_width = self.widest(Column::Title, 5);
        let file_width = self.widest(Column::File, 4);
        let directory_width = self.widest(Column::Directory, 8);
        let n = self.page_list.len();
        let mut rows: Vec<Row> = Vec::new();
        let mut i: usize = 0;
        while i < n
            invariant
                i <= n,
                n == self@.pages.len(),
                rows@.len() == i,
                forall|m: int| 0 <= m < i ==> (#[trigger] rows@[m]).shows(self@.pages[m]),
            decreases n - i,
        {
            rows.push(Self::row_of(self.page_list.page(i)));
            i += 1;
        }
        let highlight_symbol = if picked {
            String::from_str(" >> ")
        } else {
            String::from_str(" >  ")
        };
        SelectScreen {
            guidance,
            guidance_height,
            table_height,
            header,
            title_width,
            mark_width: 1,
            file_width,
            directory_width,
            rows,
            highlight_symbol,
            selected: self.selected_idx,
        }
    }

    /// The row of a document.
    fn row_of(page: &Page) -> (r: Row)
        ensures
            r.shows(page@),
    {
        let title = match page.title() {
            Some(title) => title.clone(),
            None => String::new(),
        };
        let mark = match page.value() {
            Some(_) => String::new(),
            None => String::from_str("x"),
        };
        Row { title, mark, file_name: page.file_name().clone(), directory: page.directory().clone() }
    }

    /// The width of a column: that of its widest entry, and at least `floor`.
    fn widest(&self, column: Column, floor: usize) -> (r: usize)
        ensures
            r == column_width(self@.pages, column, floor as int),
    {
        let n = self.page_list.len();
        let mut entries: Vec<usize> = Vec::new();
        let mut i: usize = 0;
        while i < n
            invariant
                i <= n,
                n == self@.pages.len(),
                entries@.len() == i,
                forall|m: int| 0 <= m < i ==> entries@[m] == measure(self@.pages[m], column),
            decreases n - i,
        {
            let page = self.page_list.page(i);
            let entry = match column {
                Column::Title => match page.title() {
                    Some(title) => width_cjk(title.as_str()),
                    None => 0,
                },
                Column::File => page.file_name().as_str().len(),
                Column::Directory => page.directory().as_str().len(),
            };
            entries.push(entry);
            i += 1;
        }
        assert(entries@ =~= Seq::new(
            self@.pages.len(),
            |i: int| measure(self@.pages[i], column) as usize,
        ));
        Self::widest_entry(&entries, floor)
    }

    /// The greatest of `entries` and `floor`.
    pub fn widest_entry(entries: &Vec<usize>, floor: usize) -> (r: usize)
        ensures
            r == widest_of(entries@, floor as int),
    {
        let n = entries.len();
        let mut width = floor;
        let mut i: usize = 0;
        assert(entries@.take(0) =~= Seq::empty());
        while i < n
            invariant
                i <= n,
                n == entries@.len(),
                width == widest_of(entries@.take(i as int), floor as int),
            decreases n - i,
        {
            proof {
                assert(entries@.take(i + 1).drop_last() =~= entries@.take(i as int));
                assert(entries@.take(i + 1).last() == entries@[i as int]);
            }
            if entries[i] > width {
                width = entries[i];
            }
            i += 1;
        }
        assert(entries@.take(n as int) =~= entries@);
        width
    }

    /// The question whether to quit without saving.
    pub fn ui_ask_quit() -> (r: Prompt)
        ensures
            r.title@ == "Quit without save?"@,
            r.message@ == "Y / [n]"@,
    {
        Prompt { title: String::from_str("Quit without save?"), message: String::from_str("Y / [n]") }
    }

    /// The question whether to save and quit.
    pub fn ui_ask_save() -> (r: Prompt)
        ensures
            r.title@ == "Save and quit?"@,
            r.message@ == "Y / [n]"@,
    {
        Prompt { title: String::from_str("Save and quit?"), message: String::from_str("Y / [n]") }
    }

    /// The guidance of the state: the keys that mean something in it. While
    /// the user browses, it says of the selected document whether the toggle
    /// takes it in or out.
    pub fn guidance(&self, picked: bool) -> (r: String)
        requires
            picked || self@.selected < self@.pages.len(),
        ensures
            r@ == guidance_text(picked, self@.selected_is_included()),
    {
        let mut guidance = String::new();
        push_bound(&mut guidance, " Quit [", QUIT);
        push_bound(&mut guidance, ", Up [", UP);
        push_bound(&mut guidance, ", Down [", DOWN);
        if picked {
            push_bound(&mut guidance, ", Unpick [", PICK_TOGGLE);
        } else {
            push_bound(&mut guidance, ", Pick [", PICK_TOGGLE);
            let included = match self.page_list.get(self.selected_idx) {
                Some(page) => page.value().is_some(),
                None => false,
            };
            if included {
                push_bound(&mut guidance, ", Exclude [", INCLUDE_TOGGLE);
            } else {
                push_bound(&mut guidance, ", Include [", INCLUDE_TOGGLE);
            }
            push_bound(&mut guidance, ", Save [", SAVE);
        }
        assert(guidance@ =~= guidance_text(picked, self@.selected_is_included()));
        guidance
    }
}

} // verus!
