//! The picker's state, and what each key does to it.

use crate::selection;
use crate::selection::{clamp_selected, move_selection_down, move_selection_up};
use crate::types::{FileSearchView, HistorySearchView, PickerMode};
use vstd::prelude::*;

verus! {

/// The state of the picker: the query, the list that was found for it, and the
/// selected row.
#[derive(Debug, Clone)]
pub struct Picker {
    pub mode: PickerMode,
    pub query: String,
    pub selected: usize,
    pub scroll: usize,
    pub files: Option<FileSearchView>,
    pub history: Option<HistorySearchView>,
}

/// What a search found.
#[derive(Debug, Clone)]
pub enum SearchResults {
    Files(FileSearchView),
    History(HistorySearchView),
}

/// A key, as far as the picker tells keys apart.
#[derive(Debug, Clone, Copy)]
pub enum KeyInput {
    Enter,
    Escape,
    Up,
    Down,
    Backspace,
    Char(char),
    Other,
}

/// What happened to a key, and whether the control key was held.
#[derive(Debug, Clone, Copy)]
pub struct KeyPress {
    pub key: KeyInput,
    pub control: bool,
    pub pressed: bool,
}

/// What happened on the terminal.
#[derive(Debug, Clone, Copy)]
pub enum UiEvent {
    Key(KeyPress),
    Resize,
    Other,
}

/// What is to be done next. After `Search` the query is to be searched for and
/// the list drawn; `Draw` asks for the drawing alone.
#[derive(Debug, Clone)]
pub enum Action {
    Wait,
    Draw,
    Search,
    Accept(String),
    Cancel,
}

/// What a key asks for.
pub enum Command {
    Accept,
    Cancel,
    Up,
    Down,
    Erase,
    Insert(char),
    Nothing,
}

/// What a key asks for. A key that is released or repeats asks for nothing.
pub open spec fn command_of(press: KeyPress) -> Command {
    if !press.pressed {
        Command::Nothing
    } else {
        match press.key {
            KeyInput::Enter => Command::Accept,
            KeyInput::Escape => Command::Cancel,
            KeyInput::Up => Command::Up,
            KeyInput::Down => Command::Down,
            KeyInput::Backspace => Command::Erase,
            KeyInput::Char(c) => if !press.control {
                Command::Insert(c)
            } else if c == 'c' {
                Command::Cancel
            } else if c == 'p' {
                Command::Up
            } else if c == 'n' {
                Command::Down
            } else {
                Command::Nothing
            },
            KeyInput::Other => Command::Nothing,
        }
    }
}

/// What a key asks for.
fn read_key(press: KeyPress) -> (r: Command)
    ensures
        r == command_of(press),
{
    if !press.pressed {
        return Command::Nothing;
    }
    match press.key {
        KeyInput::Enter => Command::Accept,
        KeyInput::Escape => Command::Cancel,
        KeyInput::Up => Command::Up,
        KeyInput::Down => Command::Down,
        KeyInput::Backspace => Command::Erase,
        KeyInput::Char(c) => {
            if !press.control {
                Command::Insert(c)
            } else if c == 'c' {
                Command::Cancel
            } else if c == 'p' {
                Command::Up
            } else if c == 'n' {
                Command::Down
            } else {
                Command::Nothing
            }
        },
        KeyInput::Other => Command::Nothing,
    }
}

impl Picker {
    /// How many rows the list has.
    pub open spec fn rows(self) -> int {
        match self.mode {
            PickerMode::Files => match self.files {
                Some(view) => view.matches@.len() as int,
                None => 0,
            },
            PickerMode::History => match self.history {
                Some(view) => view.matches@.len() as int,
                None => 0,
            },
        }
    }

    /// Whether the selected row is one of the list, or the first of an empty one.
    pub open spec fn well_placed(self) -> bool {
        self.selected == selection::clamped(self.selected as int, self.rows())
    }

    /// What the selected row stands for: the path of a file from the root, or a
    /// command.
    pub open spec fn choice(self) -> Option<Seq<char>> {
        if self.selected < self.rows() {
            match self.mode {
                PickerMode::Files => Some(
                    self.files->Some_0.matches@[self.selected as int].relative_path@,
                ),
                PickerMode::History => Some(
                    self.history->Some_0.matches@[self.selected as int].command@,
                ),
            }
        } else {
            None
        }
    }

    /// Whether moving past an end of the list goes to the other end.
    pub open spec fn wraps(self) -> bool {
        self.mode is Files
    }

    /// Whether nothing but the selected row differs.
    pub open spec fn moved_from(self, before: Picker, selected: int) -> bool {
        &&& self.selected == selected
        &&& self.mode == before.mode
        &&& self.query@ == before.query@
        &&& self.scroll == before.scroll
        &&& self.files == before.files
        &&& self.history == before.history
    }

    /// Whether the query is a new one and the list is at its beginning.
    pub open spec fn asks_anew(self, before: Picker, query: Seq<char>) -> bool {
        &&& self.query@ == query
        &&& self.selected == 0
        &&& self.scroll == 0
        &&& self.mode == before.mode
        &&& self.files == before.files
        &&& self.history == before.history
    }

    /// A picker without a list.
    pub fn new(mode: PickerMode, query: String) -> (r: Picker)
        ensures
            r.mode == mode,
            r.query@ == query@,
            r.selected == 0,
            r.scroll == 0,
            r.files is None,
            r.history is None,
            r.well_placed(),
    {
        Picker { mode, query, selected: 0, scroll: 0, files: None, history: None }
    }

    /// How many rows the list has.
    pub fn result_len(&self) -> (r: usize)
        ensures
            r == self.rows(),
    {
        match self.mode {
            PickerMode::Files => match &self.files {
                Some(view) => view.matches.len(),
                None => 0,
            },
            PickerMode::History => match &self.history {
                Some(view) => view.matches.len(),
                None => 0,
            },
        }
    }

    /// What taking over the results of a search leads to: the list is the new one,
    /// and a selection past its end moves to its last row.
    pub open spec fn after_refresh(before: Picker, results: SearchResults, after: Picker) -> bool {
        &&& after.mode == before.mode
        &&& after.query@ == before.query@
        &&& after.scroll == before.scroll
        &&& after.files == (match results {
            SearchResults::Files(view) => Some(view),
            SearchResults::History(_) => before.files,
        })
        &&& after.history == (match results {
            SearchResults::Files(_) => before.history,
            SearchResults::History(view) => Some(view),
        })
        &&& after.selected == selection::clamped(before.selected as int, after.rows())
    }

    /// Takes over what a search found. A selection past the end of the new list
    /// moves to its last row.
    pub fn refresh(&mut self, results: SearchResults)
        ensures
            Picker::after_refresh(*old(self), results, *final(self)),
            final(self).well_placed(),
    {
        match results {
            SearchResults::Files(view) => {
                self.files = Some(view);
            },
            SearchResults::History(view) => {
                self.history = Some(view);
            },
        }
        self.selected = clamp_selected(self.selected, self.result_len());
    }

    /// What the selected row stands for.
    pub fn selected_output(&self) -> (r: Option<String>)
        ensures
            r is Some == self.choice() is Some,
            r is Some ==> r->Some_0@ == self.choice()->Some_0,
    {
        match self.mode {
            PickerMode::Files => match &self.files {
                Some(view) => {
                    if self.selected < view.matches.len() {
                        Some(view.matches[self.selected].relative_path.as_str().to_owned())
                    } else {
                        None
                    }
                },
                None => None,
            },
            PickerMode::History => match &self.history {
                Some(view) => {
                    if self.selected < view.matches.len() {
                        Some(view.matches[self.selected].command.as_str().to_owned())
                    } else {
                        None
                    }
                },
                None => None,
            },
        }
    }

    /// What a key leads to: the picker afterwards, and what is to be done.
    pub open spec fn after_key(before: Picker, press: KeyPress, after: Picker, action: Action) -> bool {
        match command_of(press) {
            Command::Accept => {
                &&& after.moved_from(before, before.selected as int)
                &&& match before.choice() {
                    Some(chosen) => action is Accept && action->Accept_0@ == chosen,
                    None => action is Draw,
                }
            },
            Command::Cancel => {
                &&& after.moved_from(before, before.selected as int)
                &&& action is Cancel
            },
            Command::Up => {
                &&& after.moved_from(
                    before,
                    selection::row_above(before.selected as int, before.rows(), before.wraps()),
                )
                &&& action is Draw
            },
            Command::Down => {
                &&& after.moved_from(
                    before,
                    selection::row_below(before.selected as int, before.rows(), before.wraps()),
                )
                &&& action is Draw
            },
            Command::Erase => if before.query@.len() == 0 {
                &&& after.moved_from(before, before.selected as int)
                &&& action is Draw
            } else {
                &&& after.asks_anew(before, before.query@.drop_last())
                &&& action is Search
            },
            Command::Insert(c) => {
                &&& after.asks_anew(before, before.query@.push(c))
                &&& action is Search
            },
            Command::Nothing => {
                &&& after.moved_from(before, before.selected as int)
                &&& action is Draw
            },
        }
    }

    /// Does what a key asks for.
    pub fn handle_key(&mut self, press: KeyPress) -> (action: Action)
        requires
            command_of(press) is Down && old(self).rows() > 0 ==> old(self).selected < usize::MAX,
        ensures
            Picker::after_key(*old(self), press, *final(self), action),
    {
        let wrap: bool = matches!(self.mode, PickerMode::Files);
        match read_key(press) {
            Command::Accept => match self.selected_output() {
                Some(output) => Action::Accept(output),
                None => Action::Draw,
            },
            Command::Cancel => Action::Cancel,
            Command::Up => {
                self.selected = move_selection_up(self.selected, self.result_len(), wrap);
                Action::Draw
            },
            Command::Down => {
                self.selected = move_selection_down(self.selected, self.result_len(), wrap);
                Action::Draw
            },
            Command::Erase => {
                if self.query.as_str().is_empty() {
                    return Action::Draw;
                }
                let erased = self.query.pop();
                self.selected = 0;
                self.scroll = 0;
                Action::Search
            },
            Command::Insert(c) => {
                self.query.push(c);
                self.selected = 0;
                self.scroll = 0;
                Action::Search
            },
            Command::Nothing => Action::Draw,
        }
    }

    /// What an event on the terminal leads to. A resized screen is drawn anew,
    /// and what is neither a key nor a resize is passed over.
    pub open spec fn after_event(
        before: Picker,
        event: UiEvent,
        after: Picker,
        action: Action,
    ) -> bool {
        match event {
            UiEvent::Key(press) => Picker::after_key(before, press, after, action),
            UiEvent::Resize => after == before && action is Draw,
            UiEvent::Other => after == before && action is Wait,
        }
    }

    /// Whether what an event asks for can be done: the row below the selected one
    /// has a number, where that is where to go.
    pub open spec fn can_follow(self, event: UiEvent) -> bool {
        event matches UiEvent::Key(press) && command_of(press) is Down && self.rows() > 0
            ==> self.selected < usize::MAX
    }

    /// Whether what an event asks for can be done.
    pub fn can_handle(&self, event: UiEvent) -> (r: bool)
        ensures
            r == self.can_follow(event),
            self.well_placed() ==> r,
    {
        match event {
            UiEvent::Key(press) => match read_key(press) {
                Command::Down => self.selected < usize::MAX || self.result_len() == 0,
                _ => true,
            },
            _ => true,
        }
    }

    /// Does what an event on the terminal asks for.
    pub fn handle_event(&mut self, event: UiEvent) -> (action: Action)
        requires
            old(self).can_follow(event),
        ensures
            Picker::after_event(*old(self), event, *final(self), action),
    {
        match event {
            UiEvent::Key(press) => self.handle_key(press),
            UiEvent::Resize => Action::Draw,
            UiEvent::Other => Action::Wait,
        }
    }
}

/// Whatever the event, the selected row stays one of the list.
pub proof fn law_events_keep_selection_in_list(
    before: Picker,
    event: UiEvent,
    after: Picker,
    action: Action,
)
    requires
        before.well_placed(),
        Picker::after_event(before, event, after, action),
    ensures
        after.well_placed(),
        after.rows() == before.rows(),
{
    let selected = before.selected as int;
    let len = before.rows();
    if len > 0 {
        selection::law_selection_stays_in_list(selected, len, before.wraps());
        selection::law_selection_stays_in_list(
            selection::row_above(selected, len, before.wraps()),
            len,
            true,
        );
        selection::law_selection_stays_in_list(
            selection::row_below(selected, len, before.wraps()),
            len,
            true,
        );
    }
}

/// What is accepted is the selected row of a list that is not empty. From an
/// empty list nothing is accepted.
pub proof fn law_accepts_only_listed(
    before: Picker,
    event: UiEvent,
    after: Picker,
    action: Action,
)
    requires
        Picker::after_event(before, event, after, action),
    ensures
        action is Accept ==> before.selected < before.rows() && before.choice() == Some(
            action->Accept_0@,
        ),
        before.rows() == 0 ==> !(action is Accept),
{
}

/// Erasing undoes typing. A character is typed and erased again, and each time
/// the list of the new query is taken over. Both keys ask for a search and start
/// at the top of the list; in the end the query is the one before, the first row
/// is selected, and the mode is the same.
pub proof fn law_erase_undoes_insert(
    before: Picker,
    typed: KeyPress,
    longer: Picker,
    first: Action,
    found: SearchResults,
    between: Picker,
    erased: KeyPress,
    shorter: Picker,
    second: Action,
    found_again: SearchResults,
    after: Picker,
)
    requires
        command_of(typed) is Insert,
        command_of(erased) is Erase,
        Picker::after_key(before, typed, longer, first),
        Picker::after_refresh(longer, found, between),
        Picker::after_key(between, erased, shorter, second),
        Picker::after_refresh(shorter, found_again, after),
    ensures
        first is Search,
        between.query@ == before.query@.push(command_of(typed)->Insert_0),
        between.selected == 0,
        between.scroll == 0,
        between.mode == before.mode,
        second is Search,
        after.query@ == before.query@,
        after.selected == 0,
        after.scroll == 0,
        after.mode == before.mode,
{
    let c = command_of(typed)->Insert_0;
    assert(before.query@.push(c).drop_last() =~= before.query@);
}

/// A pressed key for a character without the control key types it, a pressed
/// backspace erases, and neither asks anything of the picker beforehand.
pub proof fn law_typing_is_always_possible(picker: Picker, c: char, control: bool)
    ensures
        ({
            let typed = KeyPress { key: KeyInput::Char(c), control: false, pressed: true };
            &&& command_of(typed) == Command::Insert(c)
            &&& picker.can_follow(UiEvent::Key(typed))
        }),
        ({
            let erased = KeyPress { key: KeyInput::Backspace, control, pressed: true };
            &&& command_of(erased) == Command::Erase
            &&& picker.can_follow(UiEvent::Key(erased))
        }),
{
}

/// A search is asked for exactly where the query has changed.
pub proof fn law_search_iff_query_changed(
    before: Picker,
    event: UiEvent,
    after: Picker,
    action: Action,
)
    requires
        Picker::after_event(before, event, after, action),
    ensures
        action is Search <==> after.query@ != before.query@,
{
    if action is Search {
        assert(after.query@.len() != before.query@.len());
    }
}

/// The result of a run: an error of its own comes before one of the cleaning up
/// behind it.
pub fn run_outcome<T, E>(result: Result<T, E>, cleanup: Result<(), E>) -> (r: Result<T, E>)
    ensures
        r == (match (result, cleanup) {
            (Ok(value), Ok(_)) => Ok::<T, E>(value),
            (Err(error), _) => Err(error),
            (Ok(_), Err(error)) => Err(error),
        }),
{
    match (result, cleanup) {
        (Ok(value), Ok(_)) => Ok(value),
        (Err(error), _) => Err(error),
        (Ok(_), Err(error)) => Err(error),
    }
}

/// The rows of the list are those of the view that the mode asks for.
pub proof fn law_rows_are_those_of_the_mode(picker: &Picker, r: usize)
    requires
        call_ensures(Picker::result_len, (picker,), r),
    ensures
        picker.mode is Files ==> match picker.files {
            Some(view) => r == view.matches@.len(),
            None => r == 0,
        },
        picker.mode is History ==> match picker.history {
            Some(view) => r == view.matches@.len(),
            None => r == 0,
        },
        r == picker.rows(),
{
}

/// A pressed Up key, or P with the control key, selects the row before in either
/// mode, and changes nothing else. From the first row a file list goes to its
/// last one, and a history list stays. In an empty list the first row it is.
pub proof fn law_up_key_selects_row_before(picker: &mut Picker, press: KeyPress, action: Action)
    requires
        call_ensures(Picker::handle_key, (picker, press), action) || call_ensures(
            Picker::handle_event,
            (picker, UiEvent::Key(press)),
            action,
        ),
        press.pressed,
        press.key is Up || (press.key == KeyInput::Char('p') && press.control),
    ensures
        old(picker).rows() > 0 && old(picker).selected > 0 ==> final(picker).selected + 1
            == old(picker).selected,
        old(picker).rows() > 0 && old(picker).selected == 0 && old(picker).mode is Files ==> final(picker).selected + 1 == old(picker).rows(),
        old(picker).rows() > 0 && old(picker).selected == 0 && old(picker).mode is History
            ==> final(picker).selected == 0,
        old(picker).rows() == 0 ==> final(picker).selected == 0,
        final(picker).mode == old(picker).mode,
        final(picker).query@ == old(picker).query@,
        final(picker).scroll == old(picker).scroll,
        final(picker).files == old(picker).files,
        final(picker).history == old(picker).history,
        action is Draw,
{
}

/// A pressed Down key, or N with the control key, selects the next row in either
/// mode, and changes nothing else. From the last row a file list goes to its
/// first one, and a history list stays.
pub proof fn law_down_key_selects_next_row(picker: &mut Picker, press: KeyPress, action: Action)
    requires
        call_ensures(Picker::handle_key, (picker, press), action) || call_ensures(
            Picker::handle_event,
            (picker, UiEvent::Key(press)),
            action,
        ),
        press.pressed,
        press.key is Down || (press.key == KeyInput::Char('n') && press.control),
    ensures
        old(picker).selected + 1 < old(picker).rows() ==> final(picker).selected
            == old(picker).selected + 1,
        old(picker).selected + 1 == old(picker).rows() && old(picker).mode is Files ==> final(picker).selected == 0,
        old(picker).selected + 1 == old(picker).rows() && old(picker).mode is History ==> final(picker).selected == old(picker).selected,
        old(picker).rows() == 0 ==> final(picker).selected == 0,
        final(picker).mode == old(picker).mode,
        final(picker).query@ == old(picker).query@,
        final(picker).scroll == old(picker).scroll,
        final(picker).files == old(picker).files,
        final(picker).history == old(picker).history,
        action is Draw,
{
    let n = old(picker).selected as int + 1;
    if n < old(picker).rows() {
        vstd::arithmetic::div_mod::lemma_small_mod(n as nat, old(picker).rows() as nat);
    } else if n == old(picker).rows() {
        vstd::arithmetic::div_mod::lemma_mod_self_0(n);
    }
}

/// Up after Down gives the row before back, away from the end of the list, and
/// Down after Up away from its beginning. In a file list they do so everywhere.
pub proof fn law_up_and_down_keys_undo_each_other(
    first: &mut Picker,
    one: KeyPress,
    first_action: Action,
    second: &mut Picker,
    other: KeyPress,
    second_action: Action,
)
    requires
        one.pressed,
        other.pressed,
        one.key is Down && other.key is Up || one.key is Up && other.key is Down,
        call_ensures(Picker::handle_key, (first, one), first_action),
        call_ensures(Picker::handle_key, (second, other), second_action),
        *old(second) == *final(first),
        old(first).selected < old(first).rows(),
    ensures
        old(first).mode is Files ==> final(second).selected == old(first).selected,
        one.key is Down && old(first).selected + 1 < old(first).rows() ==> final(second).selected
            == old(first).selected,
        one.key is Up && old(first).selected > 0 ==> final(second).selected == old(first).selected,
        final(second).query@ == old(first).query@,
{
    let at = old(first).selected as int;
    let n = old(first).rows();
    selection::law_wrapping_moves_are_inverse(at, n);
    selection::law_plain_moves_stop_at_the_ends(at, n);
}

/// A pressed Enter hands out the selected row and changes nothing: the path of a
/// file from the root, or a command. Where no row is selected it hands out
/// nothing.
pub proof fn law_enter_accepts_selected_row(picker: &mut Picker, press: KeyPress, action: Action)
    requires
        call_ensures(Picker::handle_key, (picker, press), action) || call_ensures(
            Picker::handle_event,
            (picker, UiEvent::Key(press)),
            action,
        ),
        press.pressed,
        press.key is Enter,
    ensures
        old(picker).mode is Files ==> match old(picker).files {
            Some(view) if old(picker).selected < view.matches@.len() => {
                &&& action is Accept
                &&& action->Accept_0@ == view.matches@[old(picker).selected as int].relative_path@
            },
            _ => action is Draw,
        },
        old(picker).mode is History ==> match old(picker).history {
            Some(view) if old(picker).selected < view.matches@.len() => {
                &&& action is Accept
                &&& action->Accept_0@ == view.matches@[old(picker).selected as int].command@
            },
            _ => action is Draw,
        },
        final(picker).selected == old(picker).selected,
        final(picker).query@ == old(picker).query@,
{
}

/// What the selected row hands out is the path of the file at that place, or the
/// command there.
pub proof fn law_output_is_selected_row(picker: &Picker, r: Option<String>)
    requires
        call_ensures(Picker::selected_output, (picker,), r),
    ensures
        picker.mode is Files ==> match picker.files {
            Some(view) if picker.selected < view.matches@.len() => {
                &&& r is Some
                &&& r->Some_0@ == view.matches@[picker.selected as int].relative_path@
            },
            _ => r is None,
        },
        picker.mode is History ==> match picker.history {
            Some(view) if picker.selected < view.matches@.len() => {
                &&& r is Some
                &&& r->Some_0@ == view.matches@[picker.selected as int].command@
            },
            _ => r is None,
        },
{
}

/// A pressed Escape, or C with the control key, cancels and changes nothing; no
/// other key cancels.
pub proof fn law_escape_cancels(picker: &mut Picker, press: KeyPress, action: Action)
    requires
        call_ensures(Picker::handle_key, (picker, press), action) || call_ensures(
            Picker::handle_event,
            (picker, UiEvent::Key(press)),
            action,
        ),
    ensures
        action is Cancel <==> press.pressed && (press.key is Escape || (press.key
            == KeyInput::Char('c') && press.control)),
        action is Cancel ==> final(picker).selected == old(picker).selected && final(picker).query@
            == old(picker).query@,
{
}

/// A pressed key for a character without the control key appends the character
/// to the query, and asks for a search from the top of the list.
pub proof fn law_character_key_types(
    picker: &mut Picker,
    c: char,
    press: KeyPress,
    action: Action,
)
    requires
        call_ensures(Picker::handle_key, (picker, press), action) || call_ensures(
            Picker::handle_event,
            (picker, UiEvent::Key(press)),
            action,
        ),
        press.pressed,
        press.key == KeyInput::Char(c),
        !press.control,
    ensures
        final(picker).query@ == old(picker).query@.push(c),
        final(picker).selected == 0,
        final(picker).scroll == 0,
        final(picker).mode == old(picker).mode,
        final(picker).files == old(picker).files,
        final(picker).history == old(picker).history,
        action is Search,
{
}

/// A pressed Backspace takes the last character from the query, and asks for a
/// search from the top of the list. An empty query it leaves, and the rest with
/// it.
pub proof fn law_backspace_erases(picker: &mut Picker, press: KeyPress, action: Action)
    requires
        call_ensures(Picker::handle_key, (picker, press), action) || call_ensures(
            Picker::handle_event,
            (picker, UiEvent::Key(press)),
            action,
        ),
        press.pressed,
        press.key is Backspace,
    ensures
        old(picker).query@.len() > 0 ==> {
            &&& final(picker).query@.push(old(picker).query@.last()) == old(picker).query@
            &&& final(picker).selected == 0
            &&& final(picker).scroll == 0
            &&& action is Search
        },
        old(picker).query@.len() == 0 ==> {
            &&& final(picker).query@.len() == 0
            &&& final(picker).selected == old(picker).selected
            &&& final(picker).scroll == old(picker).scroll
            &&& action is Draw
        },
        final(picker).mode == old(picker).mode,
        final(picker).files == old(picker).files,
        final(picker).history == old(picker).history,
{
    if old(picker).query@.len() > 0 {
        assert(final(picker).query@.push(old(picker).query@.last()) =~= old(picker).query@);
    }
}

/// A key that is released or held, one that the picker does not know, and a
/// character with the control key other than C, P and N change nothing.
pub proof fn law_other_keys_change_nothing(
    picker: &mut Picker,
    press: KeyPress,
    action: Action,
)
    requires
        call_ensures(Picker::handle_key, (picker, press), action) || call_ensures(
            Picker::handle_event,
            (picker, UiEvent::Key(press)),
            action,
        ),
        !press.pressed || press.key is Other || (press.control && match press.key {
            KeyInput::Char(c) => c != 'c' && c != 'p' && c != 'n',
            _ => false,
        }),
    ensures
        final(picker).selected == old(picker).selected,
        final(picker).scroll == old(picker).scroll,
        final(picker).query@ == old(picker).query@,
        final(picker).mode == old(picker).mode,
        final(picker).files == old(picker).files,
        final(picker).history == old(picker).history,
        action is Draw,
{
}

/// A resized screen is drawn anew, and what is neither a key nor a resize is
/// waited out. Neither changes the picker.
pub proof fn law_other_events_change_nothing(
    picker: &mut Picker,
    event: UiEvent,
    action: Action,
)
    requires
        call_ensures(Picker::handle_event, (picker, event), action),
        !(event is Key),
    ensures
        *final(picker) == *old(picker),
        event is Resize ==> action is Draw,
        event is Other ==> action is Wait,
{
}

/// The results of a search become the list of their kind, and the other list
/// stays. A selected row that the new list has stays selected; another gives way
/// to its last one. The query is the same.
pub proof fn law_results_become_the_list(picker: &mut Picker, results: SearchResults)
    requires
        call_ensures(Picker::refresh, (picker, results), ()),
    ensures
        results matches SearchResults::Files(view) ==> final(picker).files == Some(view) && final(picker).history == old(picker).history,
        results matches SearchResults::History(view) ==> final(picker).history == Some(view)
            && final(picker).files == old(picker).files,
        old(picker).selected < final(picker).rows() ==> final(picker).selected
            == old(picker).selected,
        0 < final(picker).rows() <= old(picker).selected ==> final(picker).selected + 1 == final(picker).rows(),
        final(picker).rows() == 0 ==> final(picker).selected == 0,
        final(picker).query@ == old(picker).query@,
        final(picker).mode == old(picker).mode,
        final(picker).scroll == old(picker).scroll,
{
}

/// A new picker has the query that it was given, no list, and its first row
/// selected.
pub proof fn law_new_picker_is_at_the_top(mode: PickerMode, query: String, r: Picker)
    requires
        call_ensures(Picker::new, (mode, query), r),
    ensures
        r.mode == mode,
        r.query@ == query@,
        r.selected == 0,
        r.scroll == 0,
        r.files is None,
        r.history is None,
{
}

/// Every event can be handled, except that of moving down from a row that has no
/// number behind it.
pub proof fn law_nearly_every_event_can_be_handled(picker: &Picker, event: UiEvent, r: bool)
    requires
        call_ensures(Picker::can_handle, (picker, event), r),
    ensures
        picker.selected < usize::MAX ==> r,
        picker.selected < picker.rows() || picker.rows() == 0 ==> r,
{
}

/// A run fails with its own error, else with that of cleaning up, and succeeds
/// with its own value where neither failed.
pub proof fn law_own_error_comes_first<T, E>(
    result: Result<T, E>,
    cleanup: Result<(), E>,
    r: Result<T, E>,
)
    requires
        call_ensures(run_outcome::<T, E>, (result, cleanup), r),
    ensures
        result is Err ==> r is Err && r->Err_0 == result->Err_0,
        result is Ok && cleanup is Err ==> r is Err && r->Err_0 == cleanup->Err_0,
        result is Ok && cleanup is Ok ==> r is Ok && r->Ok_0 == result->Ok_0,
{
}

} // verus!
