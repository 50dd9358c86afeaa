//! The picker on the screen: a box below the prompt with the query and the list.

use crate::ansi;
use crate::ansi::{BOLD, CYAN, GRAY, RESET};
use crate::layout;
use crate::layout::truncate;
use crate::lines;
use crate::lines::{file_line, history_line};
use crate::picker::Picker;
use crate::screen;
use crate::screen::{
    clear_rect, desired_height, draw_box, draw_inner_line, ensure_space_below_prompt, move_to,
    BoxArea, HIDE_CURSOR, RESTORE_CURSOR,
};
use crate::selection;
use crate::selection::{ensure_selection_visible, selected_label};
use crate::text;
use crate::types::{FileSearchView, HistorySearchView, PickerMode};
use vstd::prelude::*;

verus! {

/// What is known of the terminal: where the prompt stands, and what was drawn
/// last.
#[derive(Debug, Clone, Copy)]
pub struct TerminalUi {
    pub anchor_row: u16,
    pub anchor_col: u16,
    pub last_box: Option<BoxArea>,
}

/// Why nothing could be drawn: there is no list yet.
#[derive(Debug, Clone, Copy, PartialEq, Eq)]
pub enum RenderError {
    MissingFileView,
    MissingHistoryView,
}

/// What is said of an error.
pub fn render_error_message(error: RenderError) -> (r: &'static str)
    ensures
        r@ == (match error {
            RenderError::MissingFileView => "missing file view"@,
            RenderError::MissingHistoryView => "missing history view"@,
        }),
{
    match error {
        RenderError::MissingFileView => "missing file view",
        RenderError::MissingHistoryView => "missing history view",
    }
}

/// The box for a list below a prompt at `anchor_row`.
pub open spec fn box_area(anchor_row: u16, desired: int, cols: u16, rows: u16) -> BoxArea {
    let row = screen::capped_sum(anchor_row as int, 1);
    let below = screen::floored_difference(rows as int, row);
    let available = if below < 6 {
        6
    } else {
        below
    };
    BoxArea {
        row: row as u16,
        col: 0,
        width: cols,
        height: (if desired < available {
            desired
        } else {
            available
        }) as u16,
    }
}

/// The row of the prompt once there is room for the box below it.
pub open spec fn settled_anchor(anchor_row: u16, desired: int, rows: u16) -> u16 {
    screen::floored_difference(
        anchor_row as int,
        screen::missing_rows(anchor_row, desired as u16, rows),
    ) as u16
}

/// How many rows of the list a box shows.
pub open spec fn visible_rows(area: BoxArea) -> int {
    if area.height <= 5 {
        1
    } else {
        area.height - 4
    }
}

/// The line with the query.
pub open spec fn query_line(query: Seq<char>) -> Seq<char> {
    CYAN@ + "🪿 "@ + RESET@ + query
}

/// The left half of the header over a file list.
pub open spec fn files_label(selected: int, total_matched: int, loaded: int) -> Seq<char> {
    selection::position_label(selected, total_matched) + " ("@ + text::decimal(loaded as nat)
        + " loaded)"@
}

/// The header over a file list: which row is selected, and, at the right end,
/// the root of the search.
pub open spec fn files_header(label: Seq<char>, root: Seq<char>, width: int) -> Seq<char> {
    let right = layout::truncated(root, width - label.len() - 1);
    let free = width - label.len() - right.len();
    let gap = if free < 1 {
        1
    } else {
        free
    };
    BOLD@ + label + RESET@ + text::repeated(' ', gap as nat) + GRAY@ + right + RESET@
}

/// The header over a history list: which row is selected, and how many there
/// are.
pub open spec fn history_header(selected: int, total_matched: int, count: int) -> Seq<char> {
    BOLD@ + selection::position_label(selected, total_matched) + RESET@ + " "@ + GRAY@
        + text::decimal(count as nat) + " shown"@ + RESET@
}

/// A row of a file list, empty past the end of the list.
pub open spec fn file_row_at(
    view: FileSearchView,
    query: Seq<char>,
    selected: int,
    index: int,
    width: int,
) -> Seq<char> {
    if index < view.matches@.len() {
        let item = view.matches@[index];
        lines::file_row(
            item.relative_path@,
            item.git,
            item.badge,
            query,
            index == selected,
            width,
        )
    } else {
        ""@
    }
}

/// The first `count` rows of a file list from `scroll` on.
pub open spec fn file_rows(
    view: FileSearchView,
    query: Seq<char>,
    selected: int,
    scroll: int,
    list_row: int,
    width: u16,
    count: nat,
) -> Seq<char>
    decreases count,
{
    if count == 0 {
        Seq::empty()
    } else {
        file_rows(view, query, selected, scroll, list_row, width, (count - 1) as nat)
            + screen::inner_line(
            (list_row + count - 1) as u16,
            1,
            width,
            file_row_at(view, query, selected, scroll + count - 1, width as int),
        )
    }
}

/// A row of a history list, empty past the end of the list.
pub open spec fn history_row_at(
    view: HistorySearchView,
    selected: int,
    index: int,
    width: int,
) -> Seq<char> {
    if index < view.matches@.len() {
        let item = view.matches@[index];
        lines::history_row(item.display@, item.match_ranges@, index == selected, width)
    } else {
        ""@
    }
}

/// The first `count` rows of a history list from `scroll` on.
pub open spec fn history_rows(
    view: HistorySearchView,
    selected: int,
    scroll: int,
    list_row: int,
    width: u16,
    count: nat,
) -> Seq<char>
    decreases count,
{
    if count == 0 {
        Seq::empty()
    } else {
        history_rows(view, selected, scroll, list_row, width, (count - 1) as nat)
            + screen::inner_line(
            (list_row + count - 1) as u16,
            1,
            width,
            history_row_at(view, selected, scroll + count - 1, width as int),
        )
    }
}

/// What a box with a file list holds: the query, the header, the list.
pub open spec fn files_content(
    view: FileSearchView,
    query: Seq<char>,
    selected: int,
    scroll: int,
    area: BoxArea,
    width: u16,
) -> Seq<char> {
    let label = files_label(selected, view.total_matched as int, view.loaded as int);
    screen::inner_line((area.row + 1) as u16, 1, width, query_line(query)) + screen::inner_line(
        (area.row + 2) as u16,
        1,
        width,
        files_header(label, view.root_display@, width as int),
    ) + file_rows(
        view,
        query,
        selected,
        scroll,
        area.row + 3,
        width,
        visible_rows(area) as nat,
    )
}

/// The row of the query in a box with a history list.
pub open spec fn history_prompt_row(area: BoxArea) -> int {
    area.row + screen::floored_difference(area.height as int, 2)
}

/// What a box with a history list holds: the header, the list, the query.
pub open spec fn history_content(
    view: HistorySearchView,
    query: Seq<char>,
    selected: int,
    scroll: int,
    area: BoxArea,
    width: u16,
) -> Seq<char> {
    screen::inner_line(
        (area.row + 1) as u16,
        1,
        width,
        history_header(selected, view.total_matched as int, view.matches@.len() as int),
    ) + history_rows(view, selected, scroll, area.row + 2, width, visible_rows(area) as nat)
        + screen::inner_line(history_prompt_row(area) as u16, 1, width, query_line(query))
}

/// Whether a list can be scrolled to its selected row without running out of
/// numbers.
pub open spec fn can_scroll(selected: usize, scroll: usize, visible: int) -> bool {
    &&& selected >= scroll ==> scroll + visible <= usize::MAX
    &&& selection::window_start(selected as int, scroll as int, visible) + visible <= usize::MAX
        + 1
}

/// Whether a file list can be drawn in a box: its rows can be counted, and the
/// header fits with one column left for the root.
pub open spec fn files_drawable(
    view: FileSearchView,
    selected: usize,
    scroll: usize,
    area: BoxArea,
    width: u16,
) -> bool {
    &&& screen::rows_fit(area)
    &&& area.row + 2 + visible_rows(area) <= u16::MAX
    &&& can_scroll(selected, scroll, visible_rows(area))
    &&& view.total_matched > 0 ==> selected < usize::MAX
    &&& files_label(selected as int, view.total_matched as int, view.loaded as int).len() < width
}

/// Whether a history list can be drawn in a box: its rows can be counted.
pub open spec fn history_drawable(
    view: HistorySearchView,
    selected: usize,
    scroll: usize,
    area: BoxArea,
) -> bool {
    &&& screen::rows_fit(area)
    &&& area.row + 1 + visible_rows(area) <= u16::MAX
    &&& can_scroll(selected, scroll, visible_rows(area))
    &&& view.total_matched > 0 ==> selected < usize::MAX
}

/// Moves the window so that it shows the selected row.
fn follow_selection(selected: usize, scroll: usize, visible: usize) -> (r: usize)
    requires
        can_scroll(selected, scroll, visible as int),
        visible >= 1,
    ensures
        r == selection::window_start(selected as int, scroll as int, visible as int),
        r + visible <= usize::MAX + 1,
{
    ensure_selection_visible(selected, scroll, visible)
}

/// How many rows of the list a box shows.
fn count_visible(area: BoxArea) -> (r: usize)
    ensures
        r == visible_rows(area),
        1 <= r,
{
    let rows: u16 = area.height.saturating_sub(4);
    if rows < 1 {
        1
    } else {
        rows as usize
    }
}

/// The line with the query.
fn query_text(query: &str) -> (r: String)
    ensures
        r@ == query_line(query@),
{
    let mut r = CYAN.to_owned();
    r.append("🪿 ");
    r.append(RESET);
    r.append(query);
    r
}

/// The left half of the header over a file list.
fn files_label_text(view: &FileSearchView, selected: usize) -> (r: String)
    requires
        view.total_matched > 0 ==> selected < usize::MAX,
    ensures
        r@ == files_label(selected as int, view.total_matched as int, view.loaded as int),
{
    let mut r = selected_label(selected, view.total_matched);
    r.append(" (");
    text::push_decimal(&mut r, view.loaded as u64);
    r.append(" loaded)");
    r
}

/// The header over a file list.
fn files_header_text(label: &str, root: &str, width: usize) -> (r: String)
    requires
        label@.len() < width,
    ensures
        r@ == files_header(label@, root@, width as int),
{
    let taken: usize = text::chars_of(label).len();
    let right = truncate(root, width - taken - 1);
    proof {
        layout::law_truncated_fits(root@, width - taken - 1);
    }
    let right_len: usize = text::chars_of(right.as_str()).len();
    let gap: usize = width - taken - right_len;
    let mut r = BOLD.to_owned();
    r.append(label);
    r.append(RESET);
    text::push_repeated(&mut r, ' ', gap);
    r.append(GRAY);
    r.append(right.as_str());
    r.append(RESET);
    r
}

/// Draws the rows of a file list.
fn draw_file_rows(
    out: &mut String,
    view: &FileSearchView,
    query: &str,
    selected: usize,
    scroll: usize,
    list_row: u16,
    width: u16,
    count: usize,
)
    requires
        list_row + count <= u16::MAX + 1,
        scroll + count <= usize::MAX + 1,
    ensures
        final(out)@ == old(out)@ + file_rows(
            *view,
            query@,
            selected as int,
            scroll as int,
            list_row as int,
            width,
            count as nat,
        ),
{
    let mut offset: usize = 0;
    assert(out@ =~= old(out)@ + file_rows(
        *view,
        query@,
        selected as int,
        scroll as int,
        list_row as int,
        width,
        0,
    ));
    while offset < count
        invariant
            list_row + count <= u16::MAX + 1,
            scroll + count <= usize::MAX + 1,
            offset <= count,
            out@ == old(out)@ + file_rows(
                *view,
                query@,
                selected as int,
                scroll as int,
                list_row as int,
                width,
                offset as nat,
            ),
        decreases count - offset,
    {
        let row: u16 = list_row + offset as u16;
        let index: usize = scroll + offset;
        let ghost before = out@;
        if index < view.matches.len() {
            let line = file_line(
                &view.matches[index],
                query,
                index == selected,
                width as usize,
            );
            draw_inner_line(out, row, 1, width, line.as_str());
        } else {
            draw_inner_line(out, row, 1, width, "");
        }
        proof {
            let row_text = file_row_at(
                *view,
                query@,
                selected as int,
                scroll + (offset + 1) - 1,
                width as int,
            );
            assert(out@ =~= before + screen::inner_line(
                (list_row + (offset + 1) - 1) as u16,
                1,
                width,
                row_text,
            ));
        }
        offset = offset + 1;
        assert(out@ =~= old(out)@ + file_rows(
            *view,
            query@,
            selected as int,
            scroll as int,
            list_row as int,
            width,
            offset as nat,
        ));
    }
}

/// Draws what a box with a file list holds.
fn draw_files(
    out: &mut String,
    view: &FileSearchView,
    query: &str,
    selected: usize,
    scroll: usize,
    area: BoxArea,
    width: u16,
)
    requires
        screen::rows_fit(area),
        area.row + 2 + visible_rows(area) <= u16::MAX,
        scroll + visible_rows(area) <= usize::MAX + 1,
        view.total_matched > 0 ==> selected < usize::MAX,
        files_label(selected as int, view.total_matched as int, view.loaded as int).len() < width,
    ensures
        final(out)@ == old(out)@ + files_content(
            *view,
            query@,
            selected as int,
            scroll as int,
            area,
            width,
        ),
{
    let visible: usize = count_visible(area);
    let prompt = query_text(query);
    draw_inner_line(out, area.row + 1, 1, width, prompt.as_str());
    let label = files_label_text(view, selected);
    let header = files_header_text(label.as_str(), view.root_display.as_str(), width as usize);
    draw_inner_line(out, area.row + 2, 1, width, header.as_str());
    draw_file_rows(out, view, query, selected, scroll, area.row + 3, width, visible);
    assert(out@ =~= old(out)@ + files_content(
        *view,
        query@,
        selected as int,
        scroll as int,
        area,
        width,
    ));
}

/// The header over a history list.
fn history_header_text(view: &HistorySearchView, selected: usize) -> (r: String)
    requires
        view.total_matched > 0 ==> selected < usize::MAX,
    ensures
        r@ == history_header(
            selected as int,
            view.total_matched as int,
            view.matches@.len() as int,
        ),
{
    let label = selected_label(selected, view.total_matched);
    let mut r = BOLD.to_owned();
    r.append(label.as_str());
    r.append(RESET);
    r.append(" ");
    r.append(GRAY);
    text::push_decimal(&mut r, view.matches.len() as u64);
    r.append(" shown");
    r.append(RESET);
    r
}

/// Draws the rows of a history list.
fn draw_history_rows(
    out: &mut String,
    view: &HistorySearchView,
    selected: usize,
    scroll: usize,
    list_row: u16,
    width: u16,
    count: usize,
)
    requires
        list_row + count <= u16::MAX + 1,
        scroll + count <= usize::MAX + 1,
    ensures
        final(out)@ == old(out)@ + history_rows(
            *view,
            selected as int,
            scroll as int,
            list_row as int,
            width,
            count as nat,
        ),
{
    let mut offset: usize = 0;
    assert(out@ =~= old(out)@ + history_rows(
        *view,
        selected as int,
        scroll as int,
        list_row as int,
        width,
        0,
    ));
    while offset < count
        invariant
            list_row + count <= u16::MAX + 1,
            scroll + count <= usize::MAX + 1,
            offset <= count,
            out@ == old(out)@ + history_rows(
                *view,
                selected as int,
                scroll as int,
                list_row as int,
                width,
                offset as nat,
            ),
        decreases count - offset,
    {
        let row: u16 = list_row + offset as u16;
        let index: usize = scroll + offset;
        let ghost before = out@;
        if index < view.matches.len() {
            let line = history_line(&view.matches[index], index == selected, width as usize);
            draw_inner_line(out, row, 1, width, line.as_str());
        } else {
            draw_inner_line(out, row, 1, width, "");
        }
        proof {
            let row_text = history_row_at(
                *view,
                selected as int,
                scroll + (offset + 1) - 1,
                width as int,
            );
            assert(out@ =~= before + screen::inner_line(
                (list_row + (offset + 1) - 1) as u16,
                1,
                width,
                row_text,
            ));
        }
        offset = offset + 1;
        assert(out@ =~= old(out)@ + history_rows(
            *view,
            selected as int,
            scroll as int,
            list_row as int,
            width,
            offset as nat,
        ));
    }
}

/// Draws what a box with a history list holds.
fn draw_history(
    out: &mut String,
    view: &HistorySearchView,
    query: &str,
    selected: usize,
    scroll: usize,
    area: BoxArea,
    width: u16,
)
    requires
        screen::rows_fit(area),
        area.row + 1 + visible_rows(area) <= u16::MAX,
        scroll + visible_rows(area) <= usize::MAX + 1,
        view.total_matched > 0 ==> selected < usize::MAX,
    ensures
        final(out)@ == old(out)@ + history_content(
            *view,
            query@,
            selected as int,
            scroll as int,
            area,
            width,
        ),
{
    let visible: usize = count_visible(area);
    let header = history_header_text(view, selected);
    draw_inner_line(out, area.row + 1, 1, width, header.as_str());
    draw_history_rows(out, view, selected, scroll, area.row + 2, width, visible);
    let prompt = query_text(query);
    let prompt_row: u16 = area.row + area.height.saturating_sub(2);
    draw_inner_line(out, prompt_row, 1, width, prompt.as_str());
    assert(out@ =~= old(out)@ + history_content(
        *view,
        query@,
        selected as int,
        scroll as int,
        area,
        width,
    ));
}

/// The title of the box.
pub open spec fn box_title(mode: PickerMode) -> Seq<char> {
    match mode {
        PickerMode::Files => "FFFiles"@,
        PickerMode::History => "FFFHistory"@,
    }
}

/// How wide the content of the box is.
pub open spec fn content_width(cols: u16) -> u16 {
    screen::floored_difference(cols as int, 2) as u16
}

/// The box that is drawn on a screen of this size.
pub open spec fn drawn_area(
    mode: PickerMode,
    anchor_row: u16,
    cols: u16,
    rows: u16,
    setting: Option<Seq<char>>,
) -> BoxArea {
    let desired = screen::box_rows(mode, rows, setting);
    box_area(settled_anchor(anchor_row, desired, rows), desired, cols, rows)
}

/// What is written before the content: room is made below the prompt, the last
/// box is removed, and an empty one is drawn.
pub open spec fn drawn_frame(
    mode: PickerMode,
    ui: TerminalUi,
    cols: u16,
    rows: u16,
    setting: Option<Seq<char>>,
) -> Seq<char> {
    let desired = screen::box_rows(mode, rows, setting);
    screen::scroll_up(screen::missing_rows(ui.anchor_row, desired as u16, rows)) + match ui.last_box {
        Some(last) => screen::cleared(last, last.height as nat),
        None => Seq::empty(),
    } + HIDE_CURSOR@ + screen::boxed(
        drawn_area(mode, ui.anchor_row, cols, rows, setting),
        box_title(mode),
    )
}

/// Whether the picker has a list to draw.
pub open spec fn has_list(picker: Picker) -> bool {
    match picker.mode {
        PickerMode::Files => picker.files is Some,
        PickerMode::History => picker.history is Some,
    }
}

/// Where the list starts in the box.
pub open spec fn drawn_scroll(picker: Picker, area: BoxArea) -> int {
    selection::window_start(picker.selected as int, picker.scroll as int, visible_rows(area))
}

/// The content of the box.
pub open spec fn drawn_content(picker: Picker, area: BoxArea, width: u16) -> Seq<char> {
    let selected = picker.selected as int;
    let scroll = drawn_scroll(picker, area);
    match picker.mode {
        PickerMode::Files => files_content(
            picker.files->Some_0,
            picker.query@,
            selected,
            scroll,
            area,
            width,
        ),
        PickerMode::History => history_content(
            picker.history->Some_0,
            picker.query@,
            selected,
            scroll,
            area,
            width,
        ),
    }
}

/// Whether the picker can be drawn on a screen of this size: every row can be
/// counted in 16 bits, and the header of a file list fits.
pub open spec fn drawable(
    picker: Picker,
    ui: TerminalUi,
    cols: u16,
    rows: u16,
    setting: Option<Seq<char>>,
) -> bool {
    let area = drawn_area(picker.mode, ui.anchor_row, cols, rows, setting);
    &&& ui.last_box matches Some(last) ==> screen::rows_fit(last)
    &&& screen::rows_fit(area)
    &&& has_list(picker) ==> match picker.mode {
        PickerMode::Files => files_drawable(
            picker.files->Some_0,
            picker.selected,
            picker.scroll,
            area,
            content_width(cols),
        ),
        PickerMode::History => history_drawable(
            picker.history->Some_0,
            picker.selected,
            picker.scroll,
            area,
        ),
    }
}

/// Makes room for the box, and places it.
fn place_box(
    out: &mut String,
    mode: PickerMode,
    anchor_row: u16,
    cols: u16,
    rows: u16,
    setting: Option<&str>,
) -> (r: (u16, BoxArea))
    ensures
        r.0 == settled_anchor(
            anchor_row,
            screen::box_rows(mode, rows, screen::setting_view(setting)),
            rows,
        ),
        r.1 == drawn_area(mode, anchor_row, cols, rows, screen::setting_view(setting)),
        final(out)@ == old(out)@ + screen::scroll_up(
            screen::missing_rows(
                anchor_row,
                screen::box_rows(mode, rows, screen::setting_view(setting)) as u16,
                rows,
            ),
        ),
{
    let desired: u16 = desired_height(mode, rows, setting);
    let anchor: u16 = ensure_space_below_prompt(out, anchor_row, desired, rows);
    let row: u16 = anchor.saturating_add(1);
    let below: u16 = rows.saturating_sub(row);
    let available: u16 = if below < 6 {
        6
    } else {
        below
    };
    let height: u16 = if desired < available {
        desired
    } else {
        available
    };
    (anchor, BoxArea { row, col: 0, width: cols, height })
}

/// Draws the picker. What is to be written is appended to `out`, also where
/// there is no list to draw.
pub fn render(
    out: &mut String,
    picker: &mut Picker,
    ui: &mut TerminalUi,
    cols: u16,
    rows: u16,
    setting: Option<&str>,
) -> (r: Result<(), RenderError>)
    requires
        drawable(*old(picker), *old(ui), cols, rows, screen::setting_view(setting)),
    ensures
        ({
            let area = drawn_area(
                old(picker).mode,
                old(ui).anchor_row,
                cols,
                rows,
                screen::setting_view(setting),
            );
            let frame = drawn_frame(
                old(picker).mode,
                *old(ui),
                cols,
                rows,
                screen::setting_view(setting),
            );
            &&& final(ui).anchor_row == settled_anchor(
                old(ui).anchor_row,
                screen::box_rows(old(picker).mode, rows, screen::setting_view(setting)),
                rows,
            )
            &&& final(ui).anchor_col == old(ui).anchor_col
            &&& final(ui).last_box == Some(area)
            &&& r == (if has_list(*old(picker)) {
                Ok(())
            } else {
                Err(
                    match old(picker).mode {
                        PickerMode::Files => RenderError::MissingFileView,
                        PickerMode::History => RenderError::MissingHistoryView,
                    },
                )
            })
            &&& final(out)@ == old(out)@ + frame + (if r is Ok {
                drawn_content(*old(picker), area, content_width(cols))
            } else {
                Seq::empty()
            })
            &&& *final(picker) == (Picker {
                scroll: if r is Ok {
                    drawn_scroll(*old(picker), area) as usize
                } else {
                    old(picker).scroll
                },
                ..*old(picker)
            })
        }),
{
    let ghost view = screen::setting_view(setting);
    let mode: PickerMode = picker.mode;
    let (anchor, area) = place_box(out, mode, ui.anchor_row, cols, rows, setting);
    ui.anchor_row = anchor;
    let width: u16 = cols.saturating_sub(2);
    if let Some(last) = ui.last_box {
        clear_rect(out, last);
    } else {
        assert(out@ =~= out@ + Seq::<char>::empty());
    }
    ui.last_box = Some(area);
    out.append(HIDE_CURSOR);
    let title: &str = match mode {
        PickerMode::Files => "FFFiles",
        PickerMode::History => "FFFHistory",
    };
    draw_box(out, area, title);
    let ghost frame = drawn_frame(old(picker).mode, *old(ui), cols, rows, view);
    assert(out@ =~= old(out)@ + frame);
    assert(out@ =~= old(out)@ + frame + Seq::<char>::empty());
    let visible: usize = count_visible(area);
    match mode {
        PickerMode::Files => match &picker.files {
            Some(list) => {
                let scroll: usize = follow_selection(picker.selected, picker.scroll, visible);
                draw_files(out, list, picker.query.as_str(), picker.selected, scroll, area, width);
                picker.scroll = scroll;
                Ok(())
            },
            None => Err(RenderError::MissingFileView),
        },
        PickerMode::History => match &picker.history {
            Some(list) => {
                let scroll: usize = follow_selection(picker.selected, picker.scroll, visible);
                draw_history(
                    out,
                    list,
                    picker.query.as_str(),
                    picker.selected,
                    scroll,
                    area,
                    width,
                );
                picker.scroll = scroll;
                Ok(())
            },
            None => Err(RenderError::MissingHistoryView),
        },
    }
}

/// Whether the rows of an area can be counted in 16 bits.
fn area_fits(area: BoxArea) -> (r: bool)
    ensures
        r == screen::rows_fit(area),
{
    area.row as u32 + area.height as u32 <= 65536
}

/// Whether a list can be scrolled to its selected row.
fn is_scrollable(selected: usize, scroll: usize, visible: usize) -> (r: bool)
    requires
        visible >= 1,
    ensures
        r == can_scroll(selected, scroll, visible as int),
{
    if selected >= scroll && visible > usize::MAX - scroll {
        return false;
    }
    let start: usize = ensure_selection_visible(selected, scroll, visible);
    visible - 1 <= usize::MAX - start
}

/// Whether the picker can be drawn on a screen of this size.
pub fn can_render(
    picker: &Picker,
    ui: &TerminalUi,
    cols: u16,
    rows: u16,
    setting: Option<&str>,
) -> (r: bool)
    ensures
        r == drawable(*picker, *ui, cols, rows, screen::setting_view(setting)),
{
    let mut unused = String::new();
    let (_, area) = place_box(&mut unused, picker.mode, ui.anchor_row, cols, rows, setting);
    let width: u16 = cols.saturating_sub(2);
    if let Some(last) = ui.last_box {
        if !area_fits(last) {
            return false;
        }
    }
    if !area_fits(area) {
        return false;
    }
    let visible: usize = count_visible(area);
    let scrollable: bool = is_scrollable(picker.selected, picker.scroll, visible);
    let last: usize = area.row as usize + visible;
    match picker.mode {
        PickerMode::Files => match &picker.files {
            Some(list) => {
                if !scrollable || last > 65533 || (list.total_matched > 0 && picker.selected
                    == usize::MAX) {
                    return false;
                }
                let label = files_label_text(list, picker.selected);
                text::chars_of(label.as_str()).len() < width as usize
            },
            None => true,
        },
        PickerMode::History => match &picker.history {
            Some(list) => scrollable && last <= 65534 && (list.total_matched == 0
                || picker.selected < usize::MAX),
            None => true,
        },
    }
}

/// What is written at the end: the box is removed, the cursor is back at the
/// prompt and shown again.
pub open spec fn cleaned_up(ui: TerminalUi) -> Seq<char> {
    (match ui.last_box {
        Some(area) => screen::cleared(area, area.height as nat),
        None => Seq::empty(),
    }) + screen::cursor_move(ui.anchor_row, ui.anchor_col) + RESTORE_CURSOR@
}

/// Removes the box, and puts the cursor back to the prompt.
pub fn cleanup(out: &mut String, ui: &TerminalUi)
    requires
        ui.last_box matches Some(area) ==> screen::rows_fit(area),
    ensures
        final(out)@ == old(out)@ + cleaned_up(*ui),
{
    if let Some(area) = ui.last_box {
        clear_rect(out, area);
    }
    move_to(out, ui.anchor_row, ui.anchor_col);
    out.append(RESTORE_CURSOR);
    assert(out@ =~= old(out)@ + cleaned_up(*ui));
}

/// Where the prompt stands on the screen and the pane below it can be counted,
/// the box stands right below the prompt, has the height asked for, and ends on
/// the screen. The prompt never moves down.
pub proof fn law_box_fits_screen(
    mode: PickerMode,
    anchor_row: u16,
    cols: u16,
    rows: u16,
    setting: Option<Seq<char>>,
)
    requires
        anchor_row < rows,
        anchor_row + 1 + screen::box_rows(mode, rows, setting) <= u16::MAX,
    ensures
        ({
            let desired = screen::box_rows(mode, rows, setting);
            let anchor = settled_anchor(anchor_row, desired, rows);
            let area = drawn_area(mode, anchor_row, cols, rows, setting);
            &&& anchor <= anchor_row
            &&& area.row == anchor + 1
            &&& area.height == desired
            &&& area.width == cols
            &&& area.row + area.height <= rows
        }),
{
}

/// In a box of five rows or more nothing is written over its borders, and the
/// query, the header and the rows of the list stand on rows of their own.
pub proof fn law_content_stays_inside_box(area: BoxArea, index: int)
    requires
        area.height >= 5,
        0 <= index < visible_rows(area),
    ensures
        area.row + 2 < area.row + 3 + index < screen::last_row(area),
        area.row + 1 < area.row + 2 + index < history_prompt_row(area) < screen::last_row(area),
{
}

/// The list is drawn from a row on that leaves the selected one in sight.
pub proof fn law_selected_row_is_drawn(picker: Picker, area: BoxArea)
    ensures
        0 <= drawn_scroll(picker, area) <= picker.selected < drawn_scroll(picker, area)
            + visible_rows(area),
{
    selection::law_selection_is_visible(
        picker.selected as int,
        picker.scroll as int,
        visible_rows(area),
    );
}

proof fn lemma_label_is_plain(selected: int, total_matched: int, loaded: int)
    requires
        selected >= 0,
        total_matched >= 0,
        loaded >= 0,
    ensures
        ansi::is_plain(files_label(selected, total_matched, loaded)),
{
    reveal_strlit("0/0");
    reveal_strlit("/");
    reveal_strlit(" (");
    reveal_strlit(" loaded)");
    text::lemma_decimal_digits((selected + 1) as nat);
    text::lemma_decimal_digits(total_matched as nat);
    text::lemma_decimal_digits(loaded as nat);
    let a = text::decimal((selected + 1) as nat);
    let b = text::decimal(total_matched as nat);
    let c = text::decimal(loaded as nat);
    lines::lemma_plain_concat(a, "/"@);
    lines::lemma_plain_concat(a + "/"@, b);
    let label = selection::position_label(selected, total_matched);
    lines::lemma_plain_concat(label, " ("@);
    lines::lemma_plain_concat(label + " ("@, c);
    lines::lemma_plain_concat(label + " ("@ + c, " loaded)"@);
}

/// The header over a file list fills its line to the last column: the root ends
/// at the right border.
pub proof fn law_files_header_fills_line(
    selected: int,
    total_matched: int,
    loaded: int,
    root: Seq<char>,
    width: int,
)
    requires
        selected >= 0,
        total_matched >= 0,
        loaded >= 0,
        ansi::is_plain(root),
        files_label(selected, total_matched, loaded).len() < width,
    ensures
        ansi::shown(
            files_header(files_label(selected, total_matched, loaded), root, width),
        ).len() == width,
{
    let label = files_label(selected, total_matched, loaded);
    let right = layout::truncated(root, width - label.len() - 1);
    let gap = text::repeated(' ', (width - label.len() - right.len()) as nat);
    layout::law_truncated_fits(root, width - label.len() - 1);
    lemma_label_is_plain(selected, total_matched, loaded);
    lines::lemma_plain_truncated(root, width - label.len() - 1);
    ansi::lemma_styles();
    ansi::lemma_plain(label);
    ansi::lemma_plain(right);
    ansi::lemma_plain(gap);
    ansi::lemma_styled(BOLD@, label, RESET@);
    ansi::lemma_styled(GRAY@, right, RESET@);
    ansi::lemma_closed_concat(BOLD@ + label + RESET@, gap);
    ansi::lemma_closed_concat(BOLD@ + label + RESET@ + gap, GRAY@ + right + RESET@);
    assert(files_header(label, root, width) =~= BOLD@ + label + RESET@ + gap + (GRAY@ + right
        + RESET@));
}

/// On a screen of ordinary size the picker can be drawn: a history list always,
/// a file list where its header fits.
pub proof fn law_ordinary_screen_is_drawable(
    picker: Picker,
    ui: TerminalUi,
    cols: u16,
    rows: u16,
    setting: Option<Seq<char>>,
)
    requires
        ui.anchor_row < rows <= 0x7fff,
        picker.selected <= 0x7fff_ffff,
        picker.scroll <= 0x7fff_ffff,
        ui.last_box matches Some(last) ==> screen::rows_fit(last),
        picker.mode is Files && picker.files is Some ==> files_label(
            picker.selected as int,
            picker.files->Some_0.total_matched as int,
            picker.files->Some_0.loaded as int,
        ).len() + 2 < cols,
    ensures
        drawable(picker, ui, cols, rows, setting),
{
    law_box_fits_screen(picker.mode, ui.anchor_row, cols, rows, setting);
}

/// Each row of a file list fills its line to the last column and does not reach
/// the border: those of files, where arrow, mark and badge leave room for the
/// path, and the empty ones past the end.
pub proof fn law_file_row_fills_line(
    view: FileSearchView,
    query: Seq<char>,
    selected: int,
    index: int,
    row: u16,
    width: u16,
)
    requires
        0 <= index,
        index < view.matches@.len() ==> {
            let item = view.matches@[index];
            &&& ansi::is_plain(item.relative_path@)
            &&& item.badge matches Some(badge) ==> ansi::is_plain(badge.icon@)
            &&& width >= 4 + lines::badge_column(lines::badge_plain(item.badge)).len()
        },
    ensures
        ansi::shown(
            screen::inner_line(
                row,
                1,
                width,
                file_row_at(view, query, selected, index, width as int),
            ),
        ).len() == width,
{
    let s = file_row_at(view, query, selected, index, width as int);
    if index < view.matches@.len() {
        let item = view.matches@[index];
        lines::law_file_row_fits(
            item.relative_path@,
            item.git,
            item.badge,
            query,
            index == selected,
            width as int,
        );
    } else {
        reveal_strlit("");
        ansi::lemma_plain(s);
    }
    screen::law_inner_line_fills_width(row, 1, width, s);
}

/// Each row of a history list fills its line to the last column and does not
/// reach the border.
pub proof fn law_history_row_fills_line(
    view: HistorySearchView,
    selected: int,
    index: int,
    row: u16,
    width: u16,
)
    requires
        0 <= index,
        index < view.matches@.len() ==> ansi::is_plain(view.matches@[index].display@),
        width >= 2,
    ensures
        ansi::shown(
            screen::inner_line(
                row,
                1,
                width,
                history_row_at(view, selected, index, width as int),
            ),
        ).len() == width,
{
    let s = history_row_at(view, selected, index, width as int);
    if index < view.matches@.len() {
        let item = view.matches@[index];
        lines::law_history_row_fits(
            item.display@,
            item.match_ranges@,
            index == selected,
            width as int,
        );
    } else {
        reveal_strlit("");
        ansi::lemma_plain(s);
    }
    screen::law_inner_line_fills_width(row, 1, width, s);
}

/// A text on a row of the box, with blanks behind it up to the right border.
pub open spec fn box_line(row: int, width: int, s: Seq<char>) -> Seq<char> {
    screen::placed_at(row, 1) + s + screen::filled(' ', width - ansi::shown(s).len())
}

proof fn lemma_box_line(row: int, width: u16, s: Seq<char>)
    requires
        0 <= row < u16::MAX,
    ensures
        screen::inner_line(row as u16, 1, width, s) == box_line(row, width as int, s),
{
    screen::lemma_placed_at(row as u16, 1);
    let missing = width - ansi::shown(s).len();
    assert(text::repeated(
        ' ',
        if missing < 0 {
            0
        } else {
            missing as nat
        },
    ) =~= screen::filled(' ', missing));
    assert(screen::inner_line(row as u16, 1, width, s) =~= box_line(row, width as int, s));
}

#[verifier::rlimit(40)]
proof fn lemma_file_rows(
    view: FileSearchView,
    query: Seq<char>,
    selected: int,
    scroll: int,
    list_row: int,
    width: u16,
    drawn: Seq<Seq<char>>,
)
    requires
        0 <= list_row,
        list_row + drawn.len() <= u16::MAX,
        forall|k: int|
            0 <= k < drawn.len() ==> #[trigger] drawn[k] == box_line(
                list_row + k,
                width as int,
                file_row_at(view, query, selected, scroll + k, width as int),
            ),
    ensures
        file_rows(view, query, selected, scroll, list_row, width, drawn.len()) == drawn.flatten(),
    decreases drawn.len(),
{
    if drawn.len() == 0 {
        assert(file_rows(view, query, selected, scroll, list_row, width, 0) =~= drawn.flatten());
    } else {
        let front = drawn.drop_last();
        let k = drawn.len() - 1;
        lemma_file_rows(view, query, selected, scroll, list_row, width, front);
        assert(drawn =~= front.push(drawn.last()));
        front.lemma_flatten_push(drawn.last());
        assert(drawn[k] == drawn.last());
        lemma_box_line(
            list_row + k,
            width,
            file_row_at(view, query, selected, scroll + k, width as int),
        );
        let above = file_rows(view, query, selected, scroll, list_row, width, k as nat);
        assert(file_rows(view, query, selected, scroll, list_row, width, drawn.len()) == above
            + screen::inner_line((list_row + k) as u16, 1, width, file_row_at(view, query, selected, scroll + k, width as int)));
        assert(above == front.flatten());
    }
}

#[verifier::rlimit(40)]
proof fn lemma_history_rows(
    view: HistorySearchView,
    selected: int,
    scroll: int,
    list_row: int,
    width: u16,
    drawn: Seq<Seq<char>>,
)
    requires
        0 <= list_row,
        list_row + drawn.len() <= u16::MAX,
        forall|k: int|
            0 <= k < drawn.len() ==> #[trigger] drawn[k] == box_line(
                list_row + k,
                width as int,
                history_row_at(view, selected, scroll + k, width as int),
            ),
    ensures
        history_rows(view, selected, scroll, list_row, width, drawn.len()) == drawn.flatten(),
    decreases drawn.len(),
{
    if drawn.len() == 0 {
        assert(history_rows(view, selected, scroll, list_row, width, 0) =~= drawn.flatten());
    } else {
        let front = drawn.drop_last();
        let k = drawn.len() - 1;
        lemma_history_rows(view, selected, scroll, list_row, width, front);
        assert(drawn =~= front.push(drawn.last()));
        front.lemma_flatten_push(drawn.last());
        assert(drawn[k] == drawn.last());
        lemma_box_line(
            list_row + k,
            width,
            history_row_at(view, selected, scroll + k, width as int),
        );
        let above = history_rows(view, selected, scroll, list_row, width, k as nat);
        assert(history_rows(view, selected, scroll, list_row, width, drawn.len()) == above
            + screen::inner_line((list_row + k) as u16, 1, width, history_row_at(view, selected, scroll + k, width as int)));
        assert(above == front.flatten());
    }
}

/// The rows of a list that a box has room for: all but the borders, the query and
/// the header, and one at least.
pub open spec fn room_for(height: u16) -> int {
    if height > 5 {
        height - 4
    } else {
        1
    }
}

/// A file list is drawn into its box from top to bottom: the query, the header,
/// and then the rows. The `k`th row shows the file at `k` places behind the scroll
/// as its own line, with the arrow where that is the selected one, and nothing past
/// the end of the list. Nothing else is drawn.
pub proof fn law_drawn_rows_are_those_from_scroll_on(
    out: &mut String,
    picker: &mut Picker,
    ui: &mut TerminalUi,
    cols: u16,
    rows: u16,
    setting: Option<&str>,
    query: &str,
    label: String,
    root: &str,
    right: String,
    texts: Seq<String>,
)
    requires
        call_ensures(render, (out, picker, ui, cols, rows, setting), Ok(())),
        old(picker).mode is Files,
        query@ == old(picker).query@,
        cols >= 2,
        ({
            let view = old(picker).files->Some_0;
            let area = final(ui).last_box->Some_0;
            let width = (cols - 2) as usize;
            let left = label@.len() + text::decimal(view.loaded as nat).len() + 10;
            &&& area.row + 2 + room_for(area.height) < u16::MAX
            &&& call_ensures(selected_label, (old(picker).selected, view.total_matched), label)
            &&& left < width
            &&& root@ == view.root_display@
            &&& call_ensures(truncate, (root, (width - left - 1) as usize), right)
            &&& texts.len() == room_for(area.height)
            &&& forall|k: int|
                0 <= k < texts.len() ==> {
                    let index = final(picker).scroll + k;
                    &&& index < view.matches@.len() ==> call_ensures(
                        file_line,
                        (
                            &view.matches@[index],
                            query,
                            index == old(picker).selected,
                            width,
                        ),
                        #[trigger] texts[k],
                    )
                    &&& index >= view.matches@.len() ==> texts[k]@.len() == 0
                }
        }),
    ensures
        ({
            let view = old(picker).files->Some_0;
            let area = final(ui).last_box->Some_0;
            let width = cols - 2;
            let left = label@ + seq![' ', '('] + text::decimal(view.loaded as nat) + " loaded)"@;
            let header = "\x1b[1m"@ + left + "\x1b[0m"@ + screen::filled(
                ' ',
                width - left.len() - right@.len(),
            ) + "\x1b[38;5;244m"@ + right@ + "\x1b[0m"@;
            final(out)@ == old(out)@ + drawn_frame(
                old(picker).mode,
                *old(ui),
                cols,
                rows,
                screen::setting_view(setting),
            ) + (box_line(
                area.row + 1,
                width,
                "\x1b[36m"@ + seq!['🪿', ' '] + "\x1b[0m"@ + query@,
            ) + box_line(area.row + 2, width, header) + Seq::new(
                texts.len(),
                |k: int| box_line(area.row + 3 + k, width, texts[k]@),
            ).flatten())
        }),
{
    let view = old(picker).files->Some_0;
    let area = final(ui).last_box->Some_0;
    let width = (cols - 2) as u16;
    let selected = old(picker).selected as int;
    let scroll = final(picker).scroll as int;
    let drawn = Seq::new(
        texts.len(),
        |k: int| box_line(area.row + 3 + k, width as int, texts[k]@),
    );
    reveal_strlit(" (");
    reveal_strlit(" loaded)");
    reveal_strlit("🪿 ");
    reveal_strlit("");
    assert(" ("@ =~= seq![' ', '(']);
    assert("🪿 "@ =~= seq!['🪿', ' ']);
    assert(visible_rows(area) == texts.len());
    selection::law_selection_is_visible(selected, old(picker).scroll as int, visible_rows(area));
    assert forall|k: int| 0 <= k < drawn.len() implies #[trigger] drawn[k] == box_line(
        area.row + 3 + k,
        width as int,
        file_row_at(view, query@, selected, scroll + k, width as int),
    ) by {
        let index = scroll + k;
        if index >= view.matches@.len() {
            assert(texts[k]@ =~= ""@);
        }
        assert(texts[k]@ == file_row_at(view, query@, selected, index, width as int));
    }
    lemma_file_rows(view, query@, selected, scroll, area.row + 3, width, drawn);
    let left = files_label(selected, view.total_matched as int, view.loaded as int);
    assert(left =~= label@ + seq![' ', '('] + text::decimal(view.loaded as nat) + " loaded)"@);
    let gap = width - left.len() - right@.len();
    layout::law_truncated_fits(root@, width - left.len() - 1);
    assert(text::repeated(' ', gap as nat) =~= screen::filled(' ', gap));
    lemma_box_line(area.row + 1, width, query_line(query@));
    lemma_box_line(area.row + 2, width, files_header(left, root@, width as int));
}

/// A history list is drawn into its box from top to bottom: the header, the rows,
/// and then the query on the row above the lower border. The `k`th row shows the
/// entry at `k` places behind the scroll as its own line, with the arrow where that
/// is the selected one, and nothing past the end of the list. Nothing else is
/// drawn.
pub proof fn law_drawn_history_is_that_from_scroll_on(
    out: &mut String,
    picker: &mut Picker,
    ui: &mut TerminalUi,
    cols: u16,
    rows: u16,
    setting: Option<&str>,
    label: String,
    texts: Seq<String>,
)
    requires
        call_ensures(render, (out, picker, ui, cols, rows, setting), Ok(())),
        old(picker).mode is History,
        cols >= 2,
        ({
            let view = old(picker).history->Some_0;
            let area = final(ui).last_box->Some_0;
            let width = (cols - 2) as usize;
            &&& area.row + 2 + room_for(area.height) < u16::MAX
            &&& 2 <= area.height
            &&& area.row + area.height <= u16::MAX
            &&& call_ensures(selected_label, (old(picker).selected, view.total_matched), label)
            &&& texts.len() == room_for(area.height)
            &&& forall|k: int|
                0 <= k < texts.len() ==> {
                    let index = final(picker).scroll + k;
                    &&& index < view.matches@.len() ==> call_ensures(
                        history_line,
                        (&view.matches@[index], index == old(picker).selected, width),
                        #[trigger] texts[k],
                    )
                    &&& index >= view.matches@.len() ==> texts[k]@.len() == 0
                }
        }),
    ensures
        ({
            let view = old(picker).history->Some_0;
            let area = final(ui).last_box->Some_0;
            let width = cols - 2;
            let header = "\x1b[1m"@ + label@ + "\x1b[0m"@ + seq![' '] + "\x1b[38;5;244m"@
                + text::decimal(view.matches@.len()) + " shown"@ + "\x1b[0m"@;
            final(out)@ == old(out)@ + drawn_frame(
                old(picker).mode,
                *old(ui),
                cols,
                rows,
                screen::setting_view(setting),
            ) + (box_line(area.row + 1, width, header) + Seq::new(
                texts.len(),
                |k: int| box_line(area.row + 2 + k, width, texts[k]@),
            ).flatten() + box_line(
                area.row + area.height - 2,
                width,
                "\x1b[36m"@ + seq!['🪿', ' '] + "\x1b[0m"@ + old(picker).query@,
            ))
        }),
{
    let view = old(picker).history->Some_0;
    let area = final(ui).last_box->Some_0;
    let width = (cols - 2) as u16;
    let selected = old(picker).selected as int;
    let scroll = final(picker).scroll as int;
    let drawn = Seq::new(
        texts.len(),
        |k: int| box_line(area.row + 2 + k, width as int, texts[k]@),
    );
    reveal_strlit(" ");
    reveal_strlit("🪿 ");
    reveal_strlit("");
    assert(" "@ =~= seq![' ']);
    assert("🪿 "@ =~= seq!['🪿', ' ']);
    assert(visible_rows(area) == texts.len());
    selection::law_selection_is_visible(selected, old(picker).scroll as int, visible_rows(area));
    assert forall|k: int| 0 <= k < drawn.len() implies #[trigger] drawn[k] == box_line(
        area.row + 2 + k,
        width as int,
        history_row_at(view, selected, scroll + k, width as int),
    ) by {
        let index = scroll + k;
        if index >= view.matches@.len() {
            assert(texts[k]@ =~= ""@);
        }
        assert(texts[k]@ == history_row_at(view, selected, index, width as int));
    }
    lemma_history_rows(view, selected, scroll, area.row + 2, width, drawn);
    lemma_box_line(
        area.row + 1,
        width,
        history_header(selected, view.total_matched as int, view.matches@.len() as int),
    );
    lemma_box_line(area.row + area.height - 2, width, query_line(old(picker).query@));
}

/// Where the selected row is one of the list, exactly one drawn row is its own and
/// begins with the arrow, and every other begins with two blanks.
pub proof fn law_one_drawn_row_has_the_arrow(
    out: &mut String,
    picker: &mut Picker,
    ui: &mut TerminalUi,
    cols: u16,
    rows: u16,
    setting: Option<&str>,
    query: &str,
    texts: Seq<String>,
)
    requires
        call_ensures(render, (out, picker, ui, cols, rows, setting), Ok(())),
        old(picker).mode is Files,
        cols >= 2,
        old(picker).selected < old(picker).files->Some_0.matches@.len(),
        texts.len() == room_for((final(ui).last_box->Some_0).height),
        forall|k: int|
            0 <= k < texts.len() && final(picker).scroll + k < old(picker).files->Some_0.matches@.len() ==> call_ensures(
                file_line,
                (
                    &old(picker).files->Some_0.matches@[final(picker).scroll + k],
                    query,
                    final(picker).scroll + k == old(picker).selected,
                    (cols - 2) as usize,
                ),
                #[trigger] texts[k],
            ),
    ensures
        ({
            let at = old(picker).selected - final(picker).scroll;
            let arrow = "\x1b[48;5;238m\x1b[38;5;230m"@ + "\x1b[48;5;238m\x1b[38;5;111m"@ + seq![
                '>',
                ' ',
            ];
            &&& 0 <= at < texts.len()
            &&& arrow.is_prefix_of(texts[at]@)
            &&& forall|k: int|
                0 <= k < texts.len() && k != at && final(picker).scroll + k < old(picker).files->Some_0.matches@.len() ==> seq![' ', ' '].is_prefix_of(
                    (#[trigger] texts[k])@,
                )
        }),
{
    let view = old(picker).files->Some_0;
    let area = final(ui).last_box->Some_0;
    let selected = old(picker).selected as int;
    let scroll = final(picker).scroll as int;
    assert(visible_rows(area) == texts.len());
    selection::law_selection_is_visible(selected, old(picker).scroll as int, visible_rows(area));
    let at = selected - scroll;
    assert(texts[at]@ == file_row_at(view, query@, selected, selected, cols - 2));
    let item = view.matches@[selected];
    lines::lemma_row_begins(item.relative_path@, item.git, item.badge, query@, true, cols - 2);
    assert forall|k: int|
        0 <= k < texts.len() && k != at && scroll + k < view.matches@.len() implies seq![
        ' ',
        ' ',
    ].is_prefix_of((#[trigger] texts[k])@) by {
        let other = view.matches@[scroll + k];
        assert(texts[k]@ == file_row_at(view, query@, selected, scroll + k, cols - 2));
        lines::lemma_row_begins(
            other.relative_path@,
            other.git,
            other.badge,
            query@,
            false,
            cols - 2,
        );
    }
}

/// The box stands right below the prompt, over the whole width of the screen. It
/// is as high as wanted, as far as the screen goes, or six rows where less is left.
/// The prompt is where the room made for the box has put it.
pub proof fn law_box_is_placed_below_the_prompt(
    out: &mut String,
    picker: &mut Picker,
    ui: &mut TerminalUi,
    cols: u16,
    rows: u16,
    setting: Option<&str>,
    r: Result<(), RenderError>,
    wanted: u16,
    scrolled: &mut String,
    anchor: u16,
)
    requires
        call_ensures(render, (out, picker, ui, cols, rows, setting), r),
        call_ensures(desired_height, (old(picker).mode, rows, setting), wanted),
        call_ensures(
            ensure_space_below_prompt,
            (scrolled, old(ui).anchor_row, wanted, rows),
            anchor,
        ),
        anchor < u16::MAX,
    ensures
        final(ui).anchor_row == anchor,
        final(ui).anchor_col == old(ui).anchor_col,
        final(ui).last_box is Some,
        ({
            let area = final(ui).last_box->Some_0;
            let below = rows - (anchor + 1);
            &&& area.row == anchor + 1
            &&& area.col == 0
            &&& area.width == cols
            &&& area.height <= wanted
            &&& wanted <= below ==> area.height == wanted
            &&& 6 <= below < wanted ==> area.height == below
            &&& below < 6 <= wanted ==> area.height == 6
            &&& wanted < 6 ==> area.height == wanted
        }),
{
}

/// Before its content is drawn, room is made for the box, the last one is cleared,
/// the cursor is hidden, and the box is drawn with the title of its mode. Where
/// there is no list that is all, and the missing list is the error.
pub proof fn law_box_is_drawn_before_its_content(
    out: &mut String,
    picker: &mut Picker,
    ui: &mut TerminalUi,
    cols: u16,
    rows: u16,
    setting: Option<&str>,
    r: Result<(), RenderError>,
    wanted: u16,
    scrolled: &mut String,
    anchor: u16,
    cleared: &mut String,
    boxed: &mut String,
    title: &str,
)
    requires
        call_ensures(render, (out, picker, ui, cols, rows, setting), r),
        call_ensures(desired_height, (old(picker).mode, rows, setting), wanted),
        call_ensures(
            ensure_space_below_prompt,
            (scrolled, old(ui).anchor_row, wanted, rows),
            anchor,
        ),
        old(scrolled)@.len() == 0,
        old(cleared)@.len() == 0,
        old(boxed)@.len() == 0,
        match old(ui).last_box {
            Some(last) => call_ensures(clear_rect, (cleared, last), ()),
            None => final(cleared)@.len() == 0,
        },
        old(picker).mode is Files ==> title@ == seq!['F', 'F', 'F', 'i', 'l', 'e', 's'],
        old(picker).mode is History ==> title@ == seq![
            'F',
            'F',
            'F',
            'H',
            'i',
            's',
            't',
            'o',
            'r',
            'y',
        ],
        final(ui).last_box is Some ==> call_ensures(
            draw_box,
            (boxed, final(ui).last_box->Some_0, title),
            (),
        ),
    ensures
        drawn_frame(
            old(picker).mode,
            *old(ui),
            cols,
            rows,
            screen::setting_view(setting),
        ) == final(scrolled)@ + final(cleared)@ + "\x1b[?25l"@ + final(boxed)@,
        r is Ok <==> (old(picker).mode is Files && old(picker).files is Some) || (old(picker).mode is History && old(picker).history is Some),
        r is Err ==> final(out)@ == old(out)@ + (final(scrolled)@ + final(cleared)@
            + "\x1b[?25l"@ + final(boxed)@),
        r is Err && old(picker).mode is Files ==> r->Err_0 is MissingFileView,
        r is Err && old(picker).mode is History ==> r->Err_0 is MissingHistoryView,
{
    reveal_strlit("FFFiles");
    reveal_strlit("FFFHistory");
    assert("FFFiles"@ =~= seq!['F', 'F', 'F', 'i', 'l', 'e', 's']);
    assert("FFFHistory"@ =~= seq!['F', 'F', 'F', 'H', 'i', 's', 't', 'o', 'r', 'y']);
    let none = Seq::<char>::empty();
    let frame = drawn_frame(
        old(picker).mode,
        *old(ui),
        cols,
        rows,
        screen::setting_view(setting),
    );
    assert(old(scrolled)@ =~= none);
    assert(old(cleared)@ =~= none);
    assert(old(boxed)@ =~= none);
    let scroll = screen::scroll_up(screen::missing_rows(old(ui).anchor_row, wanted, rows));
    assert(final(scrolled)@ =~= scroll);
    if let Some(last) = old(ui).last_box {
        assert(final(cleared)@ =~= screen::cleared(last, last.height as nat));
    } else {
        assert(final(cleared)@ =~= none);
    }
    assert(final(boxed)@ =~= screen::boxed(final(ui).last_box->Some_0, title@));
    assert(frame =~= final(scrolled)@ + final(cleared)@ + "\x1b[?25l"@ + final(boxed)@);
    if r is Err {
        assert(final(out)@ =~= old(out)@ + frame);
    }
}

/// Drawing a list moves its window to the selected row and changes nothing else of
/// the picker. Without a list it changes nothing.
pub proof fn law_drawing_moves_only_the_window(
    out: &mut String,
    picker: &mut Picker,
    ui: &mut TerminalUi,
    cols: u16,
    rows: u16,
    setting: Option<&str>,
    r: Result<(), RenderError>,
    start: usize,
)
    requires
        call_ensures(render, (out, picker, ui, cols, rows, setting), r),
        call_ensures(
            ensure_selection_visible,
            (
                old(picker).selected,
                old(picker).scroll,
                room_for((final(ui).last_box->Some_0).height) as usize,
            ),
            start,
        ),
    ensures
        r is Ok ==> final(picker).scroll == start,
        r is Err ==> final(picker).scroll == old(picker).scroll,
        final(picker).selected == old(picker).selected,
        final(picker).query == old(picker).query,
        final(picker).mode == old(picker).mode,
        final(picker).files == old(picker).files,
        final(picker).history == old(picker).history,
{
    let area = final(ui).last_box->Some_0;
    assert(visible_rows(area) == room_for(area.height));
    selection::law_selection_is_visible(
        old(picker).selected as int,
        old(picker).scroll as int,
        visible_rows(area),
    );
}

/// At the end the box is cleared, and the cursor is back at the prompt and shown,
/// in no style.
pub proof fn law_cleaning_up_leaves_the_prompt(
    out: &mut String,
    ui: &TerminalUi,
    cleared: &mut String,
)
    requires
        call_ensures(cleanup, (out, ui), ()),
        old(cleared)@.len() == 0,
        match ui.last_box {
            Some(last) => call_ensures(clear_rect, (cleared, last), ()),
            None => final(cleared)@.len() == 0,
        },
        ui.anchor_row < u16::MAX,
        ui.anchor_col < u16::MAX,
    ensures
        final(out)@ == old(out)@ + final(cleared)@ + screen::placed_at(
            ui.anchor_row as int,
            ui.anchor_col as int,
        ) + "\x1b[?25h\x1b[0m"@,
{
    let none = Seq::<char>::empty();
    assert(old(cleared)@ =~= none);
    if let Some(last) = ui.last_box {
        assert(final(cleared)@ =~= screen::cleared(last, last.height as nat));
    } else {
        assert(final(cleared)@ =~= none);
    }
    screen::lemma_placed_at(ui.anchor_row, ui.anchor_col);
    assert(final(out)@ =~= old(out)@ + final(cleared)@ + screen::placed_at(
        ui.anchor_row as int,
        ui.anchor_col as int,
    ) + "\x1b[?25h\x1b[0m"@);
}

/// On a screen of ordinary size a list of ordinary length can be drawn.
pub proof fn law_ordinary_list_can_be_drawn(
    picker: &Picker,
    ui: &TerminalUi,
    cols: u16,
    rows: u16,
    setting: Option<&str>,
    r: bool,
)
    requires
        call_ensures(can_render, (picker, ui, cols, rows, setting), r),
        ui.anchor_row < rows <= 0x7fff,
        cols >= 40,
        ui.last_box matches Some(last) ==> last.row + last.height <= u16::MAX,
        picker.selected < 1_000_000,
        picker.scroll < 1_000_000,
        picker.files matches Some(view) ==> view.total_matched < 1_000_000 && view.loaded
            < 1_000_000,
    ensures
        r,
{
    if picker.mode is Files && picker.files is Some {
        let view = picker.files->Some_0;
        lemma_short_number((picker.selected + 1) as nat);
        lemma_short_number(view.total_matched as nat);
        lemma_short_number(view.loaded as nat);
        reveal_strlit("0/0");
        reveal_strlit("/");
        reveal_strlit(" (");
        reveal_strlit(" loaded)");
    }
    law_ordinary_screen_is_drawable(*picker, *ui, cols, rows, screen::setting_view(setting));
}

proof fn lemma_short_number(n: nat)
    requires
        n <= 1_000_000,
    ensures
        text::decimal(n).len() <= 7,
{
    reveal_with_fuel(text::decimal, 8);
}

/// What is said of an error names the list that is missing.
pub proof fn law_error_names_missing_list(error: RenderError, r: &'static str)
    requires
        call_ensures(render_error_message, (error,), r),
    ensures
        error is MissingFileView ==> r@ == "missing file view"@,
        error is MissingHistoryView ==> r@ == "missing history view"@,
{
}

} // verus!
