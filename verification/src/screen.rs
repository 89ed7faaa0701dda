//! The lines of one frame: a header with the path on display, one row for each
//! entry that fits, the totals of the whole tree, and a line of help.

use crate::nav::NavModel;
use crate::nav::NavigationState;
use crate::tree::FileInfo;
use crate::units::bar_text;
use crate::units::decimal;
use crate::units::generate_bar;
use crate::units::human_readable_size;
use crate::units::push_blanks;
use crate::units::push_decimal;
use crate::units::push_repeated;
use crate::units::repeat;
use crate::units::size_text;
use vstd::prelude::*;
use vstd::string::StrSliceExecFns;
use vstd::string::StringExecFns;

verus! {

/// Cells of the bar in each row.
pub const BAR_WIDTH: usize = 30;

/// Cells that a size is right-aligned in.
pub const SIZE_WIDTH: usize = 10;

/// Rows of the display that the entries cannot use.
pub const RESERVED_ROWS: usize = 4;

/// One line of a frame.
#[derive(Debug)]
pub struct Line {
    /// The row of the display, counted from the top.
    pub row: usize,
    /// What the row shows, from its first column.
    pub text: String,
    /// Whether the row is drawn inverted.
    pub highlighted: bool,
}

/// A line as mathematics.
pub struct LineModel {
    pub row: nat,
    pub text: Seq<char>,
    pub highlighted: bool,
}

impl View for Line {
    type V = LineModel;

    open spec fn view(&self) -> LineModel {
        LineModel { row: self.row as nat, text: self.text@, highlighted: self.highlighted }
    }
}

/// The models of `lines`, in their order.
pub open spec fn models(lines: Seq<Line>) -> Seq<LineModel> {
    Seq::new(lines.len(), |i: int| lines[i]@)
}

/// `path` without the slashes at its end.
pub open spec fn trimmed(path: Seq<char>) -> Seq<char>
    decreases path.len(),
{
    if path.len() > 0 && path.last() == '/' {
        trimmed(path.drop_last())
    } else {
        path
    }
}

/// What follows the last slash of `path`.
pub open spec fn last_component(path: Seq<char>) -> Seq<char>
    decreases path.len(),
{
    if path.len() == 0 || path.last() == '/' {
        Seq::empty()
    } else {
        last_component(path.drop_last()).push(path.last())
    }
}

/// The name of an entry: the final component of its path, slashes at the end
/// set aside. A path that is all slashes, or empty, names itself.
pub open spec fn base_name_of(path: Seq<char>) -> Seq<char> {
    if trimmed(path).len() == 0 {
        path
    } else {
        last_component(trimmed(path))
    }
}

/// `text` moved to the right of a field of `width` cells; a longer text is kept whole.
pub open spec fn pad_left(text: Seq<char>, width: nat) -> Seq<char> {
    if text.len() >= width {
        text
    } else {
        repeat(' ', (width - text.len()) as nat) + text
    }
}

/// The largest size among `entries`; 0 where there are none.
pub open spec fn max_size_of(entries: Seq<FileInfo>) -> nat
    decreases entries.len(),
{
    if entries.len() == 0 {
        0
    } else if entries.last().size >= max_size_of(entries.drop_last()) {
        entries.last().size as nat
    } else {
        max_size_of(entries.drop_last())
    }
}

/// The size that the bars of `entries` are scaled by: that of the largest
/// entry, or 1 where there is no entry.
pub open spec fn largest_sibling(entries: Seq<FileInfo>) -> nat {
    if entries.len() == 0 {
        1
    } else {
        max_size_of(entries)
    }
}

/// The header: the path, then dashes up to the width of the display.
pub open spec fn header_text(path: Seq<char>, cols: nat) -> Seq<char> {
    "--- "@ + path + " "@ + repeat(
        '-',
        if cols >= path.len() + 4 {
            (cols - (path.len() + 4)) as nat
        } else {
            0
        },
    )
}

/// The row of an entry: its size, its bar beside the largest sibling, its name.
pub open spec fn entry_text(entry: FileInfo, largest: nat) -> Seq<char> {
    pad_left(size_text(entry.size as nat), SIZE_WIDTH as nat) + " ["@ + bar_text(
        entry.size as nat,
        largest,
        BAR_WIDTH as nat,
    ) + "] "@ + base_name_of(entry.path@)
}

/// The footer: the totals of the whole tree, the size twice.
pub open spec fn footer_text(root: FileInfo) -> Seq<char> {
    "*Total disk usage: "@ + pad_left(size_text(root.size as nat), SIZE_WIDTH as nat)
        + "   Apparent size: "@ + pad_left(size_text(root.size as nat), SIZE_WIDTH as nat)
        + "   Items: "@ + decimal(root.items as nat)
}

/// The line of help.
pub open spec fn help_text() -> Seq<char> {
    "Press 'q' to quit. Use arrow keys to navigate. Enter to open directory. Backspace to go back."@
}

/// How many entries a display of `rows` rows shows out of `count`.
pub open spec fn visible_rows(count: nat, rows: nat) -> nat {
    if rows <= RESERVED_ROWS {
        0
    } else if count <= rows - RESERVED_ROWS {
        count
    } else {
        (rows - RESERVED_ROWS) as nat
    }
}

/// The rows of the first `count` entries on display, from row 1 down, the one
/// under the cursor highlighted.
pub open spec fn body_of(m: NavModel, count: nat) -> Seq<LineModel> {
    Seq::new(
        count,
        |i: int|
            LineModel {
                row: (i + 1) as nat,
                text: entry_text(m.entries()[i], largest_sibling(m.entries())),
                highlighted: i == m.selected_index,
            },
    )
}

/// The lines below the entries: the footer on the last row but one, the help
/// on the last row, each only where the display has that row.
pub open spec fn closing_of(m: NavModel, rows: nat) -> Seq<LineModel> {
    let footer = LineModel {
        row: (rows - 2) as nat,
        text: footer_text(m.root),
        highlighted: false,
    };
    let help = LineModel { row: (rows - 1) as nat, text: help_text(), highlighted: false };
    if rows >= 2 {
        seq![footer, help]
    } else if rows == 1 {
        seq![help]
    } else {
        Seq::empty()
    }
}

/// The whole frame of a display of `rows` rows and `cols` columns.
pub open spec fn frame_of(m: NavModel, rows: nat, cols: nat) -> Seq<LineModel> {
    seq![LineModel { row: 0, text: header_text(m.current().path@, cols), highlighted: false }]
        + body_of(m, visible_rows(m.entries().len(), rows)) + closing_of(m, rows)
}

/// Between two slashes, or the start and a slash, the component is the text in between.
proof fn lemma_component_is_subrange(path: Seq<char>, start: int, end: int)
    requires
        0 <= start <= end <= path.len(),
        forall|i: int| start <= i < end ==> path[i] != '/',
        start == 0 || path[start - 1] == '/',
    ensures
        last_component(path.take(end)) == path.subrange(start, end),
    decreases end - start,
{
    if end == start {
        assert(path.subrange(start, end) =~= Seq::<char>::empty());
    } else {
        assert(path.take(end).drop_last() == path.take(end - 1));
        lemma_component_is_subrange(path, start, end - 1);
        assert(path.subrange(start, end - 1).push(path[end - 1]) =~= path.subrange(start, end));
    }
}

/// The name of the entry at `path`.
pub fn base_name(path: &str) -> (name: String)
    ensures
        name@ == base_name_of(path@),
{
    let mut end: usize = path.unicode_len();
    let mut scanning = true;
    assert(path@.take(end as int) == path@);
    while scanning && end > 0
        invariant
            end <= path@.len(),
            trimmed(path@) == trimmed(path@.take(end as int)),
            !scanning ==> end > 0 && path@[end - 1] != '/',
        decreases end + if scanning { 1nat } else { 0nat },
    {
        if path.get_char(end - 1) == '/' {
            assert(path@.take(end as int).drop_last() == path@.take(end - 1));
            end -= 1;
        } else {
            scanning = false;
        }
    }
    if end == 0 {
        return String::from_str(path);
    }
    let mut start: usize = end;
    scanning = true;
    while scanning && start > 0
        invariant
            start <= end <= path@.len(),
            forall|i: int| start <= i < end ==> path@[i] != '/',
            !scanning ==> start > 0 && path@[start - 1] == '/',
        decreases start + if scanning { 1nat } else { 0nat },
    {
        if path.get_char(start - 1) == '/' {
            scanning = false;
        } else {
            start -= 1;
        }
    }
    proof {
        lemma_component_is_subrange(path@, start as int, end as int);
    }
    String::from_str(path.substring_char(start, end))
}

/// Appends `text` to `out`, moved to the right of a field of `width` cells.
pub fn push_right_aligned(out: &mut String, text: &str, width: usize)
    ensures
        final(out)@ == old(out)@ + pad_left(text@, width as nat),
{
    let len = text.unicode_len();
    if len < width {
        push_blanks(out, width - len);
    }
    out.append(text);
    assert(final(out)@ =~= old(out)@ + pad_left(text@, width as nat));
}

/// The size by which the bars of `entries` are scaled.
pub fn max_entry_size(entries: &Vec<FileInfo>) -> (largest: u64)
    ensures
        largest == largest_sibling(entries@),
{
    if entries.len() == 0 {
        return 1;
    }
    let mut largest: u64 = 0;
    let mut i: usize = 0;
    while i < entries.len()
        invariant
            i <= entries.len(),
            largest == max_size_of(entries@.take(i as int)),
        decreases entries.len() - i,
    {
        assert(entries@.take(i + 1).drop_last() == entries@.take(i as int));
        if entries[i].size >= largest {
            largest = entries[i].size;
        }
        i += 1;
    }
    assert(entries@.take(entries.len() as int) == entries@);
    largest
}

/// The header of a display `cols` columns wide over the directory at `path`.
pub fn header_line(path: &str, cols: usize) -> (text: String)
    ensures
        text@ == header_text(path@, cols as nat),
{
    let len = path.unicode_len();
    let mut text = String::from_str("--- ");
    text.append(path);
    text.append(" ");
    let dashes: usize = if cols >= len && cols - len >= 4 {
        cols - len - 4
    } else {
        0
    };
    proof {
        reveal_strlit("-");
    }
    assert("-"@ =~= seq!['-']);
    push_repeated(&mut text, "-", '-', dashes);
    assert(text@ =~= header_text(path@, cols as nat));
    text
}

/// The row of `entry` beside a largest sibling of `largest` bytes.
pub fn entry_line(entry: &FileInfo, largest: u64) -> (text: String)
    ensures
        text@ == entry_text(*entry, largest as nat),
{
    let mut text = String::new();
    let size = human_readable_size(entry.size);
    push_right_aligned(&mut text, size.as_str(), SIZE_WIDTH);
    text.append(" [");
    let bar = generate_bar(entry.size, largest, BAR_WIDTH);
    text.append(bar.as_str());
    text.append("] ");
    let name = base_name(entry.path.as_str());
    text.append(name.as_str());
    assert(text@ =~= entry_text(*entry, largest as nat));
    text
}

/// The footer over the tree below `root`.
pub fn footer_line(root: &FileInfo) -> (text: String)
    ensures
        text@ == footer_text(*root),
{
    let size = human_readable_size(root.size);
    let mut text = String::from_str("*Total disk usage: ");
    push_right_aligned(&mut text, size.as_str(), SIZE_WIDTH);
    text.append("   Apparent size: ");
    push_right_aligned(&mut text, size.as_str(), SIZE_WIDTH);
    text.append("   Items: ");
    push_decimal(&mut text, root.items as u128);
    assert(text@ =~= footer_text(*root));
    text
}

/// The line of help.
pub fn help_line() -> (text: String)
    ensures
        text@ == help_text(),
{
    String::from_str(
        "Press 'q' to quit. Use arrow keys to navigate. Enter to open directory. Backspace to go back.",
    )
}

/// The lines of the frame that shows `state` on a display of `rows` rows and
/// `cols` columns, from the top down.
pub fn frame(state: &NavigationState, rows: usize, cols: usize) -> (lines: Vec<Line>)
    requires
        state.wf(),
    ensures
        models(lines@) == frame_of(state@, rows as nat, cols as nat),
{
    let current = state.current();
    let mut lines: Vec<Line> = Vec::new();
    lines.push(Line { row: 0, text: header_line(current.path.as_str(), cols), highlighted: false });
    let ghost header = models(lines@);
    let selected = state.selected_index();
    match &current.children {
        Some(entries) => {
            let largest = max_entry_size(entries);
            let room: usize = if rows <= RESERVED_ROWS {
                0
            } else {
                rows - RESERVED_ROWS
            };
            let count: usize = if entries.len() <= room {
                entries.len()
            } else {
                room
            };
            let mut i: usize = 0;
            while i < count
                invariant
                    i <= count <= entries.len(),
                    entries@ == state@.entries(),
                    selected == state@.selected_index,
                    largest == largest_sibling(entries@),
                    header.len() == 1,
                    lines@.len() == 1 + i,
                    models(lines@) == header + body_of(state@, i as nat),
                decreases count - i,
            {
                let ghost before = lines@;
                let line = Line {
                    row: i + 1,
                    text: entry_line(&entries[i], largest),
                    highlighted: i == selected,
                };
                let ghost added = line@;
                lines.push(line);
                i += 1;
                proof {
                    let after = header + body_of(state@, i as nat);
                    assert(lines@ == before.push(line));
                    assert(body_of(state@, i as nat).len() == i);
                    assert(models(lines@).len() == after.len());
                    assert forall|j: int| 0 <= j < after.len() implies models(lines@)[j]
                        == after[j] by {
                        if j < before.len() {
                            assert(lines@[j] == before[j]);
                            assert(models(before)[j] == (header + body_of(
                                state@,
                                (i - 1) as nat,
                            ))[j]);
                        } else {
                            assert(lines@[j]@ == added);
                            assert(after[j] == body_of(state@, i as nat)[i - 1]);
                        }
                    }
                    assert(models(lines@) =~= after);
                }
            }
        },
        None => {
            assert(models(lines@) =~= header + body_of(state@, 0));
        },
    }
    let ghost upper = models(lines@);
    if rows >= 2 {
        lines.push(Line { row: rows - 2, text: footer_line(state.root()), highlighted: false });
    }
    if rows >= 1 {
        lines.push(Line { row: rows - 1, text: help_line(), highlighted: false });
    }
    assert(models(lines@) =~= upper + closing_of(state@, rows as nat));
    lines
}

} // verus!
