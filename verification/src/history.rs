//! Shell history: reading it, removing repetitions, and showing an entry on one line.

use crate::text;
use crate::types::HistoryDirection;
use vstd::hash_set::StringHashSet;
use vstd::prelude::*;
use vstd::utf8::*;

verus! {

/// Shown in place of a line break.
pub const NEWLINE_MARK: &'static str = " ↩ ";

/// The entries without white space around them, each at its first occurrence,
/// and without those that are blank.
pub open spec fn deduped(entries: Seq<Seq<char>>) -> Seq<Seq<char>>
    decreases entries.len(),
{
    if entries.len() == 0 {
        Seq::empty()
    } else {
        let front = deduped(entries.drop_last());
        let entry = text::trimmed(entries.last());
        if entry.len() == 0 || front.contains(entry) {
            front
        } else {
            front.push(entry)
        }
    }
}

/// The entries in the order in which a direction lists them.
pub open spec fn directed(entries: Seq<Seq<char>>, direction: HistoryDirection) -> Seq<Seq<char>> {
    match direction {
        HistoryDirection::Backward => entries.reverse(),
        HistoryDirection::Forward => entries,
    }
}

/// Trims the entries, drops the blank ones, and keeps the first of equal ones.
pub fn dedupe_history_entries(entries: Vec<String>, direction: HistoryDirection) -> (r: Vec<String>)
    ensures
        text::string_views(r@) == deduped(directed(text::string_views(entries@), direction)),
{
    let n: usize = entries.len();
    let ghost all = directed(text::string_views(entries@), direction);
    let mut seen = StringHashSet::new();
    let mut commands: Vec<String> = Vec::new();
    let mut i: usize = 0;
    assert(text::string_views(commands@) =~= deduped(all.take(0)));
    while i < n
        invariant
            i <= n,
            n == entries@.len(),
            all == directed(text::string_views(entries@), direction),
            all.len() == n,
            text::string_views(commands@) == deduped(all.take(i as int)),
            forall|t: Seq<char>|
                seen@.contains(t) <==> deduped(all.take(i as int)).contains(t),
        decreases n - i,
    {
        let at: usize = match direction {
            HistoryDirection::Backward => n - 1 - i,
            HistoryDirection::Forward => i,
        };
        assert(all[i as int] == entries@[at as int]@);
        let ghost front = deduped(all.take(i as int));
        assert(all.take(i + 1).drop_last() =~= all.take(i as int));
        assert(all.take(i + 1).last() == all[i as int]);
        let trimmed = entries[at].as_str().trim().to_owned();
        let ghost entry = trimmed@;
        if !trimmed.as_str().is_empty() {
            if seen.insert(trimmed.clone()) {
                let ghost before = commands@;
                commands.push(trimmed);
                assert(text::string_views(commands@) =~= text::string_views(before).push(entry));
                assert forall|t: Seq<char>|
                    seen@.contains(t) <==> deduped(all.take(i + 1)).contains(t) by {
                    assert(deduped(all.take(i + 1)) == front.push(entry));
                    if front.contains(t) {
                        let k = choose|k: int| 0 <= k < front.len() && front[k] == t;
                        assert(front.push(entry)[k] == t);
                    }
                    if t == entry {
                        assert(front.push(entry)[front.len() as int] == t);
                    }
                }
            } else {
                assert(front.contains(entry));
                assert(seen@ =~= seen@.insert(entry));
            }
        }
        i = i + 1;
    }
    assert(all.take(n as int) =~= all);
    commands
}

/// A line without the carriage return that a line break may begin with.
pub open spec fn without_cr(line: Seq<char>) -> Seq<char> {
    if line.len() > 0 && line.last() == '\r' {
        line.drop_last()
    } else {
        line
    }
}

/// The lines of a text. A line ends with a line feed or with a carriage return
/// and a line feed; after the last of these an empty rest is no line.
pub open spec fn lines(content: Seq<char>) -> Seq<Seq<char>> {
    let parts = text::pieces(content, '\n');
    let ended = parts.drop_last().map_values(|line: Seq<char>| without_cr(line));
    if parts.last().len() == 0 {
        ended
    } else {
        ended.push(parts.last())
    }
}

/// The command in a line of a history file. A line of the extended format,
/// `: <time>:<duration>;<command>`, holds it behind the first semicolon.
pub open spec fn command_of_line(line: Seq<char>) -> Seq<char> {
    if line.len() >= 2 && line[0] == ':' && line[1] == ' ' {
        match text::after_first(line.skip(2), ';') {
            Some(command) => command,
            None => line,
        }
    } else {
        line
    }
}

/// Whether a line holds anything but white space.
pub open spec fn is_written(line: Seq<char>) -> bool {
    text::trimmed(line).len() > 0
}

/// The commands in the lines of a history file.
pub open spec fn commands_of(content: Seq<char>) -> Seq<Seq<char>> {
    lines(content).filter(|line: Seq<char>| is_written(line)).map_values(
        |line: Seq<char>| command_of_line(line),
    )
}

/// The command in a line of a history file.
fn line_command(line: &Vec<char>) -> (r: String)
    ensures
        r@ == command_of_line(line@),
{
    let n: usize = line.len();
    if n >= 2 && line[0] == ':' && line[1] == ' ' {
        let ghost rest = line@.skip(2);
        let mut i: usize = 2;
        assert(rest.skip(0) =~= rest);
        while i < n && line[i] != ';'
            invariant
                2 <= i <= n,
                n == line@.len(),
                rest == line@.skip(2),
                text::after_first(rest, ';') == text::after_first(rest.skip(i - 2), ';'),
            decreases n - i,
        {
            assert(rest.skip(i - 2).first() == line@[i as int]);
            assert(rest.skip(i - 2).drop_first() =~= rest.skip(i - 1));
            i = i + 1;
        }
        if i < n {
            assert(rest.skip(i - 2).first() == line@[i as int]);
            assert(rest.skip(i - 2).drop_first() =~= line@.subrange(i + 1, n as int));
            return text::string_of(line, i + 1, n);
        }
        assert(rest.skip(i - 2).len() == 0);
    }
    assert(line@.subrange(0, n as int) =~= line@);
    text::string_of(line, 0, n)
}

/// The lines of a text.
fn split_lines(content: &str) -> (r: Vec<Vec<char>>)
    ensures
        r@.map_values(|line: Vec<char>| line@) == lines(content@),
{
    let mut done: Vec<Vec<char>> = Vec::new();
    let mut line: Vec<char> = Vec::new();
    let ghost view = |v: Vec<char>| v@;
    let ghost cut = |s: Seq<char>| without_cr(s);
    proof {
        assert(done@.map_values(view) =~= text::pieces(content@.take(0), '\n').drop_last().map_values(
            cut,
        ));
        assert(content@.take(0) =~= Seq::<char>::empty());
        assert(line@ =~= text::pieces(content@.take(0), '\n').last());
    }
    for c in it: content.chars()
        invariant
            it.seq() == content@,
            view == (|v: Vec<char>| v@),
            cut == (|s: Seq<char>| without_cr(s)),
            text::pieces(content@.take(it.index()), '\n').len() > 0,
            done@.map_values(view) == text::pieces(
                content@.take(it.index()),
                '\n',
            ).drop_last().map_values(cut),
            line@ == text::pieces(content@.take(it.index()), '\n').last(),
    {
        let ghost before = text::pieces(content@.take(it.index()), '\n');
        let ghost after = text::pieces(content@.take(it.index() + 1), '\n');
        proof {
            assert(content@.take(it.index() + 1).drop_last() =~= content@.take(it.index()));
            assert(content@.take(it.index() + 1).last() == c);
        }
        if c == '\n' {
            let ghost old_done = done@;
            if line.len() > 0 && line[line.len() - 1] == '\r' {
                let popped = line.pop();
                assert(line@ =~= without_cr(before.last()));
            }
            assert(line@ == without_cr(before.last()));
            done.push(line);
            line = Vec::new();
            proof {
                assert(after.drop_last() =~= before);
                assert(before =~= before.drop_last().push(before.last()));
                assert(done@.map_values(view) =~= old_done.map_values(view).push(
                    without_cr(before.last()),
                ));
                assert(before.map_values(cut) =~= before.drop_last().map_values(cut).push(
                    without_cr(before.last()),
                ));
                assert(line@ =~= after.last());
            }
        } else {
            line.push(c);
            proof {
                assert(after.drop_last() =~= before.drop_last());
            }
        }
    }
    assert(content@.take(content@.len() as int) =~= content@);
    let ghost parts = text::pieces(content@, '\n');
    if line.len() > 0 {
        let ghost old_done = done@;
        done.push(line);
        assert(done@.map_values(view) =~= old_done.map_values(view).push(parts.last()));
    }
    assert(done@.map_values(view) =~= lines(content@));
    done
}

/// Reads the commands of a history file, plain or in the extended format.
pub fn parse_history_content(content: &str, direction: HistoryDirection) -> (r: Vec<String>)
    ensures
        text::string_views(r@) == deduped(directed(commands_of(content@), direction)),
{
    let all = split_lines(content);
    let ghost views = all@.map_values(|line: Vec<char>| line@);
    let ghost written = |line: Seq<char>| is_written(line);
    let ghost command = |line: Seq<char>| command_of_line(line);
    let mut commands: Vec<String> = Vec::new();
    let mut i: usize = 0;
    proof {
        reveal(Seq::filter);
    }
    assert(text::string_views(commands@) =~= views.take(0).filter(written).map_values(command));
    while i < all.len()
        invariant
            i <= all@.len(),
            views == all@.map_values(|line: Vec<char>| line@),
            written == (|line: Seq<char>| is_written(line)),
            command == (|line: Seq<char>| command_of_line(line)),
            text::string_views(commands@) == views.take(i as int).filter(written).map_values(
                command,
            ),
        decreases all@.len() - i,
    {
        let ghost line = views[i as int];
        assert(all@[i as int]@ == line);
        let whole = text::string_of(&all[i], 0, all[i].len());
        assert(all@[i as int]@.subrange(0, line.len() as int) =~= line);
        proof {
            reveal(Seq::filter);
            assert(views.take(i + 1).drop_last() =~= views.take(i as int));
            assert(views.take(i + 1).last() == line);
        }
        if !whole.as_str().trim().is_empty() {
            let ghost before = commands@;
            commands.push(line_command(&all[i]));
            proof {
                let kept = views.take(i as int).filter(written);
                assert(views.take(i + 1).filter(written) == kept.push(line));
                assert(kept.push(line).map_values(command) =~= kept.map_values(command).push(
                    command_of_line(line),
                ));
                assert(text::string_views(commands@) =~= text::string_views(before).push(
                    command_of_line(line),
                ));
            }
        }
        i = i + 1;
    }
    assert(views.take(all@.len() as int) =~= views);
    assert(text::string_views(commands@) == commands_of(content@));
    dedupe_history_entries(commands, direction)
}

/// A text with every line break replaced by the mark of one.
pub open spec fn newlines_marked(s: Seq<char>) -> Seq<char>
    decreases s.len(),
{
    if s.len() == 0 {
        Seq::empty()
    } else if s.len() >= 2 && s[0] == '\r' && s[1] == '\n' {
        NEWLINE_MARK@ + newlines_marked(s.skip(2))
    } else if s[0] == '\n' {
        NEWLINE_MARK@ + newlines_marked(s.skip(1))
    } else {
        seq![s[0]] + newlines_marked(s.skip(1))
    }
}

/// How a command is shown on one line.
pub open spec fn one_line(command: Seq<char>) -> Seq<char> {
    text::trimmed(newlines_marked(command))
}

/// How a command is shown on one line: line breaks are marked, and white space
/// around the whole is dropped.
pub fn sanitize_history_display(command: &str) -> (r: String)
    ensures
        r@ == one_line(command@),
{
    let chars = text::chars_of(command);
    let n: usize = chars.len();
    let mut out = String::new();
    let mut i: usize = 0;
    assert(chars@.skip(0) =~= chars@);
    assert(out@ + newlines_marked(chars@) =~= newlines_marked(chars@));
    while i < n
        invariant
            i <= n,
            n == chars@.len(),
            out@ + newlines_marked(chars@.skip(i as int)) == newlines_marked(chars@),
        decreases n - i,
    {
        let ghost before = out@;
        let ghost rest = chars@.skip(i as int);
        if i + 1 < n && chars[i] == '\r' && chars[i + 1] == '\n' {
            out.append(NEWLINE_MARK);
            assert(rest.skip(2) =~= chars@.skip(i + 2));
            i = i + 2;
        } else if chars[i] == '\n' {
            out.append(NEWLINE_MARK);
            assert(rest.skip(1) =~= chars@.skip(i + 1));
            i = i + 1;
        } else {
            out.push(chars[i]);
            assert(rest.skip(1) =~= chars@.skip(i + 1));
            assert(out@ =~= before + seq![rest[0]]);
            i = i + 1;
        }
        assert(out@ + newlines_marked(chars@.skip(i as int)) =~= before + newlines_marked(rest));
    }
    assert(chars@.skip(n as int).len() == 0);
    assert(out@ =~= newlines_marked(command@));
    out.as_str().trim().to_owned()
}

/// The commands of a history that could not be read are none.
pub fn read_history_fallback(content: Option<&str>, direction: HistoryDirection) -> (r: Vec<String>)
    ensures
        text::string_views(r@) == fallback_commands(content, direction),
{
    match content {
        Some(content) => parse_history_content(content, direction),
        None => {
            let none: Vec<String> = Vec::new();
            assert(text::string_views(none@) =~= Seq::<Seq<char>>::empty());
            none
        },
    }
}

/// The commands of a history file that may be missing.
pub open spec fn fallback_commands(
    content: Option<&str>,
    direction: HistoryDirection,
) -> Seq<Seq<char>> {
    match content {
        Some(content) => deduped(directed(commands_of(content@), direction)),
        None => Seq::empty(),
    }
}

/// The commands in a list that a shell hands over, each ended by a zero byte.
/// Empty ones and those that are not UTF-8 are left out.
pub open spec fn zero_separated(data: Seq<u8>) -> Seq<Seq<char>> {
    text::pieces(data, 0u8).filter(|c: Seq<u8>| c.len() > 0 && valid_utf8(c)).map_values(
        |c: Seq<u8>| decode_utf8(c),
    )
}

/// Appends the command that a piece of the shell's list holds, if it holds one.
fn take_command(commands: &mut Vec<String>, piece: Vec<u8>)
    ensures
        text::string_views(final(commands)@) == if piece@.len() > 0 && valid_utf8(piece@) {
            text::string_views(old(commands)@).push(decode_utf8(piece@))
        } else {
            text::string_views(old(commands)@)
        },
{
    let ghost bytes = piece@;
    if piece.len() > 0 {
        if let Some(command) = text::string_from_utf8(piece) {
            commands.push(command);
            assert(text::string_views(commands@) =~= text::string_views(old(commands)@).push(
                decode_utf8(bytes),
            ));
        }
    }
}

/// The commands in a list that a shell hands over.
fn split_commands(data: &[u8]) -> (r: Vec<String>)
    ensures
        text::string_views(r@) == zero_separated(data@),
{
    let ghost good = |c: Seq<u8>| c.len() > 0 && valid_utf8(c);
    let ghost decoded = |c: Seq<u8>| decode_utf8(c);
    let mut commands: Vec<String> = Vec::new();
    let mut piece: Vec<u8> = Vec::new();
    let mut i: usize = 0;
    proof {
        reveal(Seq::filter);
        assert(data@.take(0) =~= Seq::<u8>::empty());
        assert(piece@ =~= text::pieces(data@.take(0), 0u8).last());
        assert(text::pieces(data@.take(0), 0u8).drop_last() =~= Seq::<Seq<u8>>::empty());
        assert(text::string_views(commands@) =~= Seq::<Seq<u8>>::empty().filter(good).map_values(
            decoded,
        ));
    }
    while i < data.len()
        invariant
            i <= data@.len(),
            good == (|c: Seq<u8>| c.len() > 0 && valid_utf8(c)),
            decoded == (|c: Seq<u8>| decode_utf8(c)),
            text::pieces(data@.take(i as int), 0u8).len() > 0,
            text::string_views(commands@) == text::pieces(
                data@.take(i as int),
                0u8,
            ).drop_last().filter(good).map_values(decoded),
            piece@ == text::pieces(data@.take(i as int), 0u8).last(),
        decreases data@.len() - i,
    {
        let b: u8 = data[i];
        let ghost before = text::pieces(data@.take(i as int), 0u8);
        let ghost after = text::pieces(data@.take(i + 1), 0u8);
        proof {
            reveal(Seq::filter);
            assert(data@.take(i + 1).drop_last() =~= data@.take(i as int));
            assert(data@.take(i + 1).last() == b);
        }
        if b == 0 {
            let ghost kept = before.drop_last().filter(good);
            take_command(&mut commands, piece);
            piece = Vec::new();
            proof {
                assert(after.drop_last() =~= before);
                assert(kept.push(before.last()).map_values(decoded) =~= kept.map_values(
                    decoded,
                ).push(decode_utf8(before.last())));
                assert(piece@ =~= after.last());
            }
        } else {
            piece.push(b);
            assert(after.drop_last() =~= before.drop_last());
        }
        i = i + 1;
    }
    assert(data@.take(data@.len() as int) =~= data@);
    let ghost parts = text::pieces(data@, 0u8);
    let ghost kept = parts.drop_last().filter(good);
    take_command(&mut commands, piece);
    proof {
        reveal(Seq::filter);
        assert(kept.push(parts.last()).map_values(decoded) =~= kept.map_values(decoded).push(
            decode_utf8(parts.last()),
        ));
    }
    commands
}

/// The commands to choose from: those that the shell hands over on standard
/// input, or, where it hands over nothing, those of the history file. `fallback`
/// is the content of that file, if it could be read.
pub fn load_history_commands(
    stdin_data: &[u8],
    fallback: Option<&str>,
    direction: HistoryDirection,
) -> (r: Vec<String>)
    ensures
        text::string_views(r@) == if stdin_data@.len() > 0 {
            zero_separated(stdin_data@)
        } else {
            fallback_commands(fallback, direction)
        },
{
    if !stdin_data.is_empty() {
        return split_commands(stdin_data);
    }
    read_history_fallback(fallback, direction)
}

/// A character with the ASCII letters in lower case.
pub open spec fn ascii_lower(c: char) -> char {
    if 'A' <= c <= 'Z' {
        (c as u32 + 32) as char
    } else {
        c
    }
}

/// Whether two texts are equal but for the case of ASCII letters.
pub open spec fn same_ignoring_case(a: Seq<char>, b: Seq<char>) -> bool {
    &&& a.len() == b.len()
    &&& forall|i: int| 0 <= i < a.len() ==> ascii_lower(#[trigger] a[i]) == ascii_lower(b[i])
}

/// The direction that an argument asks for: anything but "forward" is backward.
pub fn parse_history_direction(value: &str) -> (r: HistoryDirection)
    ensures
        r == if same_ignoring_case(value@, "forward"@) {
            HistoryDirection::Forward
        } else {
            HistoryDirection::Backward
        },
{
    let given = text::chars_of(value);
    let wanted = text::chars_of("forward");
    if given.len() != wanted.len() {
        return HistoryDirection::Backward;
    }
    let mut i: usize = 0;
    while i < given.len()
        invariant
            i <= given@.len(),
            given@ == value@,
            wanted@ == "forward"@,
            given@.len() == wanted@.len(),
            forall|j: int| 0 <= j < i ==> ascii_lower(#[trigger] given@[j]) == ascii_lower(wanted@[j]),
        decreases given@.len() - i,
    {
        let a: char = lower_ascii(given[i]);
        let b: char = lower_ascii(wanted[i]);
        if a != b {
            assert(ascii_lower(given@[i as int]) != ascii_lower(wanted@[i as int]));
            return HistoryDirection::Backward;
        }
        i = i + 1;
    }
    HistoryDirection::Forward
}

/// A character with the ASCII letters in lower case.
fn lower_ascii(c: char) -> (r: char)
    ensures
        r == ascii_lower(c),
{
    if 'A' <= c && c <= 'Z' {
        ((c as u8) + 32) as char
    } else {
        c
    }
}

/// Whether an entry stands for a command, white space around it aside.
pub open spec fn names_command(entries: Seq<Seq<char>>, command: Seq<char>) -> bool {
    exists|i: int| 0 <= i < entries.len() && text::trimmed(#[trigger] entries[i]) == command
}

/// What is left of a history holds no command twice, no blank one, and none with
/// white space around it; and it holds every command of the history.
pub proof fn law_deduped(entries: Seq<Seq<char>>)
    ensures
        deduped(entries).no_duplicates(),
        forall|command: Seq<char>|
            #[trigger] deduped(entries).contains(command) <==> command.len() > 0 && names_command(
                entries,
                command,
            ),
        forall|i: int|
            0 <= i < deduped(entries).len() ==> text::trimmed(#[trigger] deduped(entries)[i])
                == deduped(entries)[i],
    decreases entries.len(),
{
    if entries.len() > 0 {
        let before = entries.drop_last();
        let front = deduped(before);
        let last = text::trimmed(entries.last());
        law_deduped(before);
        text::law_trim_is_idempotent(entries.last());
        assert forall|command: Seq<char>|
            #[trigger] deduped(entries).contains(command) <==> command.len() > 0 && names_command(
                entries,
                command,
            ) by {
            assert(front.contains(command) <==> command.len() > 0 && names_command(
                before,
                command,
            ));
            if names_command(before, command) {
                let i = choose|i: int|
                    0 <= i < before.len() && text::trimmed(#[trigger] before[i]) == command;
                assert(text::trimmed(entries[i]) == command);
            }
            assert(text::trimmed(entries[entries.len() - 1]) == last);
            if names_command(entries, command) {
                let i = choose|i: int|
                    0 <= i < entries.len() && text::trimmed(#[trigger] entries[i]) == command;
                if i < before.len() {
                    assert(text::trimmed(before[i]) == command);
                }
            }
            if front.contains(command) {
                let k = choose|k: int| 0 <= k < front.len() && front[k] == command;
                assert(deduped(entries)[k] == command);
            }
            if last.len() > 0 && !front.contains(last) {
                assert(deduped(entries)[front.len() as int] == last);
                if deduped(entries).contains(command) {
                    let k = choose|k: int|
                        0 <= k < deduped(entries).len() && deduped(entries)[k] == command;
                    if k < front.len() {
                        assert(front[k] == command);
                    }
                }
            }
        }
        assert forall|i: int| 0 <= i < deduped(entries).len() implies text::trimmed(
            #[trigger] deduped(entries)[i],
        ) == deduped(entries)[i] by {
            if i < front.len() {
                assert(deduped(entries)[i] == front[i]);
            }
        }
    }
}

/// The commands stand in the order of their first occurrences: what is left of
/// the beginning of a history is the beginning of what is left of it all.
pub proof fn law_deduped_keeps_order(entries: Seq<Seq<char>>, count: int)
    requires
        0 <= count <= entries.len(),
    ensures
        deduped(entries.take(count)).is_prefix_of(deduped(entries)),
    decreases entries.len(),
{
    if count == entries.len() {
        assert(entries.take(count) =~= entries);
    } else {
        let before = entries.drop_last();
        law_deduped_keeps_order(before, count);
        assert(before.take(count) =~= entries.take(count));
        let small = deduped(entries.take(count));
        assert(small =~= deduped(entries).subrange(0, small.len() as int));
    }
}

/// Backward, the latest command comes first, without the white space around it.
pub proof fn law_backward_lists_latest_first(entries: Seq<Seq<char>>)
    requires
        entries.len() > 0,
        text::trimmed(entries.last()).len() > 0,
    ensures
        ({
            let listed = deduped(directed(entries, HistoryDirection::Backward));
            listed.len() > 0 && listed.first() == text::trimmed(entries.last())
        }),
{
    let all = directed(entries, HistoryDirection::Backward);
    law_deduped_keeps_order(all, 1);
    let one = all.take(1);
    assert(one.last() == entries.last());
    assert(deduped(one.drop_last()) =~= Seq::<Seq<char>>::empty());
    assert(deduped(one) =~= seq![text::trimmed(entries.last())]);
    assert(deduped(one)[0] == deduped(all)[0]);
}

/// Removing repetitions once is enough.
pub proof fn law_dedupe_is_idempotent(entries: Seq<Seq<char>>)
    ensures
        deduped(deduped(entries)) == deduped(entries),
{
    law_deduped(entries);
    lemma_nothing_to_dedupe(deduped(entries));
}

proof fn lemma_nothing_to_dedupe(commands: Seq<Seq<char>>)
    requires
        commands.no_duplicates(),
        forall|i: int|
            0 <= i < commands.len() ==> text::trimmed(#[trigger] commands[i]) == commands[i],
        forall|i: int| 0 <= i < commands.len() ==> commands.contains(#[trigger] commands[i]),
        forall|command: Seq<char>| #[trigger] commands.contains(command) ==> command.len() > 0,
    ensures
        deduped(commands) == commands,
    decreases commands.len(),
{
    if commands.len() > 0 {
        let front = commands.drop_last();
        let last = commands.last();
        assert forall|command: Seq<char>| #[trigger] front.contains(command) implies command.len()
            > 0 by {
            let k = choose|k: int| 0 <= k < front.len() && front[k] == command;
            assert(commands[k] == command);
            assert(commands.contains(command));
        }
        lemma_nothing_to_dedupe(front);
        assert(last == commands[commands.len() - 1]);
        assert(!front.contains(last)) by {
            if front.contains(last) {
                let k = choose|k: int| 0 <= k < front.len() && front[k] == last;
                assert(commands[k] == commands[commands.len() - 1]);
            }
        }
        assert(commands.contains(last));
        assert(commands =~= front.push(last));
    }
}

proof fn lemma_marked_has_no_newline(s: Seq<char>)
    ensures
        !newlines_marked(s).contains('\n'),
    decreases s.len(),
{
    reveal_strlit(" ↩ ");
    if s.len() > 0 {
        let (head, rest) = if s.len() >= 2 && s[0] == '\r' && s[1] == '\n' {
            (NEWLINE_MARK@, s.skip(2))
        } else if s[0] == '\n' {
            (NEWLINE_MARK@, s.skip(1))
        } else {
            (seq![s[0]], s.skip(1))
        };
        lemma_marked_has_no_newline(rest);
        let tail = newlines_marked(rest);
        assert(newlines_marked(s) == head + tail);
        if (head + tail).contains('\n') {
            let k = choose|k: int| 0 <= k < (head + tail).len() && (head + tail)[k] == '\n';
            if k >= head.len() {
                assert(tail[k - head.len()] == '\n');
            }
        }
    }
}

proof fn lemma_nothing_to_mark(s: Seq<char>)
    requires
        !s.contains('\n'),
    ensures
        newlines_marked(s) == s,
    decreases s.len(),
{
    if s.len() > 0 {
        assert(s.contains(s[0]));
        if s.len() >= 2 {
            assert(s.contains(s[1]));
        }
        let rest = s.skip(1);
        assert(!rest.contains('\n')) by {
            if rest.contains('\n') {
                let k = choose|k: int| 0 <= k < rest.len() && rest[k] == '\n';
                assert(s[k + 1] == '\n');
            }
        }
        lemma_nothing_to_mark(rest);
        assert(s =~= seq![s[0]] + rest);
    } else {
        assert(newlines_marked(s) =~= s);
    }
}

/// A command is shown on one line, without white space around it, and showing
/// the line again changes nothing. A command that is one trimmed line already is
/// shown as it is.
pub proof fn law_one_line(command: Seq<char>)
    ensures
        !one_line(command).contains('\n'),
        text::trimmed(one_line(command)) == one_line(command),
        one_line(one_line(command)) == one_line(command),
        !command.contains('\n') ==> one_line(command) == text::trimmed(command),
{
    lemma_marked_has_no_newline(command);
    if one_line(command).contains('\n') {
        text::lemma_trimmed_contains(newlines_marked(command), '\n');
    }
    text::law_trim_is_idempotent(newlines_marked(command));
    lemma_nothing_to_mark(one_line(command));
    if !command.contains('\n') {
        lemma_nothing_to_mark(command);
    }
}

/// A line of the extended format gives the command behind its header.
pub proof fn law_extended_line(header: Seq<char>, command: Seq<char>)
    requires
        !header.contains(';'),
    ensures
        command_of_line(": "@ + header + ";"@ + command) == command,
{
    reveal_strlit(": ");
    reveal_strlit(";");
    let line = ": "@ + header + ";"@ + command;
    assert(line.skip(2) =~= header + seq![';'] + command);
    text::lemma_split_at_first(header, ';', command);
}

/// Lines that are written one below the other are read back as they are. The
/// line feed behind the last line may be missing, unless that line is empty.
pub proof fn law_lines_round_trip(parts: Seq<Seq<char>>)
    requires
        forall|i: int|
            0 <= i < parts.len() ==> !(#[trigger] parts[i]).contains('\n') && without_cr(parts[i])
                == parts[i],
    ensures
        lines(text::joined(parts, '\n')) == parts,
        parts.len() > 0 && parts.last().len() > 0 ==> lines(text::joined(parts, '\n').drop_last())
            == parts,
{
    text::lemma_pieces_of_joined(parts, '\n');
    let cut = |line: Seq<char>| without_cr(line);
    assert(parts.push(Seq::empty()).drop_last() =~= parts);
    assert(parts.map_values(cut) =~= parts);
    if parts.len() > 0 {
        assert(parts.drop_last().map_values(cut) =~= parts.drop_last());
        assert(parts.drop_last().push(parts.last()) =~= parts);
    }
}

proof fn lemma_encoded_char_has_no_zero(c: char)
    requires
        c != '\0',
    ensures
        !encode_scalar(c as u32).contains(0u8),
{
    char_is_scalar(c);
    let v = c as u32;
    assert(v <= 0x7f && v != 0 ==> (v & 0x7F) as u8 != 0) by (bit_vector);
    assert(0xC0u8 | ((v >> 6) & 0x1F) as u8 != 0) by (bit_vector);
    assert(0xE0u8 | ((v >> 12) & 0x0F) as u8 != 0) by (bit_vector);
    assert(0xF0u8 | ((v >> 18) & 0x7) as u8 != 0) by (bit_vector);
    assert(0x80u8 | (v & 0x3F) as u8 != 0) by (bit_vector);
    assert(0x80u8 | ((v >> 6) & 0x3F) as u8 != 0) by (bit_vector);
    assert(0x80u8 | ((v >> 12) & 0x3F) as u8 != 0) by (bit_vector);
}

proof fn lemma_encoded_has_no_zero(s: Seq<char>)
    requires
        !s.contains('\0'),
    ensures
        !encode_utf8(s).contains(0u8),
    decreases s.len(),
{
    if s.len() > 0 {
        let rest = s.drop_first();
        assert(s.contains(s[0]));
        assert(!rest.contains('\0')) by {
            if rest.contains('\0') {
                let k = choose|k: int| 0 <= k < rest.len() && rest[k] == '\0';
                assert(s[k + 1] == '\0');
            }
        }
        lemma_encoded_char_has_no_zero(s[0]);
        lemma_encoded_has_no_zero(rest);
        let head = encode_scalar(s[0] as u32);
        let tail = encode_utf8(rest);
        if (head + tail).contains(0u8) {
            let k = choose|k: int| 0 <= k < (head + tail).len() && (head + tail)[k] == 0u8;
            if k < head.len() {
                assert(head[k] == 0u8);
            } else {
                assert(tail[k - head.len()] == 0u8);
            }
        }
    }
}

/// The commands in UTF-8.
pub open spec fn encoded(commands: Seq<Seq<char>>) -> Seq<Seq<u8>> {
    commands.map_values(|command: Seq<char>| encode_utf8(command))
}

proof fn lemma_filter_all<T>(s: Seq<T>, wanted: spec_fn(T) -> bool)
    requires
        forall|i: int| 0 <= i < s.len() ==> wanted(#[trigger] s[i]),
    ensures
        s.filter(wanted) == s,
    decreases s.len(),
{
    reveal(Seq::filter);
    if s.len() > 0 {
        lemma_filter_all(s.drop_last(), wanted);
        assert(s =~= s.drop_last().push(s.last()));
    }
}

/// Commands that a shell hands over, each ended by a zero byte, are read back as
/// they are and in order, with repetitions and white space. The last zero byte
/// may be missing.
pub proof fn law_commands_round_trip(commands: Seq<Seq<char>>)
    requires
        forall|i: int|
            0 <= i < commands.len() ==> (#[trigger] commands[i]).len() > 0
                && !commands[i].contains('\0'),
    ensures
        zero_separated(text::joined(encoded(commands), 0u8)) == commands,
        commands.len() > 0 ==> zero_separated(
            text::joined(encoded(commands), 0u8).drop_last(),
        ) == commands,
{
    let parts = encoded(commands);
    let good = |c: Seq<u8>| c.len() > 0 && valid_utf8(c);
    let decode = |c: Seq<u8>| decode_utf8(c);
    assert forall|i: int| 0 <= i < parts.len() implies !(#[trigger] parts[i]).contains(0u8) && good(
        parts[i],
    ) && decode_utf8(parts[i]) == commands[i] by {
        assert(commands[i].len() > 0);
        lemma_encoded_has_no_zero(commands[i]);
        encode_utf8_valid_utf8(commands[i]);
        encode_utf8_decode_utf8(commands[i]);
        text::lemma_chars_at_most_bytes(commands[i]);
    }
    text::lemma_pieces_of_joined(parts, 0u8);
    lemma_filter_all(parts, good);
    reveal(Seq::filter);
    let all = parts.push(Seq::empty());
    assert(all.drop_last() =~= parts);
    assert(all.filter(good) == parts);
    assert(parts.map_values(decode) =~= commands);
}

/// Where a command stands in the list: behind those that first occurred before
/// it.
proof fn lemma_place_of_first(all: Seq<Seq<char>>, i: int)
    requires
        0 <= i < all.len(),
        text::trimmed(all[i]).len() > 0,
        forall|k: int| 0 <= k < i ==> text::trimmed(#[trigger] all[k]) != text::trimmed(all[i]),
    ensures
        deduped(all.take(i)).len() < deduped(all).len(),
        deduped(all)[deduped(all.take(i)).len() as int] == text::trimmed(all[i]),
        deduped(all.take(i + 1)).len() == deduped(all.take(i)).len() + 1,
{
    let c = text::trimmed(all[i]);
    let front = deduped(all.take(i));
    law_deduped(all.take(i));
    assert(!front.contains(c)) by {
        if front.contains(c) {
            assert(names_command(all.take(i), c));
            let k = choose|k: int|
                0 <= k < i && text::trimmed(#[trigger] all.take(i)[k]) == c;
            assert(all.take(i)[k] == all[k]);
        }
    }
    let next = all.take(i + 1);
    assert(next.drop_last() =~= all.take(i));
    assert(next.last() == all[i]);
    assert(deduped(next) == front.push(c));
    law_deduped_keeps_order(all, i + 1);
    assert(deduped(next)[front.len() as int] == deduped(all)[front.len() as int]);
}

/// Of two commands the one that first occurred before the other is listed first.
proof fn lemma_first_occurrences_in_order(all: Seq<Seq<char>>, i: int, j: int, p: int, q: int)
    requires
        0 <= i < j < all.len(),
        forall|k: int| 0 <= k < i ==> text::trimmed(#[trigger] all[k]) != text::trimmed(all[i]),
        forall|k: int| 0 <= k < j ==> text::trimmed(#[trigger] all[k]) != text::trimmed(all[j]),
        0 <= p < deduped(all).len(),
        0 <= q < deduped(all).len(),
        deduped(all)[p] == text::trimmed(all[i]),
        deduped(all)[q] == text::trimmed(all[j]),
    ensures
        p < q,
{
    law_deduped(all);
    assert(deduped(all).contains(deduped(all)[p]));
    assert(deduped(all).contains(deduped(all)[q]));
    lemma_place_of_first(all, i);
    lemma_place_of_first(all, j);
    law_deduped_keeps_order(all.take(j), i + 1);
    assert(all.take(j).take(i + 1) =~= all.take(i + 1));
}

/// Forward, the commands stand by their first occurrence, earliest first.
/// Backward, they stand by their last occurrence, latest first: of two entries
/// without a later occurrence, the later one is listed before the earlier.
pub proof fn law_commands_stand_by_occurrence(
    entries: Vec<String>,
    direction: HistoryDirection,
    r: Vec<String>,
    i: int,
    j: int,
    p: int,
    q: int,
)
    requires
        call_ensures(dedupe_history_entries, (entries, direction), r),
        0 <= i < j < entries@.len(),
        0 <= p < r@.len(),
        0 <= q < r@.len(),
        r@[p]@ == text::trimmed(entries@[i]@),
        r@[q]@ == text::trimmed(entries@[j]@),
    ensures
        direction is Forward && (forall|k: int|
            0 <= k < i ==> text::trimmed((#[trigger] entries@[k])@) != text::trimmed(
                entries@[i]@,
            )) && (forall|k: int|
            0 <= k < j ==> text::trimmed((#[trigger] entries@[k])@) != text::trimmed(
                entries@[j]@,
            )) ==> p < q,
        direction is Backward && (forall|k: int|
            i < k < entries@.len() ==> text::trimmed((#[trigger] entries@[k])@) != text::trimmed(
                entries@[i]@,
            )) && (forall|k: int|
            j < k < entries@.len() ==> text::trimmed((#[trigger] entries@[k])@) != text::trimmed(
                entries@[j]@,
            )) ==> q < p,
{
    let views = text::string_views(entries@);
    let n = views.len() as int;
    let all = directed(views, direction);
    let listed = deduped(all);
    assert(listed[p] == r@[p]@);
    assert(listed[q] == r@[q]@);
    if direction is Forward {
        if (forall|k: int|
            0 <= k < i ==> text::trimmed((#[trigger] entries@[k])@) != text::trimmed(
                entries@[i]@,
            )) && (forall|k: int|
            0 <= k < j ==> text::trimmed((#[trigger] entries@[k])@) != text::trimmed(
                entries@[j]@,
            )) {
            assert forall|k: int| 0 <= k < j implies text::trimmed(#[trigger] all[k])
                != text::trimmed(all[j]) && (k < i ==> text::trimmed(all[k]) != text::trimmed(
                all[i],
            )) by {
                assert(all[k] == entries@[k]@);
            }
            lemma_first_occurrences_in_order(all, i, j, p, q);
        }
    } else {
        if (forall|k: int|
            i < k < entries@.len() ==> text::trimmed((#[trigger] entries@[k])@) != text::trimmed(
                entries@[i]@,
            )) && (forall|k: int|
            j < k < entries@.len() ==> text::trimmed((#[trigger] entries@[k])@) != text::trimmed(
                entries@[j]@,
            )) {
            let a = n - 1 - j;
            let b = n - 1 - i;
            assert(all[a] == entries@[j]@);
            assert(all[b] == entries@[i]@);
            assert forall|k: int| 0 <= k < b implies text::trimmed(#[trigger] all[k])
                != text::trimmed(all[b]) && (k < a ==> text::trimmed(all[k]) != text::trimmed(
                all[a],
            )) by {
                assert(all[k] == entries@[n - 1 - k]@);
            }
            lemma_first_occurrences_in_order(all, a, b, q, p);
        }
    }
}

/// The commands are those of the entries without the white space around them:
/// every one that is not blank, none twice, and no other.
pub proof fn law_commands_are_those_of_entries(
    entries: Vec<String>,
    direction: HistoryDirection,
    r: Vec<String>,
)
    requires
        call_ensures(dedupe_history_entries, (entries, direction), r),
    ensures
        forall|i: int, j: int|
            0 <= i < j < r@.len() ==> (#[trigger] r@[i])@ != (#[trigger] r@[j])@,
        forall|p: int|
            0 <= p < r@.len() ==> (#[trigger] r@[p])@.len() > 0 && exists|i: int|
                0 <= i < entries@.len() && text::trimmed((#[trigger] entries@[i])@) == r@[p]@,
        forall|i: int|
            0 <= i < entries@.len() && text::trimmed((#[trigger] entries@[i])@).len() > 0
                ==> exists|p: int|
                0 <= p < r@.len() && (#[trigger] r@[p])@ == text::trimmed(entries@[i]@),
{
    let views = text::string_views(entries@);
    let n = views.len() as int;
    let all = directed(views, direction);
    let listed = deduped(all);
    law_deduped(all);
    assert forall|i: int, j: int| 0 <= i < j < r@.len() implies (#[trigger] r@[i])@ != (
    #[trigger] r@[j])@ by {
        assert(listed[i] != listed[j]);
    }
    assert forall|p: int| 0 <= p < r@.len() implies (#[trigger] r@[p])@.len() > 0 && exists|i: int|
        0 <= i < entries@.len() && text::trimmed((#[trigger] entries@[i])@) == r@[p]@ by {
        assert(listed[p] == r@[p]@);
        assert(listed.contains(listed[p]));
        assert(names_command(all, listed[p]));
        let k = choose|k: int| 0 <= k < all.len() && text::trimmed(#[trigger] all[k]) == listed[p];
        let at = if direction is Forward {
            k
        } else {
            n - 1 - k
        };
        assert(all[k] == entries@[at]@);
    }
    assert forall|i: int|
        0 <= i < entries@.len() && text::trimmed((#[trigger] entries@[i])@).len()
            > 0 implies exists|p: int|
        0 <= p < r@.len() && (#[trigger] r@[p])@ == text::trimmed(entries@[i]@) by {
        let c = text::trimmed(entries@[i]@);
        let at = if direction is Forward {
            i
        } else {
            n - 1 - i
        };
        assert(all[at] == entries@[i]@);
        assert(names_command(all, c));
        assert(listed.contains(c));
        let p = choose|p: int| 0 <= p < listed.len() && listed[p] == c;
        assert(r@[p]@ == c);
    }
}

/// Lists of strings with the same texts hold the same text at each place.
proof fn lemma_same_texts(a: Seq<String>, b: Seq<String>)
    requires
        text::string_views(a) == text::string_views(b),
    ensures
        a.len() == b.len(),
        forall|i: int| 0 <= i < a.len() ==> (#[trigger] a[i])@ == b[i]@,
{
    assert(text::string_views(a).len() == a.len());
    assert(text::string_views(b).len() == b.len());
    assert forall|i: int| 0 <= i < a.len() implies (#[trigger] a[i])@ == b[i]@ by {
        assert(text::string_views(a)[i] == text::string_views(b)[i]);
    }
}

/// Reading a history backward is reading its entries forward from the last to
/// the first.
pub proof fn law_backward_is_forward_from_the_end(
    entries: Vec<String>,
    reversed: Vec<String>,
    r: Vec<String>,
    s: Vec<String>,
)
    requires
        call_ensures(dedupe_history_entries, (entries, HistoryDirection::Backward), r),
        call_ensures(dedupe_history_entries, (reversed, HistoryDirection::Forward), s),
        entries@.len() == reversed@.len(),
        forall|i: int|
            0 <= i < entries@.len() ==> (#[trigger] reversed@[i])@ == entries@[entries@.len() - 1
                - i]@,
    ensures
        r@.len() == s@.len(),
        forall|i: int| 0 <= i < r@.len() ==> (#[trigger] r@[i])@ == s@[i]@,
{
    let a = directed(text::string_views(entries@), HistoryDirection::Backward);
    let b = directed(text::string_views(reversed@), HistoryDirection::Forward);
    assert forall|i: int| 0 <= i < a.len() implies a[i] == b[i] by {
        assert(reversed@[i]@ == b[i]);
    }
    assert(a =~= b);
    lemma_same_texts(r@, s@);
}

/// Lines that are blank leave no command behind.
proof fn lemma_blank_lines_do_not_count(all: Seq<Seq<char>>)
    ensures
        deduped(
            all.filter(|line: Seq<char>| is_written(line)).map_values(
                |line: Seq<char>| command_of_line(line),
            ),
        ) == deduped(all.map_values(|line: Seq<char>| command_of_line(line))),
    decreases all.len(),
{
    let written = |line: Seq<char>| is_written(line);
    let command = |line: Seq<char>| command_of_line(line);
    reveal(Seq::filter);
    if all.len() == 0 {
        assert(all.filter(written).map_values(command) =~= all.map_values(command));
    } else {
        let front = all.drop_last();
        let line = all.last();
        lemma_blank_lines_do_not_count(front);
        assert(all.map_values(command).drop_last() =~= front.map_values(command));
        if is_written(line) {
            assert(all.filter(written) == front.filter(written).push(line));
            assert(all.filter(written).map_values(command).drop_last() =~= front.filter(
                written,
            ).map_values(command));
        } else {
            text::law_blank_iff_nothing_left(line);
            if line.len() >= 2 {
                assert(text::is_white_space(line[0]));
            }
            assert(command_of_line(line) == line);
        }
    }
}

proof fn lemma_filter_reversed(all: Seq<Seq<char>>, wanted: spec_fn(Seq<char>) -> bool)
    ensures
        all.filter(wanted).reverse() == all.reverse().filter(wanted),
    decreases all.len(),
{
    reveal(Seq::filter);
    if all.len() == 0 {
        assert(all.filter(wanted).reverse() =~= all.reverse().filter(wanted));
    } else {
        let front = all.drop_last();
        let line = all.last();
        lemma_filter_reversed(front, wanted);
        assert(all.reverse() =~= seq![line] + front.reverse());
        front.reverse().lemma_filter_prepend(line, wanted);
        assert(all.filter(wanted).reverse() =~= all.reverse().filter(wanted));
    }
}

/// The commands of a file are those of all its lines.
proof fn lemma_every_line_is_read(all: Seq<Seq<char>>, direction: HistoryDirection)
    ensures
        deduped(
            directed(
                all.filter(|line: Seq<char>| is_written(line)).map_values(
                    |line: Seq<char>| command_of_line(line),
                ),
                direction,
            ),
        ) == deduped(
            directed(all.map_values(|line: Seq<char>| command_of_line(line)), direction),
        ),
{
    let written = |line: Seq<char>| is_written(line);
    let command = |line: Seq<char>| command_of_line(line);
    if direction is Forward {
        lemma_blank_lines_do_not_count(all);
    } else {
        lemma_filter_reversed(all, written);
        lemma_blank_lines_do_not_count(all.reverse());
        assert(all.filter(written).map_values(command).reverse() =~= all.reverse().filter(
            written,
        ).map_values(command));
        assert(all.map_values(command).reverse() =~= all.reverse().map_values(command));
    }
}

proof fn lemma_no_separator<T>(s: Seq<T>, separator: T)
    requires
        !s.contains(separator),
    ensures
        text::after_first(s, separator) is None,
    decreases s.len(),
{
    if s.len() > 0 {
        assert(s.contains(s[0]));
        assert(!s.drop_first().contains(separator)) by {
            if s.drop_first().contains(separator) {
                let k = choose|k: int|
                    0 <= k < s.drop_first().len() && s.drop_first()[k] == separator;
                assert(s[k + 1] == separator);
            }
        }
        lemma_no_separator(s.drop_first(), separator);
    }
}

/// A history file is read line by line: a line of the extended format, a colon
/// and a blank, a header and a semicolon, stands for the command behind the
/// semicolon, and any other line for itself. What comes of a file is what comes
/// of these commands. The line feed behind the last line may be missing.
pub proof fn law_file_is_read_line_by_line(
    parts: Seq<Seq<char>>,
    headers: Seq<Option<Seq<char>>>,
    content: &str,
    entries: Vec<String>,
    direction: HistoryDirection,
    r: Vec<String>,
    s: Vec<String>,
)
    requires
        call_ensures(parse_history_content, (content, direction), r),
        call_ensures(dedupe_history_entries, (entries, direction), s),
        content@ == text::joined(parts, '\n') || (parts.len() > 0 && parts.last().len() > 0
            && content@ == text::joined(parts, '\n').drop_last()),
        headers.len() == parts.len(),
        entries@.len() == parts.len(),
        forall|i: int|
            0 <= i < parts.len() ==> !(#[trigger] parts[i]).contains('\n') && !(parts[i].len() > 0
                && parts[i].last() == '\r'),
        forall|i: int|
            0 <= i < parts.len() ==> match #[trigger] headers[i] {
                Some(header) => !header.contains(';') && parts[i] == seq![':', ' '] + header
                    + seq![';'] + entries@[i]@,
                None => entries@[i]@ == parts[i] && (parts[i].len() < 2 || parts[i][0] != ':'
                    || parts[i][1] != ' ' || !parts[i].contains(';')),
            },
    ensures
        r@.len() == s@.len(),
        forall|i: int| 0 <= i < r@.len() ==> (#[trigger] r@[i])@ == s@[i]@,
{
    let command = |line: Seq<char>| command_of_line(line);
    law_lines_round_trip(parts);
    assert(lines(content@) == parts);
    lemma_every_line_is_read(parts, direction);
    assert forall|i: int| 0 <= i < parts.len() implies command_of_line(parts[i])
        == entries@[i]@ by {
        match headers[i] {
            Some(header) => {
                reveal_strlit(": ");
                reveal_strlit(";");
                assert(": "@ =~= seq![':', ' ']);
                assert(";"@ =~= seq![';']);
                law_extended_line(header, entries@[i]@);
            },
            None => {
                let line = parts[i];
                if line.len() >= 2 && line[0] == ':' && line[1] == ' ' {
                    assert(!line.skip(2).contains(';')) by {
                        if line.skip(2).contains(';') {
                            let k = choose|k: int|
                                0 <= k < line.skip(2).len() && line.skip(2)[k] == ';';
                            assert(line[k + 2] == ';');
                        }
                    }
                    lemma_no_separator(line.skip(2), ';');
                }
            },
        }
    }
    assert(parts.map_values(command) =~= text::string_views(entries@));
    lemma_same_texts(r@, s@);
}

/// A carriage return before each line feed makes no difference.
pub proof fn law_carriage_returns_do_not_count(
    parts: Seq<Seq<char>>,
    content: &str,
    with_returns: &str,
    direction: HistoryDirection,
    r: Vec<String>,
    s: Vec<String>,
)
    requires
        call_ensures(parse_history_content, (content, direction), r),
        call_ensures(parse_history_content, (with_returns, direction), s),
        forall|i: int|
            0 <= i < parts.len() ==> !(#[trigger] parts[i]).contains('\n') && !(parts[i].len() > 0
                && parts[i].last() == '\r'),
        content@ == text::joined(parts, '\n'),
        with_returns@ == text::joined(
            Seq::new(parts.len(), |i: int| parts[i].push('\r')),
            '\n',
        ),
    ensures
        r@.len() == s@.len(),
        forall|i: int| 0 <= i < r@.len() ==> (#[trigger] r@[i])@ == s@[i]@,
{
    let ended = Seq::new(parts.len(), |i: int| parts[i].push('\r'));
    let cut = |line: Seq<char>| without_cr(line);
    assert forall|i: int| 0 <= i < ended.len() implies !(#[trigger] ended[i]).contains('\n') by {
        if ended[i].contains('\n') {
            let k = choose|k: int| 0 <= k < ended[i].len() && ended[i][k] == '\n';
            assert(parts[i][k] == '\n');
            assert(parts[i].contains('\n'));
        }
    }
    law_lines_round_trip(parts);
    text::lemma_pieces_of_joined(ended, '\n');
    assert(ended.push(Seq::empty()).drop_last() =~= ended);
    assert forall|i: int| 0 <= i < ended.len() implies without_cr(ended[i]) == parts[i] by {
        assert(ended[i].drop_last() =~= parts[i]);
    }
    assert(ended.map_values(cut) =~= parts);
    assert(lines(content@) == lines(with_returns@));
    lemma_same_texts(r@, s@);
}

/// What a shell hands over is taken as it is, in its order and with repetitions,
/// whatever the direction and whatever the history file holds. The last zero
/// byte may be missing.
pub proof fn law_shell_commands_are_taken_as_they_are(
    commands: Seq<Seq<char>>,
    data: &[u8],
    fallback: Option<&str>,
    direction: HistoryDirection,
    r: Vec<String>,
)
    requires
        call_ensures(load_history_commands, (data, fallback, direction), r),
        commands.len() > 0,
        forall|i: int|
            0 <= i < commands.len() ==> (#[trigger] commands[i]).len() > 0
                && !commands[i].contains('\0'),
        data@ == text::joined(encoded(commands), 0u8) || data@ == text::joined(
            encoded(commands),
            0u8,
        ).drop_last(),
    ensures
        r@.len() == commands.len(),
        forall|i: int| 0 <= i < r@.len() ==> (#[trigger] r@[i])@ == commands[i],
{
    law_commands_round_trip(commands);
    if data@.len() == 0 {
        assert(text::pieces(data@, 0u8) =~= seq![Seq::<u8>::empty()]);
        reveal_with_fuel(Seq::filter, 2);
        assert(zero_separated(data@).len() == 0);
    }
    assert forall|i: int| 0 <= i < r@.len() implies (#[trigger] r@[i])@ == commands[i] by {
        assert(text::string_views(r@)[i] == commands[i]);
    }
}

/// Where the shell hands nothing over, the commands are those of the history
/// file, and none where it could not be read.
pub proof fn law_history_file_is_the_fallback(
    data: &[u8],
    content: &str,
    direction: HistoryDirection,
    r: Vec<String>,
    s: Vec<String>,
    none: Vec<String>,
)
    requires
        data@.len() == 0,
        call_ensures(load_history_commands, (data, Some(content), direction), r) || call_ensures(
            read_history_fallback,
            (Some(content), direction),
            r,
        ),
        call_ensures(parse_history_content, (content, direction), s),
        call_ensures(load_history_commands, (data, None::<&str>, direction), none) || call_ensures(
            read_history_fallback,
            (None::<&str>, direction),
            none,
        ),
    ensures
        r@.len() == s@.len(),
        forall|i: int| 0 <= i < r@.len() ==> (#[trigger] r@[i])@ == s@[i]@,
        none@.len() == 0,
{
    lemma_same_texts(r@, s@);
    assert(text::string_views(none@).len() == 0);
}

/// The direction is forward for the word "forward" in any mixture of capitals
/// and small letters, and backward for anything else.
pub proof fn law_direction_is_forward_by_name(value: &str, r: HistoryDirection)
    requires
        call_ensures(parse_history_direction, (value,), r),
    ensures
        r is Forward <==> value@.len() == 7 && forall|i: int|
            0 <= i < 7 ==> {
                let wanted = seq!['f', 'o', 'r', 'w', 'a', 'r', 'd'][i];
                #[trigger] value@[i] == wanted || value@[i] as u32 + 32 == wanted as u32
            },
{
    reveal_strlit("forward");
    let wanted = seq!['f', 'o', 'r', 'w', 'a', 'r', 'd'];
    assert("forward"@ =~= wanted);
    if value@.len() == 7 {
        assert forall|i: int| 0 <= i < 7 implies (ascii_lower(#[trigger] value@[i]) == ascii_lower(
            wanted[i],
        ) <==> value@[i] == wanted[i] || value@[i] as u32 + 32 == wanted[i] as u32) by {
            assert('a' <= wanted[i] <= 'z');
        }
    }
}

proof fn lemma_first_line_break(a: Seq<char>, b: Seq<char>)
    requires
        !a.contains('\n'),
    ensures
        newlines_marked(a + seq!['\n'] + b) == without_cr(a) + NEWLINE_MARK@ + newlines_marked(b),
    decreases a.len(),
{
    let whole = a + seq!['\n'] + b;
    if a.len() == 0 {
        assert(whole.skip(1) =~= b);
        assert(newlines_marked(whole) =~= without_cr(a) + NEWLINE_MARK@ + newlines_marked(b));
    } else if a.len() == 1 && a[0] == '\r' {
        assert(whole[0] == '\r' && whole[1] == '\n');
        assert(whole.skip(2) =~= b);
        assert(newlines_marked(whole) =~= without_cr(a) + NEWLINE_MARK@ + newlines_marked(b));
    } else {
        let rest = a.skip(1);
        assert(a.contains(a[0]));
        if a.len() >= 2 {
            assert(a.contains(a[1]));
            assert(whole[1] == a[1]);
        }
        assert(!rest.contains('\n')) by {
            if rest.contains('\n') {
                let k = choose|k: int| 0 <= k < rest.len() && rest[k] == '\n';
                assert(a[k + 1] == '\n');
            }
        }
        lemma_first_line_break(rest, b);
        assert(whole.skip(1) =~= rest + seq!['\n'] + b);
        assert(newlines_marked(whole) == seq![a[0]] + newlines_marked(whole.skip(1)));
        assert(seq![a[0]] + without_cr(rest) =~= without_cr(a));
        assert(newlines_marked(whole) =~= without_cr(a) + NEWLINE_MARK@ + newlines_marked(b));
    }
}

/// The lines of a command one behind the other, with an arrow between them.
pub open spec fn with_arrows(parts: Seq<Seq<char>>) -> Seq<char>
    decreases parts.len(),
{
    if parts.len() == 0 {
        Seq::empty()
    } else if parts.len() == 1 {
        parts[0]
    } else {
        parts[0] + seq![' ', '↩', ' '] + with_arrows(parts.drop_first())
    }
}

/// Lines one below the other, with a line break between them: a line feed, or a
/// carriage return and a line feed.
pub open spec fn stacked(parts: Seq<Seq<char>>, with_cr: Seq<bool>) -> Seq<char>
    decreases parts.len(),
{
    if parts.len() == 0 {
        Seq::empty()
    } else if parts.len() == 1 {
        parts[0]
    } else {
        parts[0] + (if with_cr[0] {
            seq!['\r', '\n']
        } else {
            seq!['\n']
        }) + stacked(parts.drop_first(), with_cr.drop_first())
    }
}

proof fn lemma_stacked_marked(parts: Seq<Seq<char>>, with_cr: Seq<bool>)
    requires
        forall|i: int|
            0 <= i < parts.len() ==> !(#[trigger] parts[i]).contains('\n') && !(parts[i].len() > 0
                && parts[i].last() == '\r'),
    ensures
        newlines_marked(stacked(parts, with_cr)) == with_arrows(parts),
    decreases parts.len(),
{
    reveal_strlit(" ↩ ");
    assert(NEWLINE_MARK@ =~= seq![' ', '↩', ' ']);
    if parts.len() == 0 {
        assert(newlines_marked(Seq::empty()) =~= Seq::empty());
    } else if parts.len() == 1 {
        lemma_nothing_to_mark(parts[0]);
    } else {
        let rest = parts.drop_first();
        assert forall|i: int| 0 <= i < rest.len() implies !(#[trigger] rest[i]).contains('\n')
            && !(rest[i].len() > 0 && rest[i].last() == '\r') by {
            assert(rest[i] == parts[i + 1]);
        }
        lemma_stacked_marked(rest, with_cr.drop_first());
        let below = stacked(rest, with_cr.drop_first());
        if with_cr[0] {
            let a = parts[0].push('\r');
            assert(!a.contains('\n')) by {
                if a.contains('\n') {
                    let k = choose|k: int| 0 <= k < a.len() && a[k] == '\n';
                    assert(parts[0][k] == '\n');
                }
            }
            assert(stacked(parts, with_cr) =~= a + seq!['\n'] + below);
            lemma_first_line_break(a, below);
            assert(a.drop_last() =~= parts[0]);
        } else {
            lemma_first_line_break(parts[0], below);
        }
    }
}

/// A command is shown with its lines one behind the other and an arrow for each
/// line break, without the white space around the whole.
pub proof fn law_line_breaks_are_shown_as_arrows(
    parts: Seq<Seq<char>>,
    with_cr: Seq<bool>,
    command: &str,
    r: String,
)
    requires
        call_ensures(sanitize_history_display, (command,), r),
        forall|i: int|
            0 <= i < parts.len() ==> !(#[trigger] parts[i]).contains('\n') && !(parts[i].len() > 0
                && parts[i].last() == '\r'),
        command@ == stacked(parts, with_cr),
    ensures
        r@ == text::trimmed(with_arrows(parts)),
{
    lemma_stacked_marked(parts, with_cr);
}

proof fn lemma_pieces_of_both(a: Seq<u8>, b: Seq<u8>)
    ensures
        text::pieces(a + seq![0u8] + b, 0u8) == text::pieces(a, 0u8) + text::pieces(b, 0u8),
    decreases b.len(),
{
    let whole = a + seq![0u8] + b;
    text::lemma_pieces_nonempty(b, 0u8);
    if b.len() == 0 {
        assert(whole.drop_last() =~= a);
        assert(whole.last() == 0u8);
        assert(text::pieces(b, 0u8) =~= seq![Seq::<u8>::empty()]);
        assert(text::pieces(whole, 0u8) =~= text::pieces(a, 0u8) + text::pieces(b, 0u8));
    } else {
        let front = b.drop_last();
        lemma_pieces_of_both(a, front);
        text::lemma_pieces_nonempty(front, 0u8);
        assert(whole.drop_last() =~= a + seq![0u8] + front);
        assert(whole.last() == b.last());
        assert(text::pieces(whole, 0u8) =~= text::pieces(a, 0u8) + text::pieces(b, 0u8));
    }
}

proof fn lemma_filter_both(a: Seq<Seq<u8>>, b: Seq<Seq<u8>>, wanted: spec_fn(Seq<u8>) -> bool)
    ensures
        (a + b).filter(wanted) == a.filter(wanted) + b.filter(wanted),
    decreases b.len(),
{
    reveal(Seq::filter);
    if b.len() == 0 {
        assert(a + b =~= a);
        assert(a.filter(wanted) + b.filter(wanted) =~= a.filter(wanted));
    } else {
        lemma_filter_both(a, b.drop_last(), wanted);
        assert((a + b).drop_last() =~= a + b.drop_last());
        assert((a + b).filter(wanted) =~= a.filter(wanted) + b.filter(wanted));
    }
}

/// A zero byte parts what a shell hands over: the commands before it and those
/// behind it are the commands of the whole. Bytes without one are one command,
/// where they are UTF-8, and none where they are not.
pub proof fn law_zero_byte_parts_commands(
    before: &[u8],
    behind: &[u8],
    whole: &[u8],
    fallback: Option<&str>,
    direction: HistoryDirection,
    r: Vec<String>,
    s: Vec<String>,
    all: Vec<String>,
)
    requires
        call_ensures(load_history_commands, (before, fallback, direction), r),
        call_ensures(load_history_commands, (behind, fallback, direction), s),
        call_ensures(load_history_commands, (whole, fallback, direction), all),
        whole@ == before@ + seq![0u8] + behind@,
    ensures
        before@.len() > 0 && behind@.len() > 0 ==> {
            &&& all@.len() == r@.len() + s@.len()
            &&& forall|i: int| 0 <= i < r@.len() ==> (#[trigger] all@[i])@ == r@[i]@
            &&& forall|i: int|
                r@.len() <= i < all@.len() ==> (#[trigger] all@[i])@ == s@[i - r@.len()]@
        },
        before@.len() > 0 && behind@.len() == 0 ==> {
            &&& all@.len() == r@.len()
            &&& forall|i: int| 0 <= i < r@.len() ==> (#[trigger] all@[i])@ == r@[i]@
        },
        before@.len() == 0 && behind@.len() > 0 ==> {
            &&& all@.len() == s@.len()
            &&& forall|i: int| 0 <= i < s@.len() ==> (#[trigger] all@[i])@ == s@[i]@
        },
        before@.len() == 0 && behind@.len() == 0 ==> all@.len() == 0,
        before@.len() > 0 && !before@.contains(0u8) && valid_utf8(before@) ==> r@.len() == 1
            && r@[0]@ == decode_utf8(before@),
        before@.len() > 0 && !before@.contains(0u8) && !valid_utf8(before@) ==> r@.len() == 0,
{
    let good = |c: Seq<u8>| c.len() > 0 && valid_utf8(c);
    let decoded = |c: Seq<u8>| decode_utf8(c);
    let p = text::pieces(before@, 0u8);
    let q = text::pieces(behind@, 0u8);
    lemma_pieces_of_both(before@, behind@);
    lemma_filter_both(p, q, good);
    let a = zero_separated(before@);
    let b = zero_separated(behind@);
    let both = zero_separated(whole@);
    assert(both =~= a + b);
    lemma_nothing_separated(before@);
    lemma_nothing_separated(behind@);
    assert(text::string_views(all@) == both);
    assert(text::string_views(all@).len() == all@.len());
    assert forall|i: int| 0 <= i < all@.len() implies (#[trigger] all@[i])@ == both[i] by {
        assert(text::string_views(all@)[i] == both[i]);
    }
    if before@.len() > 0 {
        assert(text::string_views(r@) == a);
        assert(text::string_views(r@).len() == r@.len());
        assert forall|i: int| 0 <= i < r@.len() implies (#[trigger] r@[i])@ == a[i] by {
            assert(text::string_views(r@)[i] == a[i]);
        }
    }
    if behind@.len() > 0 {
        assert(text::string_views(s@) == b);
        assert(text::string_views(s@).len() == s@.len());
        assert forall|i: int| 0 <= i < s@.len() implies (#[trigger] s@[i])@ == b[i] by {
            assert(text::string_views(s@)[i] == b[i]);
        }
    }
    if before@.len() > 0 && !before@.contains(0u8) {
        lemma_one_piece(before@);
        reveal_with_fuel(Seq::filter, 2);
        assert(p.drop_last() =~= Seq::<Seq<u8>>::empty());
        if valid_utf8(before@) {
            assert(p.filter(good) =~= seq![before@]);
            assert(a[0] == decode_utf8(before@));
        } else {
            assert(p.filter(good) =~= Seq::<Seq<u8>>::empty());
        }
    }
}

/// No bytes are no commands.
proof fn lemma_nothing_separated(data: Seq<u8>)
    ensures
        data.len() == 0 ==> zero_separated(data).len() == 0,
{
    if data.len() == 0 {
        assert(text::pieces(data, 0u8) =~= seq![Seq::<u8>::empty()]);
        reveal_with_fuel(Seq::filter, 2);
        assert(zero_separated(data).len() == 0);
    }
}

proof fn lemma_one_piece(data: Seq<u8>)
    requires
        !data.contains(0u8),
    ensures
        text::pieces(data, 0u8) == seq![data],
    decreases data.len(),
{
    if data.len() == 0 {
        assert(data =~= Seq::<u8>::empty());
    } else {
        let front = data.drop_last();
        assert(!front.contains(0u8)) by {
            if front.contains(0u8) {
                let k = choose|k: int| 0 <= k < front.len() && front[k] == 0u8;
                assert(data[k] == 0u8);
            }
        }
        assert(data.contains(data[data.len() - 1]));
        lemma_one_piece(front);
        assert(front.push(data.last()) =~= data);
        assert(text::pieces(data, 0u8) =~= seq![data]);
    }
}

} // verus!
