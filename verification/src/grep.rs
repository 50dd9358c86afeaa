//! Grep: what a run is asked, what it hands back, and how that is printed.

use crate::ansi;
use crate::ansi::{highlight_grep_ranges, BOLD, GRAY, GREEN, RESET, YELLOW};
use crate::text;
use crate::types::{GrepCliMatch, GrepCliMode, GrepCliOptions, GrepCliResult};
use std::path::PathBuf;
use vstd::hash_set::StringHashSet;
use vstd::prelude::*;

verus! {

/// The largest file that is searched, in bytes.
pub const MAX_FILE_SIZE: u64 = 10 * 1024 * 1024;

/// How a pattern is read: as a regular expression unless asked otherwise.
pub fn grep_cli_mode(fixed_strings: bool, fuzzy: bool) -> (r: GrepCliMode)
    ensures
        r == if fuzzy {
            GrepCliMode::Fuzzy
        } else if fixed_strings {
            GrepCliMode::PlainText
        } else {
            GrepCliMode::Regex
        },
{
    if fuzzy {
        GrepCliMode::Fuzzy
    } else if fixed_strings {
        GrepCliMode::PlainText
    } else {
        GrepCliMode::Regex
    }
}

/// How many lines of context one side has: as asked for that side, as asked for
/// both, or none.
pub open spec fn context_lines(own: Option<usize>, both: Option<usize>) -> usize {
    match (own, both) {
        (Some(lines), _) => lines,
        (None, Some(lines)) => lines,
        (None, None) => 0,
    }
}

/// How many lines of context one side has.
pub fn context_count(own: Option<usize>, both: Option<usize>) -> (r: usize)
    ensures
        r == context_lines(own, both),
{
    match own {
        Some(lines) => lines,
        None => match both {
            Some(lines) => lines,
            None => 0,
        },
    }
}

/// What a run is asked, from the arguments of the command line.
pub fn grep_options(
    query: String,
    path: PathBuf,
    fixed_strings: bool,
    fuzzy: bool,
    context: Option<usize>,
    before_context: Option<usize>,
    after_context: Option<usize>,
    max_matches_per_file: usize,
    page_limit: usize,
    smart_case: bool,
) -> (r: GrepCliOptions)
    ensures
        r.base_path == path,
        r.query@ == query@,
        r.mode == if fuzzy {
            GrepCliMode::Fuzzy
        } else if fixed_strings {
            GrepCliMode::PlainText
        } else {
            GrepCliMode::Regex
        },
        r.smart_case == smart_case,
        r.before_context == context_lines(before_context, context),
        r.after_context == context_lines(after_context, context),
        r.max_file_size == MAX_FILE_SIZE,
        r.max_matches_per_file == max_matches_per_file,
        r.page_limit == page_limit,
{
    GrepCliOptions {
        base_path: path,
        query,
        mode: grep_cli_mode(fixed_strings, fuzzy),
        smart_case,
        before_context: context_count(before_context, context),
        after_context: context_count(after_context, context),
        max_file_size: MAX_FILE_SIZE,
        max_matches_per_file,
        page_limit,
    }
}

/// What the search behind a run is told.
#[derive(Debug, Clone, Copy, PartialEq, Eq)]
pub struct GrepSettings {
    pub max_file_size: u64,
    pub max_matches_per_file: usize,
    pub smart_case: bool,
    pub file_offset: usize,
    pub page_limit: usize,
    pub mode: GrepCliMode,
    pub time_budget_ms: u64,
    pub before_context: usize,
    pub after_context: usize,
    pub classify_definitions: bool,
    pub trim_whitespace: bool,
}

/// What the search is told for a run: to begin with the first file, to take all
/// the time it needs, and to hand the lines back as they stand and unclassified.
pub fn grep_search_settings(options: &GrepCliOptions) -> (r: GrepSettings)
    ensures
        r.max_file_size == options.max_file_size,
        r.max_matches_per_file == options.max_matches_per_file,
        r.smart_case == options.smart_case,
        r.file_offset == 0,
        r.page_limit == options.page_limit,
        r.mode == options.mode,
        r.time_budget_ms == 0,
        r.before_context == options.before_context,
        r.after_context == options.after_context,
        !r.classify_definitions,
        !r.trim_whitespace,
{
    GrepSettings {
        max_file_size: options.max_file_size,
        max_matches_per_file: options.max_matches_per_file,
        smart_case: options.smart_case,
        file_offset: 0,
        page_limit: options.page_limit,
        mode: options.mode,
        time_budget_ms: 0,
        before_context: options.before_context,
        after_context: options.after_context,
        classify_definitions: false,
        trim_whitespace: false,
    }
}

/// Why a path cannot be searched: it is a file without a directory around it.
#[derive(Debug, Clone, Copy, PartialEq, Eq)]
pub struct MissingParent;

/// What is searched for a path: the directory, or, for a file, the directory
/// around it, with the file as the only one whose matches count.
pub fn search_root(
    path: PathBuf,
    is_file: bool,
    parent: Option<PathBuf>,
) -> (r: Result<(PathBuf, Option<PathBuf>), MissingParent>)
    ensures
        r == (if !is_file {
            Ok((path, None))
        } else {
            match parent {
                Some(parent) => Ok((parent, Some(path))),
                None => Err(MissingParent),
            }
        }),
{
    if !is_file {
        return Ok((path, None));
    }
    match parent {
        Some(parent) => Ok((parent, Some(path))),
        None => Err(MissingParent),
    }
}

/// A file with matches: its path from the root, and whether it is the one that
/// was asked for.
#[derive(Debug, Clone)]
pub struct GrepFile {
    pub relative_path: String,
    pub is_target: bool,
}

/// A matching line, in one of the files with matches.
#[derive(Debug, Clone)]
pub struct GrepHit {
    pub file_index: usize,
    pub line_number: u64,
    pub col: usize,
    pub line_content: String,
    pub match_byte_offsets: Vec<(u32, u32)>,
    pub context_before: Vec<String>,
    pub context_after: Vec<String>,
}

/// Whether a match counts: any does, unless one file was asked for.
pub open spec fn counts(hit: GrepHit, files: Seq<GrepFile>, only_target: bool) -> bool {
    only_target ==> files[hit.file_index as int].is_target
}

/// The matches that count.
pub open spec fn counted(hits: Seq<GrepHit>, files: Seq<GrepFile>, only_target: bool) -> Seq<
    GrepHit,
> {
    hits.filter(|hit: GrepHit| counts(hit, files, only_target))
}

/// Byte ranges with wider numbers.
pub open spec fn widened(ranges: Seq<(u32, u32)>) -> Seq<(usize, usize)> {
    ranges.map_values(|range: (u32, u32)| (range.0 as usize, range.1 as usize))
}

/// Whether an entry stands for a match.
pub open spec fn reports(entry: GrepCliMatch, hit: GrepHit, files: Seq<GrepFile>) -> bool {
    &&& entry.path@ == files[hit.file_index as int].relative_path@
    &&& entry.line_number == hit.line_number
    &&& entry.col == hit.col
    &&& entry.line_content@ == hit.line_content@
    &&& entry.match_ranges@ == widened(hit.match_byte_offsets@)
    &&& entry.context_before == hit.context_before
    &&& entry.context_after == hit.context_after
}

/// The paths of the entries.
pub open spec fn paths_of(matches: Seq<GrepCliMatch>) -> Seq<Seq<char>> {
    matches.map_values(|m: GrepCliMatch| m.path@)
}

/// Byte ranges with wider numbers.
fn widen(ranges: &Vec<(u32, u32)>) -> (r: Vec<(usize, usize)>)
    ensures
        r@ == widened(ranges@),
{
    let mut r: Vec<(usize, usize)> = Vec::new();
    let mut i: usize = 0;
    while i < ranges.len()
        invariant
            i <= ranges@.len(),
            r@.len() == i,
            forall|j: int| 0 <= j < i ==> #[trigger] r@[j] == widened(ranges@)[j],
        decreases ranges@.len() - i,
    {
        r.push((ranges[i].0 as usize, ranges[i].1 as usize));
        i = i + 1;
    }
    assert(r@ =~= widened(ranges@));
    r
}

/// The entry for a match.
fn entry_for(hit: GrepHit, files: &Vec<GrepFile>) -> (r: GrepCliMatch)
    requires
        hit.file_index < files@.len(),
    ensures
        reports(r, hit, files@),
{
    GrepCliMatch {
        path: files[hit.file_index].relative_path.as_str().to_owned(),
        line_number: hit.line_number,
        col: hit.col,
        line_content: hit.line_content,
        match_ranges: widen(&hit.match_byte_offsets),
        context_before: hit.context_before,
        context_after: hit.context_after,
    }
}

/// How many different paths the entries have.
pub fn count_paths(matches: &Vec<GrepCliMatch>) -> (r: usize)
    ensures
        r == paths_of(matches@).to_set().len(),
{
    let ghost all = paths_of(matches@);
    let mut seen = StringHashSet::new();
    let mut i: usize = 0;
    assert(all.take(0).to_set() =~= Set::<Seq<char>>::empty());
    while i < matches.len()
        invariant
            i <= matches@.len(),
            all == paths_of(matches@),
            seen@ == all.take(i as int).to_set(),
        decreases matches@.len() - i,
    {
        let ghost before = all.take(i as int);
        let ghost after = all.take(i + 1);
        let ghost path = all[i as int];
        let is_new: bool = seen.insert(matches[i].path.as_str().to_owned());
        assert(after =~= before.push(path));
        assert forall|p: Seq<char>|
            #[trigger] after.to_set().contains(p) <==> before.to_set().insert(path).contains(
                p,
            ) by {
            if before.contains(p) {
                let k = choose|k: int| 0 <= k < before.len() && before[k] == p;
                assert(after[k] == p);
            }
            assert(after[i as int] == path);
            if after.contains(p) {
                let k = choose|k: int| 0 <= k < after.len() && after[k] == p;
                if k < i {
                    assert(before[k] == p);
                }
            }
        }
        assert(after.to_set() =~= before.to_set().insert(path));
        i = i + 1;
    }
    assert(all.take(all.len() as int) =~= all);
    seen.len()
}

/// What a run hands back: an entry for each match that counts, in order, and
/// how many files they are in.
pub fn grep_cli_result(
    hits: Vec<GrepHit>,
    files: &Vec<GrepFile>,
    only_target: bool,
    total_files: usize,
    total_files_searched: usize,
) -> (r: GrepCliResult)
    requires
        forall|i: int| 0 <= i < hits@.len() ==> (#[trigger] hits@[i]).file_index < files@.len(),
    ensures
        ({
            let kept = counted(hits@, files@, only_target);
            &&& r.matches@.len() == kept.len()
            &&& forall|i: int|
                0 <= i < kept.len() ==> reports(#[trigger] r.matches@[i], kept[i], files@)
        }),
        r.files_with_matches == paths_of(r.matches@).to_set().len(),
        r.total_files == total_files,
        r.total_files_searched == total_files_searched,
{
    let ghost wanted = |hit: GrepHit| counts(hit, files@, only_target);
    let ghost all = hits@;
    let mut matches: Vec<GrepCliMatch> = Vec::new();
    proof {
        reveal(Seq::filter);
    }
    assert(all.take(0).filter(wanted).len() == 0);
    for hit in it: hits
        invariant
            it.seq() == hits@,
            all == hits@,
            wanted == (|hit: GrepHit| counts(hit, files@, only_target)),
            forall|i: int| 0 <= i < hits@.len() ==> (#[trigger] hits@[i]).file_index < files@.len(),
            matches@.len() == all.take(it.index()).filter(wanted).len(),
            forall|i: int|
                0 <= i < matches@.len() ==> reports(
                    #[trigger] matches@[i],
                    all.take(it.index()).filter(wanted)[i],
                    files@,
                ),
    {
        let ghost here = it.index();
        proof {
            reveal(Seq::filter);
            assert(all.take(here + 1).drop_last() =~= all.take(here));
            assert(all.take(here + 1).last() == hit);
            assert(hits@[here].file_index < files@.len());
        }
        if !only_target || files[hit.file_index].is_target {
            matches.push(entry_for(hit, files));
        }
    }
    assert(all.take(all.len() as int) =~= all);
    let files_with_matches: usize = count_paths(&matches);
    GrepCliResult { matches, total_files, total_files_searched, files_with_matches }
}

/// Unless one file was asked for, every match counts.
pub proof fn law_every_match_counts(hits: Seq<GrepHit>, files: Seq<GrepFile>)
    ensures
        counted(hits, files, false) == hits,
    decreases hits.len(),
{
    reveal(Seq::filter);
    if hits.len() > 0 {
        law_every_match_counts(hits.drop_last(), files);
        assert(hits =~= hits.drop_last().push(hits.last()));
    }
}

/// Where one file was asked for, only matches in it count.
pub proof fn law_only_target_counts(hits: Seq<GrepHit>, files: Seq<GrepFile>)
    ensures
        forall|i: int|
            0 <= i < counted(hits, files, true).len() ==> {
                let hit = #[trigger] counted(hits, files, true)[i];
                files[hit.file_index as int].is_target && hits.contains(hit)
            },
        counted(hits, files, true).len() <= hits.len(),
    decreases hits.len(),
{
    reveal(Seq::filter);
    if hits.len() > 0 {
        let front = hits.drop_last();
        law_only_target_counts(front, files);
        assert forall|i: int| 0 <= i < counted(hits, files, true).len() implies {
            let hit = #[trigger] counted(hits, files, true)[i];
            files[hit.file_index as int].is_target && hits.contains(hit)
        } by {
            let hit = counted(hits, files, true)[i];
            if i < counted(front, files, true).len() {
                assert(hit == counted(front, files, true)[i]);
                let k = choose|k: int| 0 <= k < front.len() && front[k] == hit;
                assert(hits[k] == hit);
            } else {
                assert(hits[hits.len() - 1] == hit);
            }
        }
    }
}

/// Where one file was asked for, every entry of the result has its path, and
/// there is at most one file with matches.
pub proof fn law_target_has_one_path(
    hits: Seq<GrepHit>,
    files: Seq<GrepFile>,
    matches: Seq<GrepCliMatch>,
    path: Seq<char>,
)
    requires
        forall|i: int| 0 <= i < hits.len() ==> (#[trigger] hits[i]).file_index < files.len(),
        forall|i: int|
            0 <= i < files.len() && (#[trigger] files[i]).is_target ==> files[i].relative_path@
                == path,
        matches.len() == counted(hits, files, true).len(),
        forall|i: int|
            0 <= i < matches.len() ==> reports(
                #[trigger] matches[i],
                counted(hits, files, true)[i],
                files,
            ),
    ensures
        forall|i: int| 0 <= i < matches.len() ==> (#[trigger] matches[i]).path@ == path,
        paths_of(matches).to_set().len() <= 1,
{
    let kept = counted(hits, files, true);
    let paths = paths_of(matches);
    law_only_target_counts(hits, files);
    assert forall|i: int| 0 <= i < matches.len() implies (#[trigger] matches[i]).path@ == path by {
        let hit = kept[i];
        assert(hits.contains(hit));
        let k = choose|k: int| 0 <= k < hits.len() && hits[k] == hit;
        assert(hits[k].file_index < files.len());
        assert(files[hit.file_index as int].is_target);
    }
    assert forall|p: Seq<char>| paths.to_set().contains(p) implies set![path].contains(p) by {
        let k = choose|k: int| 0 <= k < paths.len() && paths[k] == p;
        assert(matches[k].path@ == path);
    }
    assert(set![path].len() == 1);
    vstd::set_lib::lemma_len_subset(paths.to_set(), set![path]);
}

/// There are no more files with matches than matches, and at least one where
/// there is a match.
pub proof fn law_files_with_matches_bounded(matches: Seq<GrepCliMatch>)
    ensures
        paths_of(matches).to_set().len() <= matches.len(),
        matches.len() > 0 ==> paths_of(matches).to_set().len() > 0,
{
    let paths = paths_of(matches);
    vstd::seq_lib::seq_to_set_is_finite(paths);
    paths.lemma_cardinality_of_set();
    if matches.len() > 0 {
        assert(paths.contains(paths[0]));
        assert(paths.to_set().contains(paths[0]));
        if paths.to_set().len() == 0 {
            assert(paths.to_set() =~= Set::empty());
        }
    }
}

/// A matching line as it is printed: path, line, column and text. Columns are
/// counted from one.
pub open spec fn match_line(
    path: Seq<char>,
    line_number: u64,
    col: usize,
    line_content: Seq<char>,
) -> Seq<char> {
    path + ":"@ + text::decimal(line_number as nat) + ":"@ + text::decimal((col + 1) as nat) + ":"@
        + line_content
}

/// A matching line as it is printed.
pub fn format_grep_match(path: &str, line_number: u64, col: usize, line_content: &str) -> (r: String)
    requires
        col < usize::MAX,
    ensures
        r@ == match_line(path@, line_number, col, line_content@),
{
    let mut r = path.to_owned();
    r.append(":");
    text::push_decimal(&mut r, line_number);
    r.append(":");
    text::push_decimal(&mut r, (col + 1) as u64);
    r.append(":");
    r.append(line_content);
    r
}

/// A line of context as it is printed: path, line and text.
pub open spec fn context_line(path: Seq<char>, line_number: u64, line_content: Seq<char>) -> Seq<
    char,
> {
    path + "-"@ + text::decimal(line_number as nat) + "-"@ + line_content
}

/// A line of context as it is printed.
pub fn format_grep_context(path: &str, line_number: u64, line_content: &str) -> (r: String)
    ensures
        r@ == context_line(path@, line_number, line_content@),
{
    let mut r = path.to_owned();
    r.append("-");
    text::push_decimal(&mut r, line_number);
    r.append("-");
    r.append(line_content);
    r
}

/// A line of context, in colors where they are wanted.
pub open spec fn context_text(
    path: Seq<char>,
    line_number: u64,
    line: Seq<char>,
    color: bool,
) -> Seq<char> {
    if color {
        YELLOW@ + text::decimal(line_number as nat) + "-"@ + RESET@ + GRAY@ + line + RESET@ + "\n"@
    } else {
        context_line(path, line_number, line) + "\n"@
    }
}

/// A matching line, in colors where they are wanted.
pub open spec fn match_text(item: GrepCliMatch, color: bool) -> Seq<char> {
    if color {
        YELLOW@ + BOLD@ + text::decimal(item.line_number as nat) + RESET@ + ":"@
            + ansi::grep_marked(item.line_content@, item.match_ranges@) + "\n"@
    } else {
        match_line(item.path@, item.line_number, item.col, item.line_content@) + "\n"@
    }
}

/// The number of the first line of context before a match.
pub open spec fn first_context_line(item: GrepCliMatch) -> int {
    if item.line_number < item.context_before@.len() {
        0
    } else {
        item.line_number - item.context_before@.len()
    }
}

/// The first lines of context before a match.
pub open spec fn before_text(item: GrepCliMatch, color: bool, count: nat) -> Seq<char>
    decreases count,
{
    if count == 0 {
        Seq::empty()
    } else {
        before_text(item, color, (count - 1) as nat) + context_text(
            item.path@,
            (first_context_line(item) + count - 1) as u64,
            item.context_before@[count - 1]@,
            color,
        )
    }
}

/// The first lines of context behind a match.
pub open spec fn after_text(item: GrepCliMatch, color: bool, count: nat) -> Seq<char>
    decreases count,
{
    if count == 0 {
        Seq::empty()
    } else {
        after_text(item, color, (count - 1) as nat) + context_text(
            item.path@,
            (item.line_number + count) as u64,
            item.context_after@[count - 1]@,
            color,
        )
    }
}

/// The heading over the matches of a file. It is left out where the match
/// before it is in the same file, and set off by an empty line from another.
pub open spec fn heading(previous: Option<Seq<char>>, path: Seq<char>, color: bool) -> Seq<char> {
    if previous == Some(path) {
        Seq::empty()
    } else {
        (if previous is Some {
            "\n"@
        } else {
            Seq::empty()
        }) + (if color {
            GREEN@ + BOLD@ + path + RESET@
        } else {
            path
        }) + "\n"@
    }
}

/// The path of the last match, if there is one.
pub open spec fn last_path(matches: Seq<GrepCliMatch>) -> Option<Seq<char>> {
    if matches.len() == 0 {
        None
    } else {
        Some(matches.last().path@)
    }
}

/// A match with its context and, where needed, the heading over it.
pub open spec fn entry_text(previous: Option<Seq<char>>, item: GrepCliMatch, color: bool) -> Seq<
    char,
> {
    heading(previous, item.path@, color) + before_text(item, color, item.context_before@.len())
        + match_text(item, color) + after_text(item, color, item.context_after@.len())
}

/// What is printed of a run.
pub open spec fn report(matches: Seq<GrepCliMatch>, color: bool) -> Seq<char>
    decreases matches.len(),
{
    if matches.len() == 0 {
        Seq::empty()
    } else {
        report(matches.drop_last(), color) + entry_text(
            last_path(matches.drop_last()),
            matches.last(),
            color,
        )
    }
}

/// Whether the line and column numbers of a match can be printed.
pub open spec fn is_printable(item: GrepCliMatch, color: bool) -> bool {
    &&& !color ==> item.col < usize::MAX
    &&& item.line_number + item.context_after@.len() <= u64::MAX
}

/// Prints a line of context.
fn print_context(out: &mut String, path: &str, line_number: u64, line: &str, color: bool)
    ensures
        final(out)@ == old(out)@ + context_text(path@, line_number, line@, color),
{
    if color {
        out.append(YELLOW);
        text::push_decimal(out, line_number);
        out.append("-");
        out.append(RESET);
        out.append(GRAY);
        out.append(line);
        out.append(RESET);
    } else {
        out.append(format_grep_context(path, line_number, line).as_str());
    }
    out.append("\n");
    assert(out@ =~= old(out)@ + context_text(path@, line_number, line@, color));
}

/// Prints a matching line.
fn print_match(out: &mut String, item: &GrepCliMatch, color: bool)
    requires
        is_printable(*item, color),
    ensures
        final(out)@ == old(out)@ + match_text(*item, color),
{
    if color {
        let content = highlight_grep_ranges(item.line_content.as_str(), &item.match_ranges, color);
        out.append(YELLOW);
        out.append(BOLD);
        text::push_decimal(out, item.line_number);
        out.append(RESET);
        out.append(":");
        out.append(content.as_str());
    } else {
        out.append(
            format_grep_match(
                item.path.as_str(),
                item.line_number,
                item.col,
                item.line_content.as_str(),
            ).as_str(),
        );
    }
    out.append("\n");
    assert(out@ =~= old(out)@ + match_text(*item, color));
}

/// The text of a path that may be missing.
spec fn path_view(path: Option<&str>) -> Option<Seq<char>> {
    match path {
        Some(p) => Some(p@),
        None => None,
    }
}

/// Prints the heading over the matches of a file.
fn print_heading(out: &mut String, previous: Option<&str>, path: &str, color: bool)
    ensures
        final(out)@ == old(out)@ + heading(path_view(previous), path@, color),
{
    let ghost before = path_view(previous);
    if let Some(p) = previous {
        if text::same_text(p, path) {
            assert(out@ =~= old(out)@ + heading(before, path@, color));
            return;
        }
        out.append("\n");
    }
    if color {
        out.append(GREEN);
        out.append(BOLD);
        out.append(path);
        out.append(RESET);
    } else {
        out.append(path);
    }
    out.append("\n");
    assert(out@ =~= old(out)@ + heading(before, path@, color));
}

/// Prints the lines of context before a match.
fn print_before(out: &mut String, item: &GrepCliMatch, color: bool)
    ensures
        final(out)@ == old(out)@ + before_text(*item, color, item.context_before@.len()),
{
    let n: usize = item.context_before.len();
    let first: u64 = item.line_number.saturating_sub(n as u64);
    let mut i: usize = 0;
    assert(out@ =~= old(out)@ + before_text(*item, color, 0));
    while i < n
        invariant
            n == item.context_before@.len(),
            first == first_context_line(*item),
            first + n <= u64::MAX,
            i <= n,
            out@ == old(out)@ + before_text(*item, color, i as nat),
        decreases n - i,
    {
        print_context(
            out,
            item.path.as_str(),
            first + i as u64,
            item.context_before[i].as_str(),
            color,
        );
        i = i + 1;
        assert(out@ =~= old(out)@ + before_text(*item, color, i as nat));
    }
}

/// Prints the lines of context behind a match.
fn print_after(out: &mut String, item: &GrepCliMatch, color: bool)
    requires
        is_printable(*item, color),
    ensures
        final(out)@ == old(out)@ + after_text(*item, color, item.context_after@.len()),
{
    let n: usize = item.context_after.len();
    let mut i: usize = 0;
    assert(out@ =~= old(out)@ + after_text(*item, color, 0));
    while i < n
        invariant
            is_printable(*item, color),
            n == item.context_after@.len(),
            i <= n,
            out@ == old(out)@ + after_text(*item, color, i as nat),
        decreases n - i,
    {
        print_context(
            out,
            item.path.as_str(),
            item.line_number + i as u64 + 1,
            item.context_after[i].as_str(),
            color,
        );
        i = i + 1;
        assert(out@ =~= old(out)@ + after_text(*item, color, i as nat));
    }
}

/// Prints a match with its context and, where needed, the heading over it.
fn print_entry(out: &mut String, previous: Option<&str>, item: &GrepCliMatch, color: bool)
    requires
        is_printable(*item, color),
    ensures
        final(out)@ == old(out)@ + entry_text(path_view(previous), *item, color),
{
    print_heading(out, previous, item.path.as_str(), color);
    print_before(out, item, color);
    print_match(out, item, color);
    print_after(out, item, color);
    assert(out@ =~= old(out)@ + entry_text(path_view(previous), *item, color));
}

/// What is printed of a run: the matches under a heading for each file, with
/// their context.
pub fn grep_report(matches: &Vec<GrepCliMatch>, color: bool) -> (r: String)
    requires
        forall|i: int| 0 <= i < matches@.len() ==> is_printable(#[trigger] matches@[i], color),
    ensures
        r@ == report(matches@, color),
{
    let mut out = String::new();
    let mut i: usize = 0;
    assert(out@ =~= report(matches@.take(0), color));
    while i < matches.len()
        invariant
            i <= matches@.len(),
            forall|k: int| 0 <= k < matches@.len() ==> is_printable(#[trigger] matches@[k], color),
            out@ == report(matches@.take(i as int), color),
        decreases matches@.len() - i,
    {
        let item = &matches[i];
        let previous: Option<&str> = if i == 0 {
            None
        } else {
            Some(matches[i - 1].path.as_str())
        };
        print_entry(&mut out, previous, item, color);
        assert(matches@.take(i + 1).drop_last() =~= matches@.take(i as int));
        i = i + 1;
    }
    assert(matches@.take(matches@.len() as int) =~= matches@);
    out
}

/// Whether the line and column numbers of every match can be printed.
pub open spec fn all_printable(matches: Seq<GrepCliMatch>, color: bool) -> bool {
    forall|i: int| 0 <= i < matches.len() ==> is_printable(#[trigger] matches[i], color)
}

/// Whether the line and column numbers of every match can be printed.
pub fn can_print(matches: &Vec<GrepCliMatch>, color: bool) -> (r: bool)
    ensures
        r == forall|i: int| 0 <= i < matches@.len() ==> is_printable(#[trigger] matches@[i], color),
        r == all_printable(matches@, color),
{
    let mut i: usize = 0;
    while i < matches.len()
        invariant
            i <= matches@.len(),
            forall|k: int| 0 <= k < i ==> is_printable(#[trigger] matches@[k], color),
        decreases matches@.len() - i,
    {
        let item = &matches[i];
        if (!color && item.col == usize::MAX) || item.context_after.len() as u64 > u64::MAX
            - item.line_number {
            assert(!is_printable(matches@[i as int], color));
            return false;
        }
        i = i + 1;
    }
    true
}

/// Consecutive matches in the same file stand under one heading: the second
/// adds its own lines and nothing else.
pub proof fn law_one_heading_for_a_file(matches: Seq<GrepCliMatch>, color: bool)
    requires
        matches.len() >= 2,
        matches[matches.len() - 1].path@ == matches[matches.len() - 2].path@,
    ensures
        ({
            let item = matches.last();
            report(matches, color) == report(matches.drop_last(), color) + before_text(
                item,
                color,
                item.context_before@.len(),
            ) + match_text(item, color) + after_text(item, color, item.context_after@.len())
        }),
{
    let item = matches.last();
    assert(report(matches, color) =~= report(matches.drop_last(), color) + before_text(
        item,
        color,
        item.context_before@.len(),
    ) + match_text(item, color) + after_text(item, color, item.context_after@.len()));
}

/// The lines of context before a match are numbered up to the line before it,
/// wherever the file has that many.
pub proof fn law_context_is_adjacent(item: GrepCliMatch)
    requires
        item.line_number >= item.context_before@.len(),
    ensures
        first_context_line(item) + item.context_before@.len() == item.line_number,
{
}

proof fn lemma_before_lines(item: GrepCliMatch, color: bool, printed: Seq<Seq<char>>)
    requires
        printed.len() <= item.context_before@.len(),
        forall|k: int|
            0 <= k < printed.len() ==> #[trigger] printed[k] == context_text(
                item.path@,
                (first_context_line(item) + k) as u64,
                item.context_before@[k]@,
                color,
            ),
    ensures
        before_text(item, color, printed.len()) == printed.flatten(),
    decreases printed.len(),
{
    if printed.len() == 0 {
        assert(before_text(item, color, 0) =~= printed.flatten());
    } else {
        let front = printed.drop_last();
        lemma_before_lines(item, color, front);
        assert(printed =~= front.push(printed.last()));
        front.lemma_flatten_push(printed.last());
        assert(printed[printed.len() - 1] == printed.last());
    }
}

proof fn lemma_after_lines(item: GrepCliMatch, color: bool, printed: Seq<Seq<char>>)
    requires
        printed.len() <= item.context_after@.len(),
        forall|k: int|
            0 <= k < printed.len() ==> #[trigger] printed[k] == context_text(
                item.path@,
                (item.line_number + k + 1) as u64,
                item.context_after@[k]@,
                color,
            ),
    ensures
        after_text(item, color, printed.len()) == printed.flatten(),
    decreases printed.len(),
{
    if printed.len() == 0 {
        assert(after_text(item, color, 0) =~= printed.flatten());
    } else {
        let front = printed.drop_last();
        lemma_after_lines(item, color, front);
        assert(printed =~= front.push(printed.last()));
        front.lemma_flatten_push(printed.last());
        assert(printed[printed.len() - 1] == printed.last());
    }
}

proof fn lemma_report_of_one(item: GrepCliMatch, color: bool)
    ensures
        report(seq![item], color) == entry_text(None, item, color),
{
    assert(seq![item].drop_last() =~= Seq::<GrepCliMatch>::empty());
    assert(report(Seq::<GrepCliMatch>::empty(), color) =~= Seq::<char>::empty());
    assert(report(seq![item], color) =~= entry_text(None, item, color));
}

/// The report of one match, without colors, is its path on a line of its own,
/// then the lines of context before it, the matching line and the lines of
/// context behind it, each with its path and its number. Columns are counted from
/// one, and the lines of context are numbered up to the match and on from it; a
/// number below zero is none.
pub proof fn law_plain_report_of_one_match(matches: &Vec<GrepCliMatch>, r: String)
    requires
        call_ensures(grep_report, (matches, false), r),
        matches@.len() == 1,
        matches@[0].line_number + matches@[0].context_after@.len() <= u64::MAX,
    ensures
        ({
            let item = matches@[0];
            let above = item.context_before@.len() as int;
            let first = if item.line_number < above {
                0
            } else {
                item.line_number - above
            };
            let context = |number: int, line: String|
                item.path@ + seq!['-'] + text::decimal(number as nat) + seq!['-'] + line@ + seq![
                    '\n',
                ];
            r@ == item.path@ + seq!['\n'] + Seq::new(
                item.context_before@.len(),
                |k: int| context(first + k, item.context_before@[k]),
            ).flatten() + (item.path@ + seq![':'] + text::decimal(item.line_number as nat) + seq![
                ':',
            ] + text::decimal((item.col + 1) as nat) + seq![':'] + item.line_content@ + seq!['\n'])
                + Seq::new(
                item.context_after@.len(),
                |k: int| context(item.line_number + k + 1, item.context_after@[k]),
            ).flatten()
        }),
{
    let item = matches@[0];
    let above = item.context_before@.len() as int;
    let first = if item.line_number < above {
        0
    } else {
        item.line_number - above
    };
    let context = |number: int, line: String|
        item.path@ + seq!['-'] + text::decimal(number as nat) + seq!['-'] + line@ + seq!['\n'];
    reveal_strlit("-");
    reveal_strlit(":");
    reveal_strlit("\n");
    assert("-"@ =~= seq!['-']);
    assert(":"@ =~= seq![':']);
    assert("\n"@ =~= seq!['\n']);
    let before = Seq::new(
        item.context_before@.len(),
        |k: int| context(first + k, item.context_before@[k]),
    );
    let after = Seq::new(
        item.context_after@.len(),
        |k: int| context(item.line_number + k + 1, item.context_after@[k]),
    );
    assert(item.context_before@.len() == item.context_before.len());
    lemma_before_lines(item, false, before);
    lemma_after_lines(item, false, after);
    lemma_report_of_one(item, false);
    assert(matches@ =~= seq![item]);
    assert(heading(None, item.path@, false) =~= item.path@ + seq!['\n']);
}

/// In colors the path is green and bold, the numbers are yellow, those of a match
/// bold, and the lines of context gray. Only the heading names the path. The
/// matching line has its matches marked.
pub proof fn law_colored_report_of_one_match(
    matches: &Vec<GrepCliMatch>,
    r: String,
    line: &str,
    ranges: &Vec<(usize, usize)>,
    content: String,
)
    requires
        call_ensures(grep_report, (matches, true), r),
        matches@.len() == 1,
        matches@[0].line_number + matches@[0].context_after@.len() <= u64::MAX,
        line@ == matches@[0].line_content@,
        ranges@ == matches@[0].match_ranges@,
        call_ensures(highlight_grep_ranges, (line, ranges, true), content),
    ensures
        ({
            let item = matches@[0];
            let above = item.context_before@.len() as int;
            let first = if item.line_number < above {
                0
            } else {
                item.line_number - above
            };
            let context = |number: int, line: String|
                "\x1b[33m"@ + text::decimal(number as nat) + seq!['-'] + "\x1b[0m"@
                    + "\x1b[38;5;244m"@ + line@ + "\x1b[0m"@ + seq!['\n'];
            r@ == "\x1b[32m"@ + "\x1b[1m"@ + item.path@ + "\x1b[0m"@ + seq!['\n'] + Seq::new(
                item.context_before@.len(),
                |k: int| context(first + k, item.context_before@[k]),
            ).flatten() + ("\x1b[33m"@ + "\x1b[1m"@ + text::decimal(item.line_number as nat)
                + "\x1b[0m"@ + seq![':'] + content@ + seq!['\n']) + Seq::new(
                item.context_after@.len(),
                |k: int| context(item.line_number + k + 1, item.context_after@[k]),
            ).flatten()
        }),
{
    let item = matches@[0];
    let above = item.context_before@.len() as int;
    let first = if item.line_number < above {
        0
    } else {
        item.line_number - above
    };
    let context = |number: int, line: String|
        "\x1b[33m"@ + text::decimal(number as nat) + seq!['-'] + "\x1b[0m"@ + "\x1b[38;5;244m"@
            + line@ + "\x1b[0m"@ + seq!['\n'];
    reveal_strlit("-");
    reveal_strlit(":");
    reveal_strlit("\n");
    assert("-"@ =~= seq!['-']);
    assert(":"@ =~= seq![':']);
    assert("\n"@ =~= seq!['\n']);
    let before = Seq::new(
        item.context_before@.len(),
        |k: int| context(first + k, item.context_before@[k]),
    );
    let after = Seq::new(
        item.context_after@.len(),
        |k: int| context(item.line_number + k + 1, item.context_after@[k]),
    );
    assert(item.context_before@.len() == item.context_before.len());
    lemma_before_lines(item, true, before);
    lemma_after_lines(item, true, after);
    lemma_report_of_one(item, true);
    assert(matches@ =~= seq![item]);
    assert(heading(None, item.path@, true) =~= "\x1b[32m"@ + "\x1b[1m"@ + item.path@ + "\x1b[0m"@
        + seq!['\n']);
}

/// The lines of a match without the heading over it.
spec fn own_text(item: GrepCliMatch, color: bool) -> Seq<char> {
    before_text(item, color, item.context_before@.len()) + match_text(item, color) + after_text(
        item,
        color,
        item.context_after@.len(),
    )
}

proof fn lemma_entry_text(previous: Option<Seq<char>>, item: GrepCliMatch, color: bool)
    ensures
        entry_text(previous, item, color) == heading(previous, item.path@, color) + own_text(
            item,
            color,
        ),
{
    assert(entry_text(previous, item, color) =~= heading(previous, item.path@, color) + own_text(
        item,
        color,
    ));
}

proof fn lemma_heading_text(path: Seq<char>, color: bool)
    ensures
        ({
            let head = if color {
                "\x1b[32m"@ + "\x1b[1m"@ + path + "\x1b[0m"@ + seq!['\n']
            } else {
                path + seq!['\n']
            };
            &&& heading(None, path, color) == head
            &&& forall|other: Seq<char>|
                other != path ==> #[trigger] heading(Some(other), path, color) == seq!['\n'] + head
            &&& heading(Some(path), path, color).len() == 0
        }),
{
    reveal_strlit("\n");
    assert("\n"@ =~= seq!['\n']);
    let head = if color {
        "\x1b[32m"@ + "\x1b[1m"@ + path + "\x1b[0m"@ + seq!['\n']
    } else {
        path + seq!['\n']
    };
    assert(heading(None, path, color) =~= head);
    assert forall|other: Seq<char>| other != path implies #[trigger] heading(
        Some(other),
        path,
        color,
    ) == seq!['\n'] + head by {
        assert(heading(Some(other), path, color) =~= seq!['\n'] + head);
    }
}

/// One more match is printed behind the report of those before it. Where its path
/// differs from that of the match before, an empty line, the path as a heading and
/// its own lines follow; where it is the same path, its own lines alone. Its own
/// lines are those under the heading of a report that holds nothing else.
pub proof fn law_each_file_has_its_heading(
    before: &Vec<GrepCliMatch>,
    one: &Vec<GrepCliMatch>,
    all: &Vec<GrepCliMatch>,
    color: bool,
    report_before: String,
    report_one: String,
    report_all: String,
)
    requires
        call_ensures(grep_report, (before, color), report_before),
        call_ensures(grep_report, (one, color), report_one),
        call_ensures(grep_report, (all, color), report_all),
        before@.len() > 0,
        one@.len() == 1,
        all@ == before@ + one@,
    ensures
        ({
            let path = one@[0].path@;
            let heading = if color {
                "\x1b[32m"@ + "\x1b[1m"@ + path + "\x1b[0m"@ + seq!['\n']
            } else {
                path + seq!['\n']
            };
            let own = report_one@.skip(heading.len() as int);
            &&& report_one@ == heading + own
            &&& before@.last().path@ != path ==> report_all@ == report_before@ + seq!['\n']
                + heading + own
            &&& before@.last().path@ == path ==> report_all@ == report_before@ + own
        }),
{
    let item = one@[0];
    let path = item.path@;
    let head = heading(None, path, color);
    let own = own_text(item, color);
    let previous = before@.last().path@;
    lemma_heading_text(path, color);
    lemma_report_of_one(item, color);
    lemma_entry_text(None, item, color);
    lemma_entry_text(Some(previous), item, color);
    assert(one@ =~= seq![item]);
    assert(report_one@ == head + own);
    assert(report_one@.skip(head.len() as int) =~= own);
    assert(all@.drop_last() =~= before@);
    assert(all@.last() == item);
    assert(report_all@ == report_before@ + (heading(Some(previous), path, color) + own));
    if previous == path {
        assert(report_all@ =~= report_before@ + own);
    } else {
        assert(report_all@ =~= report_before@ + seq!['\n'] + head + own);
    }
}

/// The report of no matches is empty.
pub proof fn law_nothing_is_reported_of_no_matches(
    matches: &Vec<GrepCliMatch>,
    color: bool,
    r: String,
)
    requires
        call_ensures(grep_report, (matches, color), r),
        matches@.len() == 0,
    ensures
        r@.len() == 0,
{
}

/// A matching line names its path, its number and its column, counted from one,
/// each with a colon behind it; a line of context its path and its number, each
/// with a dash.
pub proof fn law_lines_name_path_and_number(
    path: &str,
    line_number: u64,
    col: usize,
    line: &str,
    matching: String,
    context: String,
)
    requires
        call_ensures(format_grep_match, (path, line_number, col, line), matching),
        call_ensures(format_grep_context, (path, line_number, line), context),
    ensures
        matching@ == path@ + seq![':'] + text::decimal(line_number as nat) + seq![':']
            + text::decimal((col + 1) as nat) + seq![':'] + line@,
        context@ == path@ + seq!['-'] + text::decimal(line_number as nat) + seq!['-'] + line@,
{
    reveal_strlit("-");
    reveal_strlit(":");
    assert("-"@ =~= seq!['-']);
    assert(":"@ =~= seq![':']);
}

/// The result has an entry for each match, in order, with the path of its file
/// and its own lines. Where one file was asked for, it has those of that file
/// alone. The files with matches are the different paths of the entries.
pub proof fn law_result_has_the_matches_in_order(
    hits: Vec<GrepHit>,
    files: &Vec<GrepFile>,
    only_target: bool,
    total_files: usize,
    total_files_searched: usize,
    r: GrepCliResult,
)
    requires
        call_ensures(
            grep_cli_result,
            (hits, files, only_target, total_files, total_files_searched),
            r,
        ),
    ensures
        ({
            let kept = hits@.filter(
                |hit: GrepHit| !only_target || files@[hit.file_index as int].is_target,
            );
            &&& r.matches@.len() == kept.len()
            &&& forall|i: int|
                0 <= i < kept.len() ==> {
                    let entry = #[trigger] r.matches@[i];
                    &&& entry.path@ == files@[kept[i].file_index as int].relative_path@
                    &&& entry.line_number == kept[i].line_number
                    &&& entry.col == kept[i].col
                    &&& entry.line_content@ == kept[i].line_content@
                    &&& entry.context_before@ == kept[i].context_before@
                    &&& entry.context_after@ == kept[i].context_after@
                    &&& entry.match_ranges@.len() == kept[i].match_byte_offsets@.len()
                    &&& forall|k: int|
                        0 <= k < entry.match_ranges@.len() ==> (#[trigger] entry.match_ranges@[k]).0
                            == kept[i].match_byte_offsets@[k].0 && entry.match_ranges@[k].1
                            == kept[i].match_byte_offsets@[k].1
                }
        }),
        r.files_with_matches == Set::new(
            |path: Seq<char>|
                exists|i: int| 0 <= i < r.matches@.len() && (#[trigger] r.matches@[i]).path@ == path,
        ).len(),
        r.total_files == total_files,
        r.total_files_searched == total_files_searched,
{
    let named = Set::new(
        |path: Seq<char>|
            exists|i: int| 0 <= i < r.matches@.len() && (#[trigger] r.matches@[i]).path@ == path,
    );
    let paths = paths_of(r.matches@);
    assert forall|path: Seq<char>| paths.to_set().contains(path) <==> named.contains(path) by {
        if paths.to_set().contains(path) {
            let k = choose|k: int| 0 <= k < paths.len() && paths[k] == path;
            assert(r.matches@[k].path@ == path);
        }
        if named.contains(path) {
            let k = choose|k: int|
                0 <= k < r.matches@.len() && (#[trigger] r.matches@[k]).path@ == path;
            assert(paths[k] == path);
        }
    }
    assert(paths.to_set() =~= named);
    assert((|hit: GrepHit| !only_target || files@[hit.file_index as int].is_target) =~= (
    |hit: GrepHit| counts(hit, files@, only_target)));
}

/// A run is asked for what the command line says. Lines of context are those
/// asked for on their own side, else those asked for on both, else none; files
/// over ten mebibytes are not searched.
pub proof fn law_options_are_those_of_the_command_line(
    query: String,
    path: PathBuf,
    fixed_strings: bool,
    fuzzy: bool,
    context: Option<usize>,
    before_context: Option<usize>,
    after_context: Option<usize>,
    max_matches_per_file: usize,
    page_limit: usize,
    smart_case: bool,
    r: GrepCliOptions,
)
    requires
        call_ensures(
            grep_options,
            (
                query,
                path,
                fixed_strings,
                fuzzy,
                context,
                before_context,
                after_context,
                max_matches_per_file,
                page_limit,
                smart_case,
            ),
            r,
        ),
    ensures
        r.base_path == path,
        r.query@ == query@,
        before_context matches Some(lines) ==> r.before_context == lines,
        before_context is None && context is Some ==> context == Some(r.before_context),
        before_context is None && context is None ==> r.before_context == 0,
        after_context matches Some(lines) ==> r.after_context == lines,
        after_context is None && context is Some ==> context == Some(r.after_context),
        after_context is None && context is None ==> r.after_context == 0,
        r.max_file_size == 10 * 1024 * 1024,
        r.max_matches_per_file == max_matches_per_file,
        r.page_limit == page_limit,
        r.smart_case == smart_case,
        fuzzy ==> r.mode is Fuzzy,
        !fuzzy && fixed_strings ==> r.mode is PlainText,
        !fuzzy && !fixed_strings ==> r.mode is Regex,
{
}

/// A pattern is fuzzy where that is asked for, whatever else is; a fixed text
/// where only that is; and a regular expression otherwise.
pub proof fn law_fuzzy_comes_before_fixed_strings(
    fixed_strings: bool,
    fuzzy: bool,
    r: GrepCliMode,
)
    requires
        call_ensures(grep_cli_mode, (fixed_strings, fuzzy), r),
    ensures
        r is Fuzzy <==> fuzzy,
        r is PlainText <==> fixed_strings && !fuzzy,
{
}

/// The search is told what the run was asked, from the first file on, without a
/// limit of time, and to hand the lines back as they stand.
pub proof fn law_settings_are_those_of_the_options(options: &GrepCliOptions, r: GrepSettings)
    requires
        call_ensures(grep_search_settings, (options,), r),
    ensures
        r.max_file_size == options.max_file_size,
        r.max_matches_per_file == options.max_matches_per_file,
        r.page_limit == options.page_limit,
        r.smart_case == options.smart_case,
        r.mode == options.mode,
        r.before_context == options.before_context,
        r.after_context == options.after_context,
        r.file_offset == 0 && r.time_budget_ms == 0,
        !r.classify_definitions && !r.trim_whitespace,
{
}

/// A directory is searched itself. For a file the directory around it is, and
/// the file is the target; a file without one cannot be searched.
pub proof fn law_file_is_searched_in_its_directory(
    path: PathBuf,
    is_file: bool,
    parent: Option<PathBuf>,
    r: Result<(PathBuf, Option<PathBuf>), MissingParent>,
)
    requires
        call_ensures(search_root, (path, is_file, parent), r),
    ensures
        !is_file ==> r is Ok && r->Ok_0.0 == path && r->Ok_0.1 is None,
        is_file && parent is Some ==> r is Ok && Some(r->Ok_0.0) == parent && r->Ok_0.1 == Some(
            path,
        ),
        is_file && parent is None ==> r is Err,
{
}

/// A report can be printed unless a number in it would be too large: that of a
/// line of context behind a match, or, without colors, that of a column.
pub proof fn law_only_large_numbers_cannot_be_printed(
    matches: &Vec<GrepCliMatch>,
    color: bool,
    r: bool,
)
    requires
        call_ensures(can_print, (matches, color), r),
    ensures
        r <==> forall|i: int|
            0 <= i < matches@.len() ==> (#[trigger] matches@[i]).line_number
                + matches@[i].context_after@.len() <= u64::MAX && (color || matches@[i].col
                < usize::MAX),
{
    if r {
        assert forall|i: int| 0 <= i < matches@.len() implies (#[trigger] matches@[i]).line_number
            + matches@[i].context_after@.len() <= u64::MAX && (color || matches@[i].col
            < usize::MAX) by {
            assert(is_printable(matches@[i], color));
        }
    }
}

} // verus!
