//! Text statistics and the processing of a command over the input lines.
use vstd::prelude::*;

use crate::commands::Command;
use crate::error::ProcessError;
use crate::text;

verus! {

broadcast use vstd::seq_lib::group_seq_properties;

/// The words of all lines, line after line.
pub open spec fn all_words(lines: Seq<Seq<char>>) -> Seq<Seq<char>>
    decreases lines.len(),
{
    if lines.len() == 0 {
        seq![]
    } else {
        all_words(lines.drop_last()) + text::words(lines.last())
    }
}

/// The total number of characters in a sequence of words (or lines).
pub open spec fn chars_in(ws: Seq<Seq<char>>) -> nat
    decreases ws.len(),
{
    if ws.len() == 0 {
        0
    } else {
        chars_in(ws.drop_last()) + ws.last().len()
    }
}

/// General statistics about a text.
#[derive(Debug)]
pub struct Stats {
    /// The number of lines.
    pub line_count: usize,
    /// The number of white-space separated words.
    pub word_count: usize,
    /// The number of characters in the words (white space not counted).
    pub char_count: usize,
    /// The number of distinct words.
    pub unique_words: usize,
}

/// Something that can report its results as text.
pub trait Results {
    /// The report of the results.
    fn print_results(&self) -> String;
}

proof fn lemma_chars_in_concat(a: Seq<Seq<char>>, b: Seq<Seq<char>>)
    ensures
        chars_in(a + b) == chars_in(a) + chars_in(b),
    decreases b.len(),
{
    if b.len() > 0 {
        lemma_chars_in_concat(a, b.drop_last());
        assert((a + b).drop_last() =~= a + b.drop_last());
    }
}

/// Every word that the scan completed or is reading is free of white space,
/// the completed words are non-empty, and together they are no longer than `s`.
proof fn lemma_words_scan(s: Seq<char>)
    ensures
        ({
            let (done, cur) = text::words_scan(s);
            &&& chars_in(done) + cur.len() <= s.len()
            &&& done.len() <= chars_in(done)
            &&& forall|k: int| 0 <= k < done.len() ==> #[trigger] done[k].len() > 0
            &&& forall|k: int, m: int|
                0 <= k < done.len() && 0 <= m < done[k].len() ==> !text::is_white(
                    #[trigger] done[k][m],
                )
            &&& forall|m: int| 0 <= m < cur.len() ==> !text::is_white(#[trigger] cur[m])
        }),
    decreases s.len(),
{
    if s.len() > 0 {
        lemma_words_scan(s.drop_last());
        let (done, cur) = text::words_scan(s.drop_last());
        if text::is_white(s.last()) && cur.len() > 0 {
            assert(done.push(cur).drop_last() =~= done);
        }
    }
}

/// The words of `s` are non-empty, hold no white space, and hold no more
/// characters than `s`.
pub proof fn lemma_words_props(s: Seq<char>)
    ensures
        text::words(s).len() <= chars_in(text::words(s)),
        chars_in(text::words(s)) <= s.len(),
        forall|k: int| 0 <= k < text::words(s).len() ==> #[trigger] text::words(s)[k].len() > 0,
        forall|k: int, m: int|
            0 <= k < text::words(s).len() && 0 <= m < text::words(s)[k].len() ==> !text::is_white(
                #[trigger] text::words(s)[k][m],
            ),
{
    lemma_words_scan(s);
    let (done, cur) = text::words_scan(s);
    if cur.len() > 0 {
        assert(done.push(cur).drop_last() =~= done);
    }
}

proof fn lemma_chars_in_is_concat_len(ws: Seq<Seq<char>>)
    ensures
        chars_in(ws) == text::concat_words(ws).len(),
    decreases ws.len(),
{
    if ws.len() > 0 {
        lemma_chars_in_is_concat_len(ws.drop_last());
    }
}

/// The number of characters of `lines` that are not white space.
pub open spec fn non_white_in(lines: Seq<Seq<char>>) -> nat
    decreases lines.len(),
{
    if lines.len() == 0 {
        0
    } else {
        non_white_in(lines.drop_last()) + text::non_white(lines.last()).len()
    }
}

/// The number of runs of non-white-space characters in `lines`, each line
/// counted on its own.
pub open spec fn runs_in(lines: Seq<Seq<char>>) -> nat
    decreases lines.len(),
{
    if lines.len() == 0 {
        0
    } else {
        runs_in(lines.drop_last()) + text::run_starts(lines.last())
    }
}

/// What the statistics count: one word for each run of non-white-space
/// characters in a line, and as word characters exactly the characters of
/// the lines that are not white space.
pub proof fn lemma_word_counts_are_runs_and_non_white(lines: Seq<Seq<char>>)
    ensures
        all_words(lines).len() == runs_in(lines),
        chars_in(all_words(lines)) == non_white_in(lines),
    decreases lines.len(),
{
    if lines.len() > 0 {
        lemma_word_counts_are_runs_and_non_white(lines.drop_last());
        let l = lines.last();
        text::lemma_words_are_the_runs(l);
        lemma_chars_in_is_concat_len(text::words(l));
        lemma_chars_in_concat(all_words(lines.drop_last()), text::words(l));
    }
}

proof fn lemma_chars_in_prefix(lines: Seq<Seq<char>>, i: int)
    requires
        0 <= i <= lines.len(),
    ensures
        chars_in(lines.take(i)) <= chars_in(lines),
    decreases lines.len() - i,
{
    if i < lines.len() {
        lemma_chars_in_prefix(lines, i + 1);
        assert(lines.take(i + 1).drop_last() =~= lines.take(i));
    } else {
        assert(lines.take(i) =~= lines);
    }
}

/// Copies a character vector.
fn copy_chars(v: &Vec<char>) -> (r: Vec<char>)
    ensures
        r@ == v@,
{
    let mut r: Vec<char> = Vec::new();
    let mut i: usize = 0;
    while i < v.len()
        invariant
            i <= v.len(),
            r@ == v@.take(i as int),
        decreases v.len() - i,
    {
        r.push(v[i]);
        i = i + 1;
    }
    assert(v@.take(v.len() as int) =~= v@);
    r
}

/// Whether `w` is among the words of `ws`.
fn contains_word(ws: &Vec<Vec<char>>, w: &Vec<char>) -> (r: bool)
    ensures
        r == text::views(ws@).contains(w@),
{
    let mut i: usize = 0;
    while i < ws.len()
        invariant
            i <= ws.len(),
            forall|j: int| 0 <= j < i ==> ws@[j]@ != w@,
        decreases ws.len() - i,
    {
        if text::chars_eq(&ws[i], w) {
            assert(text::views(ws@)[i as int] == w@);
            return true;
        }
        i = i + 1;
    }
    assert forall|j: int| 0 <= j < text::views(ws@).len() implies text::views(ws@)[j] != w@ by {
        assert(text::views(ws@)[j] == ws@[j]@);
    }
    false
}

/// The views of a slice of strings.
pub open spec fn lines_view(text: Seq<String>) -> Seq<Seq<char>> {
    text.map_values(|s: String| s@)
}

impl Stats {
    /// Counts the lines, words, word characters and distinct words of `text`.
    pub fn new(text: &[String]) -> (r: Self)
        requires
            chars_in(lines_view(text@)) <= usize::MAX,
        ensures
            r.line_count == text@.len(),
            r.word_count == all_words(lines_view(text@)).len(),
            r.char_count == chars_in(all_words(lines_view(text@))),
            r.unique_words == all_words(lines_view(text@)).to_set().len(),
            r.word_count == runs_in(lines_view(text@)),
            r.char_count == non_white_in(lines_view(text@)),
    {
        let ghost lv = lines_view(text@);
        let mut word_count: usize = 0;
        let mut char_count: usize = 0;
        // The distinct words seen so far, each kept once.
        let mut distinct: Vec<Vec<char>> = Vec::new();
        let mut i: usize = 0;
        assert(lv.take(0) =~= Seq::<Seq<char>>::empty());
        while i < text.len()
            invariant
                lv == lines_view(text@),
                chars_in(lv) <= usize::MAX,
                i <= text.len(),
                word_count == all_words(lv.take(i as int)).len(),
                char_count == chars_in(all_words(lv.take(i as int))),
                word_count <= char_count,
                char_count <= chars_in(lv.take(i as int)),
                text::views(distinct@).no_duplicates(),
                text::views(distinct@).to_set() == all_words(lv.take(i as int)).to_set(),
            decreases text.len() - i,
        {
            let line: &str = text[i].as_str();
            let ws = text::split_words(line);
            let ghost line_v = line@;
            let ghost before = all_words(lv.take(i as int));
            let ghost wv = text::views(ws@);
            assert(lv[i as int] == line_v);
            proof {
                lemma_words_props(line_v);
                lemma_chars_in_prefix(lv, i + 1);
                assert(lv.take(i + 1).drop_last() =~= lv.take(i as int));
                assert(lv.take(i + 1).last() == line_v);
            }
            let mut j: usize = 0;
            assert(before + wv.take(0) =~= before);
            while j < ws.len()
                invariant
                    lv == lines_view(text@),
                    chars_in(lv) <= usize::MAX,
                    i < text.len(),
                    j <= ws.len(),
                    wv == text::views(ws@),
                    wv == text::words(line_v),
                    before == all_words(lv.take(i as int)),
                    chars_in(before) + chars_in(wv) <= chars_in(lv.take(i + 1)),
                    chars_in(lv.take(i + 1)) <= chars_in(lv),
                    wv.len() <= chars_in(wv),
                    forall|k: int| 0 <= k < wv.len() ==> #[trigger] wv[k].len() > 0,
                    word_count == (before + wv.take(j as int)).len(),
                    char_count == chars_in(before + wv.take(j as int)),
                    word_count <= char_count,
                    text::views(distinct@).no_duplicates(),
                    text::views(distinct@).to_set() == (before + wv.take(j as int)).to_set(),
                decreases ws.len() - j,
            {
                let w = &ws[j];
                assert(wv[j as int] == w@);
                let ghost cur = before + wv.take(j as int);
                assert(before + wv.take(j + 1) =~= cur.push(w@));
                proof {
                    lemma_chars_in_concat(before, wv.take(j + 1));
                    lemma_chars_in_concat(wv.take(j + 1), wv.skip(j + 1));
                    assert(wv.take(j + 1) + wv.skip(j + 1) =~= wv);
                    assert(cur.push(w@).drop_last() =~= cur);
                }
                word_count = word_count + 1;
                char_count = char_count + w.len();
                if !contains_word(&distinct, w) {
                    let copy = copy_chars(w);
                    let ghost old_d = text::views(distinct@);
                    distinct.push(copy);
                    assert(text::views(distinct@) =~= old_d.push(w@));
                    assert(old_d.push(w@).to_set() =~= old_d.to_set().insert(w@));
                    assert(cur.push(w@).to_set() =~= cur.to_set().insert(w@));
                } else {
                    assert(cur.push(w@).to_set() =~= cur.to_set());
                }
                j = j + 1;
            }
            assert(wv.take(ws.len() as int) =~= wv);
            proof {
                lemma_chars_in_concat(before, wv);
            }
            assert(all_words(lv.take(i + 1)) =~= before + wv);
            i = i + 1;
        }
        assert(lv.take(text.len() as int) =~= lv);
        proof {
            text::views(distinct@).unique_seq_to_set();
            lemma_word_counts_are_runs_and_non_white(lv);
        }
        Stats {
            line_count: text.len(),
            word_count,
            char_count,
            unique_words: distinct.len(),
        }
    }
}


/// The report of a `Stats`, one figure per line.
pub open spec fn stats_text(s: Stats) -> Seq<char> {
    "Lines: "@ + text::decimal(s.line_count as nat) + "\nWords: "@ + text::decimal(
        s.word_count as nat,
    ) + "\nCharacters: "@ + text::decimal(s.char_count as nat) + "\nUnique words: "@
        + text::decimal(s.unique_words as nat)
}

impl Results for Stats {
    fn print_results(&self) -> (r: String)
        ensures
            r@ == stats_text(*self),
    {
        let mut r = String::from_str("Lines: ");
        let n = text::usize_to_string(self.line_count);
        r.append(n.as_str());
        r.append("\nWords: ");
        let n = text::usize_to_string(self.word_count);
        r.append(n.as_str());
        r.append("\nCharacters: ");
        let n = text::usize_to_string(self.char_count);
        r.append(n.as_str());
        r.append("\nUnique words: ");
        let n = text::usize_to_string(self.unique_words);
        r.append(n.as_str());
        r
    }
}

/// Every word of the text is counted once among the words, a word holds at
/// least one character, and the words hold no more characters than the lines:
/// `unique_words <= word_count <= char_count <= ` the characters of the text.
pub proof fn lemma_stats_counts_ordered(lines: Seq<Seq<char>>)
    ensures
        all_words(lines).to_set().len() <= all_words(lines).len(),
        all_words(lines).len() <= chars_in(all_words(lines)),
        chars_in(all_words(lines)) <= chars_in(lines),
    decreases lines.len(),
{
    all_words(lines).lemma_cardinality_of_set();
    if lines.len() > 0 {
        lemma_stats_counts_ordered(lines.drop_last());
        lemma_words_props(lines.last());
        lemma_chars_in_concat(all_words(lines.drop_last()), text::words(lines.last()));
    }
}

/// The report that processing the lines with the statistics command gives:
/// the statistics, preceded by the file name when there is one.
pub open spec fn stats_report(file_name: Option<Seq<char>>, lines: Seq<Seq<char>>) -> Seq<char> {
    let stats = stats_text(
        Stats {
            line_count: lines.len() as usize,
            word_count: all_words(lines).len() as usize,
            char_count: chars_in(all_words(lines)) as usize,
            unique_words: all_words(lines).to_set().len() as usize,
        },
    );
    match file_name {
        Some(f) => "File: "@ + f + "\n"@ + stats,
        None => stats,
    }
}

/// Runs `command` over the lines of the input. Only the statistics command
/// is carried out; an input without lines is refused.
pub fn process_lines(file_name: Option<&str>, text: &Vec<String>, command: &Command) -> (r: Result<
    String,
    ProcessError,
>)
    requires
        chars_in(lines_view(text@)) <= usize::MAX,
        text@.len() == 0 || command.cmd is Stats,
    ensures
        text@.len() == 0 <==> r matches Err(ProcessError::NoText),
        r matches Ok(out) ==> out@ == stats_report(
            match file_name {
                Some(f) => Some(f@),
                None => None,
            },
            lines_view(text@),
        ),
        r is Err ==> r matches Err(ProcessError::NoText),
{
    if text.len() == 0 {
        return Err(ProcessError::NoText);
    }
    let stats = Stats::new(text.as_slice());
    let report = stats.print_results();
    proof {
        lemma_stats_counts_ordered(lines_view(text@));
    }
    // Only the statistics command reaches this point (see `requires`).
    match file_name {
        Some(f) => {
            let mut out = String::from_str("File: ");
            out.append(f);
            out.append("\n");
            out.append(report.as_str());
            Ok(out)
        },
        None => Ok(report),
    }
}

/// The completed lines of a scan and the line it is reading hold no more
/// characters than the text scanned.
proof fn lemma_lines_scan_chars(s: Seq<char>)
    ensures
        chars_in(text::lines_scan(s).0) + text::lines_scan(s).1.len() <= s.len(),
    decreases s.len(),
{
    if s.len() > 0 {
        lemma_lines_scan_chars(s.drop_last());
        let (done, cur) = text::lines_scan(s.drop_last());
        assert(done.push(cur).drop_last() =~= done);
    }
}

/// Trimming every line of `lines` leaves no more characters than it had.
proof fn lemma_chars_in_trimmed(lines: Seq<Seq<char>>)
    ensures
        chars_in(lines.map_values(|l: Seq<char>| text::trim(l))) <= chars_in(lines),
    decreases lines.len(),
{
    if lines.len() > 0 {
        lemma_chars_in_trimmed(lines.drop_last());
        let trimmed = lines.map_values(|l: Seq<char>| text::trim(l));
        assert(trimmed.drop_last() =~= lines.drop_last().map_values(|l: Seq<char>| text::trim(l)));
        text::lemma_trim_len(lines.last());
    }
}

/// The trimmed lines of a text hold no more characters than the text.
proof fn lemma_trimmed_lines_chars(s: Seq<char>)
    ensures
        chars_in(text::trimmed_lines(s)) <= s.len(),
{
    lemma_lines_scan_chars(s);
    let (done, cur) = text::lines_scan(s);
    assert(done.push(cur).drop_last() =~= done);
    lemma_chars_in_trimmed(text::lines(s));
}

/// Runs `command` over the lines of a file's contents, each trimmed. Only the
/// statistics command is carried out; contents without lines are refused.
pub fn process_contents(file_name: Option<&str>, contents: &str, command: &Command) -> (r: Result<
    String,
    ProcessError,
>)
    requires
        text::trimmed_lines(contents@).len() == 0 || command.cmd is Stats,
    ensures
        text::trimmed_lines(contents@).len() == 0 <==> r matches Err(ProcessError::NoText),
        r matches Ok(out) ==> out@ == stats_report(
            match file_name {
                Some(f) => Some(f@),
                None => None,
            },
            text::trimmed_lines(contents@),
        ),
        r is Err ==> r matches Err(ProcessError::NoText),
{
    let lines = text::file_lines(contents);
    proof {
        assert(lines_view(lines@) == text::trimmed_lines(contents@));
        lemma_trimmed_lines_chars(contents@);
    }
    process_lines(file_name, &lines, command)
}

} // verus!
