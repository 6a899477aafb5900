//! The verdict on a pair of lines, the text that reports it, and the walk
//! over two texts.

use vstd::prelude::*;
use vstd::string::StringExecFns;
use vstd::utf8::encode_utf8_decode_utf8;
use crate::engine::{
    byte_len, is_lcs_table, lcs, lcs_len_full_means_equal, lcs_len_reflexive, lcs_len_symmetric,
    lines_fit, lowercase, lowered_bytes, table_cell, table_fits,
};
use crate::matrix::{Grid, Matrix, MatrixResult};

verus! {

/// What the comparison of an old and a new line found.
#[derive(Debug, PartialEq, Eq)]
pub enum Verdict {
    /// The lines are the same; holds the new line.
    Unchanged(String),
    /// The lines differ; holds the old line, then the new one.
    Changed(String, String),
}

/// A [`Verdict`] over sequences of characters.
pub enum Outcome {
    Unchanged(Seq<char>),
    Changed(Seq<char>, Seq<char>),
}

impl View for Verdict {
    type V = Outcome;

    open spec fn view(&self) -> Outcome {
        match self {
            Verdict::Unchanged(line) => Outcome::Unchanged(line@),
            Verdict::Changed(old, new) => Outcome::Changed(old@, new@),
        }
    }
}

/// The verdict that a table gives on two lines: unchanged where they have one
/// byte length and the cell at that row and column holds it too, changed
/// otherwise, and none where the table has no such cell.
pub open spec fn outcome_of(grid: Grid, old: Seq<char>, new: Seq<char>) -> Option<Outcome> {
    match grid.get(byte_len(old) as int, byte_len(new) as int) {
        Ok(equal_run) => Some(
            if byte_len(old) == byte_len(new) && equal_run == byte_len(new) {
                Outcome::Unchanged(new)
            } else {
                Outcome::Changed(old, new)
            },
        ),
        Err(_) => None,
    }
}

/// A line marked as present in the new text only.
pub open spec fn added(line: Seq<char>) -> Seq<char> {
    seq!['>', '>', ' '] + line
}

/// A line marked as present in the old text only.
pub open spec fn removed(line: Seq<char>) -> Seq<char> {
    seq!['<', '<', ' '] + line
}

/// The lines of text that report a verdict, the last of them blank.
pub open spec fn rendered(outcome: Option<Outcome>) -> Seq<Seq<char>> {
    match outcome {
        Some(Outcome::Unchanged(line)) => seq![line, Seq::empty()],
        Some(Outcome::Changed(old, new)) => seq![added(new), removed(old), Seq::empty()],
        None => seq![Seq::empty()],
    }
}

/// The character sequences of a list of strings.
pub open spec fn texts(lines: Seq<String>) -> Seq<Seq<char>> {
    lines.map_values(|line: String| line@)
}

/// The bottom-right cell of the table of two lines.
pub open spec fn bottom_right(line_new: Seq<char>, line_old: Seq<char>) -> nat {
    table_cell(
        lowered_bytes(line_new),
        lowered_bytes(line_old),
        byte_len(line_new) as int,
        byte_len(line_old) as int,
        byte_len(line_old) as int,
        byte_len(line_new) as int,
    )
}

/// The verdict on two lines, by their own table.
pub open spec fn pair_outcome(line_new: Seq<char>, line_old: Seq<char>) -> Outcome {
    if byte_len(line_old) == byte_len(line_new) && bottom_right(line_new, line_old) == byte_len(
        line_new,
    ) {
        Outcome::Unchanged(line_new)
    } else {
        Outcome::Changed(line_old, line_new)
    }
}

/// Decides from the table of two lines whether the new line differs from the
/// old one. Gives nothing where the table has no cell for the lines' lengths.
pub fn classify(matrix: &Matrix, old: &str, new: &str) -> (verdict: Option<Verdict>)
    requires
        matrix@.wf(),
    ensures
        match verdict {
            Some(v) => outcome_of(matrix@, old@, new@) == Some(v@),
            None => outcome_of(matrix@, old@, new@) is None,
        },
{
    let old_len = old.as_bytes().len();
    let new_len = new.as_bytes().len();

    let same_len = old_len == new_len;
    match matrix.get_element(old_len, new_len) {
        Ok(cant_equals) => {
            if same_len && cant_equals as usize == new_len {
                Some(Verdict::Unchanged(new.to_owned()))
            } else {
                Some(Verdict::Changed(old.to_owned(), new.to_owned()))
            }
        },
        Err(_) => None,
    }
}

/// The text for a line that only the new text has: the line after `>> `.
pub fn added_line(line: &str) -> (text: String)
    ensures
        text@ == added(line@),
{
    proof {
        reveal_strlit(">> ");
    }
    let text = String::from_str(">> ").concat(line);
    assert(text@ =~= added(line@));
    text
}

/// The text for a line that only the old text has: the line after `<< `.
pub fn removed_line(line: &str) -> (text: String)
    ensures
        text@ == removed(line@),
{
    proof {
        reveal_strlit("<< ");
    }
    let text = String::from_str("<< ").concat(line);
    assert(text@ =~= removed(line@));
    text
}

/// Puts a verdict into lines of text. An unchanged line stands without a
/// marker, a changed one as the new line after `>> ` and the old one after
/// `<< `, and a blank line comes last in every case.
pub fn render(verdict: &Option<Verdict>) -> (lines: Vec<String>)
    ensures
        texts(lines@) == rendered(
            match *verdict {
                Some(v) => Some(v@),
                None => None,
            },
        ),
{
    let mut lines: Vec<String> = Vec::new();
    match verdict {
        Some(Verdict::Unchanged(line)) => {
            lines.push(line.clone());
        },
        Some(Verdict::Changed(old, new)) => {
            lines.push(added_line(new.as_str()));
            lines.push(removed_line(old.as_str()));
        },
        None => {},
    }
    lines.push(String::new());
    assert(texts(lines@) =~= rendered(
        match *verdict {
            Some(v) => Some(v@),
            None => None,
        },
    ));
    lines
}

/// The report on one pair of lines.
pub open spec fn pair_output(line_new: Seq<char>, line_old: Seq<char>) -> Seq<Seq<char>> {
    rendered(Some(pair_outcome(line_new, line_old)))
}

/// A table of two lines gives the verdict of their bottom-right cell.
pub proof fn outcome_of_table(grid: Grid, line_new: Seq<char>, line_old: Seq<char>)
    requires
        is_lcs_table(
            grid,
            lowered_bytes(line_new),
            lowered_bytes(line_old),
            byte_len(line_new) as int,
            byte_len(line_old) as int,
        ),
    ensures
        grid.get(byte_len(line_old) as int, byte_len(line_new) as int) == Ok::<
            u32,
            crate::matrix::MatrixError,
        >(bottom_right(line_new, line_old) as u32),
        bottom_right(line_new, line_old) <= u32::MAX,
        outcome_of(grid, line_old, line_new) == Some(pair_outcome(line_new, line_old)),
{
    assert(grid.in_bounds(byte_len(line_old) as int, byte_len(line_new) as int));
    assert(grid.at(byte_len(line_old) as int, byte_len(line_new) as int) == bottom_right(
        line_new,
        line_old,
    ));
}

/// Compares a new line with an old one and reports the verdict as text.
pub fn compare(line_new: &str, line_old: &str) -> (res: MatrixResult<Vec<String>>)
    requires
        table_fits(line_new@, line_old@),
    ensures
        res is Ok,
        texts(res.unwrap()@) == pair_output(line_new@, line_old@),
{
    let lcs_matrix = lcs(line_new, line_old)?;
    proof {
        outcome_of_table(lcs_matrix@, line_new@, line_old@);
    }
    let verdict = classify(&lcs_matrix, line_old, line_new);
    Ok(render(&verdict))
}

/// Every pair of lines at one position has a table that fits in memory.
pub open spec fn all_fit(new_lines: Seq<Seq<char>>, old_lines: Seq<Seq<char>>) -> bool {
    forall|at: int|
        0 <= at < new_lines.len() && at < old_lines.len() ==> table_fits(
            #[trigger] new_lines[at],
            old_lines[at],
        )
}

/// Whether every pair of lines at one position has a table that fits in
/// memory, which `diff_lines` asks for.
pub fn all_lines_fit(new_lines: &Vec<String>, old_lines: &Vec<String>) -> (fits: bool)
    ensures
        fits == all_fit(texts(new_lines@), texts(old_lines@)),
{
    let ghost new_texts = texts(new_lines@);
    let ghost old_texts = texts(old_lines@);
    let mut at: usize = 0;
    while at < new_lines.len() && at < old_lines.len()
        invariant
            new_texts == texts(new_lines@),
            old_texts == texts(old_lines@),
            forall|k: int| 0 <= k < at ==> table_fits(#[trigger] new_texts[k], old_texts[k]),
        decreases new_lines.len() - at,
    {
        if !lines_fit(new_lines[at].as_str(), old_lines[at].as_str()) {
            assert(!table_fits(new_texts[at as int], old_texts[at as int]));
            return false;
        }
        at += 1;
    }
    true
}

/// What the walk reports where the new text has the line `line_new` and the
/// old text the line `line_old`: the comparison where both are there, else
/// the one line that is there, marked as added or removed and with no blank
/// line after it.
pub open spec fn position_output(
    line_new: Option<Seq<char>>,
    line_old: Option<Seq<char>>,
) -> Seq<Seq<char>> {
    match (line_new, line_old) {
        (Some(new), Some(old)) => pair_output(new, old),
        (Some(new), None) => seq![added(new)],
        (None, Some(old)) => seq![removed(old)],
        (None, None) => Seq::empty(),
    }
}

/// The line of a text at a position, if it has one there.
pub open spec fn line_at(lines: Seq<Seq<char>>, at: int) -> Option<Seq<char>> {
    if 0 <= at < lines.len() {
        Some(lines[at])
    } else {
        None
    }
}

/// The characters of a line that may be missing.
pub open spec fn text_of(line: Option<&str>) -> Option<Seq<char>> {
    match line {
        Some(text) => Some(text@),
        None => None,
    }
}

/// What the walk reports at one position of two texts.
pub open spec fn step_output(
    new_lines: Seq<Seq<char>>,
    old_lines: Seq<Seq<char>>,
    at: int,
) -> Seq<Seq<char>> {
    position_output(line_at(new_lines, at), line_at(old_lines, at))
}

/// Reports on one position of the walk, given the line that each text has
/// there, if any.
pub fn report_position(line_new: Option<&str>, line_old: Option<&str>) -> (res: MatrixResult<
    Vec<String>,
>)
    requires
        line_new is Some && line_old is Some ==> table_fits(
            line_new.unwrap()@,
            line_old.unwrap()@,
        ),
    ensures
        res is Ok,
        texts(res.unwrap()@) == position_output(text_of(line_new), text_of(line_old)),
{
    match line_new {
        Some(new) => match line_old {
            Some(old) => compare(new, old),
            None => {
                let mut lines: Vec<String> = Vec::new();
                lines.push(added_line(new));
                assert(texts(lines@) =~= seq![added(new@)]);
                Ok(lines)
            },
        },
        None => {
            let mut lines: Vec<String> = Vec::new();
            match line_old {
                Some(old) => {
                    lines.push(removed_line(old));
                    assert(texts(lines@) =~= seq![removed(old@)]);
                },
                None => {
                    assert(texts(lines@) =~= Seq::<Seq<char>>::empty());
                },
            }
            Ok(lines)
        },
    }
}

/// The report on the first `upto` positions, in order.
pub open spec fn walk_output(
    new_lines: Seq<Seq<char>>,
    old_lines: Seq<Seq<char>>,
    upto: nat,
) -> Seq<Seq<char>>
    decreases upto,
{
    if upto == 0 {
        Seq::empty()
    } else {
        walk_output(new_lines, old_lines, (upto - 1) as nat) + step_output(
            new_lines,
            old_lines,
            upto - 1,
        )
    }
}

/// The whole report on two texts.
pub open spec fn diff_output(new_lines: Seq<Seq<char>>, old_lines: Seq<Seq<char>>) -> Seq<
    Seq<char>,
> {
    walk_output(
        new_lines,
        old_lines,
        if new_lines.len() >= old_lines.len() {
            new_lines.len()
        } else {
            old_lines.len()
        },
    )
}

/// Walks two texts line by line and gives the lines of the report: each new
/// line compared with the old line at its position, new lines past the end of
/// the old text as added, and then old lines past the end of the new text as
/// removed.
pub fn diff_lines(new_lines: &Vec<String>, old_lines: &Vec<String>) -> (res: MatrixResult<
    Vec<String>,
>)
    requires
        all_fit(texts(new_lines@), texts(old_lines@)),
    ensures
        res is Ok,
        texts(res.unwrap()@) == diff_output(texts(new_lines@), texts(old_lines@)),
{
    let ghost new_texts = texts(new_lines@);
    let ghost old_texts = texts(old_lines@);
    let mut report: Vec<String> = Vec::new();
    let mut at: usize = 0;
    assert(texts(report@) =~= walk_output(new_texts, old_texts, 0));
    while at < new_lines.len()
        invariant
            at <= new_lines.len(),
            new_texts == texts(new_lines@),
            old_texts == texts(old_lines@),
            all_fit(new_texts, old_texts),
            texts(report@) == walk_output(new_texts, old_texts, at as nat),
        decreases new_lines.len() - at,
    {
        let ghost before = report@;
        let line_new = Some(new_lines[at].as_str());
        let line_old = if at < old_lines.len() {
            Some(old_lines[at].as_str())
        } else {
            None
        };
        assert(text_of(line_new) == line_at(new_texts, at as int));
        assert(text_of(line_old) == line_at(old_texts, at as int));
        let mut lines = report_position(line_new, line_old)?;
        let ghost step = lines@;
        report.append(&mut lines);
        assert(texts(report@) =~= texts(before) + texts(step));
        at += 1;
    }
    while at < old_lines.len()
        invariant
            new_lines.len() <= at,
            at == new_lines.len() || at <= old_lines.len(),
            new_texts == texts(new_lines@),
            old_texts == texts(old_lines@),
            texts(report@) == walk_output(new_texts, old_texts, at as nat),
        decreases old_lines.len() - at,
    {
        let ghost before = report@;
        let line_old = Some(old_lines[at].as_str());
        assert(text_of(line_old) == line_at(old_texts, at as int));
        let mut lines = report_position(None, line_old)?;
        let ghost step = lines@;
        report.append(&mut lines);
        assert(texts(report@) =~= texts(before) + texts(step));
        at += 1;
    }
    Ok(report)
}

/// A line compared with itself has a bottom-right cell equal to its length in
/// bytes, provided its lower-case form is not shorter than the line.
pub proof fn bottom_right_of_same_line(line: Seq<char>)
    requires
        lowered_bytes(line).len() >= byte_len(line),
    ensures
        bottom_right(line, line) == byte_len(line),
{
    lcs_len_reflexive(lowered_bytes(line).take(byte_len(line) as int));
}

/// The bottom-right cell of two lines is the same whichever of them is taken
/// as the new one.
pub proof fn bottom_right_symmetric(line_a: Seq<char>, line_b: Seq<char>)
    ensures
        bottom_right(line_a, line_b) == bottom_right(line_b, line_a),
{
    lcs_len_symmetric(
        lowered_bytes(line_b).take(byte_len(line_b) as int),
        lowered_bytes(line_a).take(byte_len(line_a) as int),
    );
}

/// Exactly when a pair of lines is judged unchanged: the lines have one byte
/// length, and either they are empty or the lower-case forms of both are at
/// least that long and agree on that many bytes.
pub proof fn unchanged_exactly_when(line_new: Seq<char>, line_old: Seq<char>)
    ensures
        pair_outcome(line_new, line_old) == Outcome::Unchanged(line_new) <==> {
            &&& byte_len(line_old) == byte_len(line_new)
            &&& (byte_len(line_new) == 0 || {
                &&& lowered_bytes(line_old).len() >= byte_len(line_new)
                &&& lowered_bytes(line_new).len() >= byte_len(line_new)
                &&& lowered_bytes(line_old).take(byte_len(line_new) as int) == lowered_bytes(
                    line_new,
                ).take(byte_len(line_new) as int)
            })
        },
        pair_outcome(line_new, line_old) != Outcome::Unchanged(line_new) <==> pair_outcome(
            line_new,
            line_old,
        ) == Outcome::Changed(line_old, line_new),
{
    let len = byte_len(line_new) as int;
    let old_bytes = lowered_bytes(line_old);
    let new_bytes = lowered_bytes(line_new);
    if byte_len(line_old) == byte_len(line_new) && len > 0 && old_bytes.len() >= len
        && new_bytes.len() >= len {
        if old_bytes.take(len) == new_bytes.take(len) {
            lcs_len_reflexive(new_bytes.take(len));
        }
        if bottom_right(line_new, line_old) == len {
            lcs_len_full_means_equal(old_bytes.take(len), new_bytes.take(len));
        }
    }
}

/// Lower case neither lengthens nor shortens the line, counted in bytes.
pub open spec fn lowering_keeps_length(line: Seq<char>) -> bool {
    lowered_bytes(line).len() == byte_len(line)
}

/// Two lines whose byte lengths lower case leaves alone are judged unchanged
/// exactly when their lower-case forms are the same string.
pub proof fn unchanged_iff_equal_in_lower_case(line_new: Seq<char>, line_old: Seq<char>)
    requires
        lowering_keeps_length(line_new),
        lowering_keeps_length(line_old),
    ensures
        pair_outcome(line_new, line_old) == Outcome::Unchanged(line_new) <==> lowercase(line_old)
            == lowercase(line_new),
{
    unchanged_exactly_when(line_new, line_old);
    let old_bytes = lowered_bytes(line_old);
    let new_bytes = lowered_bytes(line_new);
    assert(old_bytes.take(old_bytes.len() as int) =~= old_bytes);
    assert(new_bytes.take(new_bytes.len() as int) =~= new_bytes);
    encode_utf8_decode_utf8(lowercase(line_old));
    encode_utf8_decode_utf8(lowercase(line_new));
    if old_bytes == new_bytes {
        assert(lowercase(line_old) == lowercase(line_new));
    }
    if byte_len(line_new) == 0 && byte_len(line_old) == 0 {
        assert(old_bytes =~= new_bytes);
    }
}

} // verus!
