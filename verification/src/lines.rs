//! The line format: one line for each reported capture,
//! `path:row:column:name:text`, with rows and columns counted from one.
use crate::extractor::{ExtractedFile, ExtractedMatch, FileView, MatchView, Point};
use crate::text::{decimal, decimal_text};
use vstd::prelude::*;
use vstd::string::*;

verus! {

/// What stands for the path of a record that has none.
pub open spec fn no_file() -> Seq<char> {
    "NO FILE"@
}

/// What stands for a path that is not valid UTF-8 and so cannot be kept as text.
pub open spec fn non_utf8_filename() -> Seq<char> {
    "NON-UTF8 FILENAME"@
}

/// What a caller puts in the place of a path that is not valid UTF-8.
pub fn non_utf8_filename_text() -> (text: &'static str)
    ensures
        text@ == non_utf8_filename(),
{
    "NON-UTF8 FILENAME"
}

/// The path that the lines of a record start with.
pub open spec fn file_label(file: Option<Seq<char>>) -> Seq<char> {
    match file {
        Some(path) => path,
        None => no_file(),
    }
}

/// The line of one match. The text is written as it is: where it holds
/// line breaks, the line runs over several lines.
pub open spec fn line(label: Seq<char>, m: MatchView) -> Seq<char> {
    label + ":"@ + decimal((m.start.row + 1) as nat) + ":"@ + decimal((m.start.column + 1) as nat)
        + ":"@ + m.name + ":"@ + m.text + "\n"@
}

/// The lines of some matches, in their order.
pub open spec fn lines(label: Seq<char>, matches: Seq<MatchView>) -> Seq<char>
    decreases matches.len(),
{
    if matches.len() == 0 {
        Seq::empty()
    } else {
        lines(label, matches.drop_last()) + line(label, matches.last())
    }
}

/// The lines of some file records, in their order.
pub open spec fn all_lines(files: Seq<FileView>) -> Seq<char>
    decreases files.len(),
{
    if files.len() == 0 {
        Seq::empty()
    } else {
        all_lines(files.drop_last()) + lines(file_label(files.last().file), files.last().matches)
    }
}

impl Point {
    /// The row as it is shown: counted from one.
    pub fn shown_row(&self) -> (row: u128)
        ensures
            row == self.row + 1,
    {
        self.row as u128 + 1
    }

    /// The column as it is shown: counted from one.
    pub fn shown_column(&self) -> (column: u128)
        ensures
            column == self.column + 1,
    {
        self.column as u128 + 1
    }
}

impl<'query> ExtractedMatch<'query> {
    /// Writes the line of this match at the end of `out`.
    pub fn write_line(&self, label: &str, out: &mut String)
        ensures
            final(out)@ == old(out)@ + line(label@, self@),
    {
        let ghost before = out@;
        out.append(label);
        out.append(":");
        out.append(decimal_text(self.start.shown_row()).as_str());
        out.append(":");
        out.append(decimal_text(self.start.shown_column()).as_str());
        out.append(":");
        out.append(self.name);
        out.append(":");
        out.append(self.text.as_str());
        out.append("\n");
        assert(out@ =~= before + line(label@, self@));
    }
}

impl<'query> ExtractedFile<'query> {
    /// The path that the lines of this record start with.
    pub fn file_name(&self) -> (label: &str)
        ensures
            label@ == file_label(self@.file),
    {
        match &self.file {
            Some(path) => path.as_str(),
            None => "NO FILE",
        }
    }

    /// Writes the lines of this record at the end of `out`.
    pub fn write_lines(&self, out: &mut String)
        ensures
            final(out)@ == old(out)@ + lines(file_label(self@.file), self@.matches),
    {
        let label = self.file_name();
        let ghost before = out@;
        let ghost views = self@.matches;
        let mut i: usize = 0;
        assert(views.take(0) =~= Seq::<MatchView>::empty());
        assert(out@ =~= before + lines(label@, views.take(0)));
        while i < self.matches.len()
            invariant
                i <= self.matches.len(),
                views == self@.matches,
                views.len() == self.matches.len(),
                out@ == before + lines(label@, views.take(i as int)),
            decreases self.matches.len() - i,
        {
            let ghost so_far = out@;
            self.matches[i].write_line(label, out);
            proof {
                let now = views.take(i + 1);
                assert(now.drop_last() =~= views.take(i as int));
                assert(now.last() == self.matches[i as int]@);
                assert(out@ =~= before + lines(label@, now));
            }
            i = i + 1;
        }
        assert(views.take(i as int) =~= views);
    }

    /// The lines of this record.
    pub fn to_string(&self) -> (text: String)
        ensures
            text@ == lines(file_label(self@.file), self@.matches),
    {
        let mut out = String::new();
        self.write_lines(&mut out);
        assert(out@ =~= lines(file_label(self@.file), self@.matches));
        out
    }
}

/// The views of a sequence of file records.
pub open spec fn file_views(files: Seq<ExtractedFile>) -> Seq<FileView> {
    files.map_values(|f: ExtractedFile| f@)
}

/// The lines of some file records, one record after another.
pub fn render_lines(files: &Vec<ExtractedFile>) -> (text: String)
    ensures
        text@ == all_lines(file_views(files@)),
{
    let mut out = String::new();
    let ghost views = file_views(files@);
    let mut i: usize = 0;
    assert(views.take(0) =~= Seq::<FileView>::empty());
    while i < files.len()
        invariant
            i <= files.len(),
            views == file_views(files@),
            out@ == all_lines(views.take(i as int)),
        decreases files.len() - i,
    {
        files[i].write_lines(&mut out);
        proof {
            let now = views.take(i + 1);
            assert(now.drop_last() =~= views.take(i as int));
            assert(now.last() == files[i as int]@);
        }
        i = i + 1;
    }
    assert(views.take(i as int) =~= views);
    out
}

} // verus!
