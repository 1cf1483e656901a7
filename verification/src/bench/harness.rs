//! Benchmark parameters, and the report that collects the printed lines.
use vstd::prelude::*;
use vstd::string::StrSliceExecFns;
use vstd::string::StringExecFns;

verus! {

pub const MID: u64 = 10_000;

pub const SPREAD: u64 = 50;

pub const WARMUP: u64 = 2_000;

pub const ITERS: u64 = 200_000;

pub const SWEEP_ITERS: u64 = 50_000;


/// `n` copies of `c`.
pub open spec fn repeated(c: char, n: nat) -> Seq<char> {
    Seq::new(n, |_i: int| c)
}

/// `s` padded with spaces on the right to at least `width` characters.
pub open spec fn align_left(s: Seq<char>, width: nat) -> Seq<char> {
    if s.len() < width {
        s + repeated(' ', (width - s.len()) as nat)
    } else {
        s
    }
}

/// `s` padded with spaces on the left to at least `width` characters.
pub open spec fn align_right(s: Seq<char>, width: nat) -> Seq<char> {
    if s.len() < width {
        repeated(' ', (width - s.len()) as nat) + s
    } else {
        s
    }
}

/// One latency column of a table: a space, then the cell right-aligned in
/// eight characters.
pub open spec fn column(cell: Seq<char>) -> Seq<char> {
    seq![' '] + align_right(cell, 8)
}

/// How many rule characters follow a section title: the title and its
/// four framing characters fill a line of 80 bytes, when they fit.
pub open spec fn section_rule_len(title: &str) -> nat {
    let used = title.len() + 4;
    if used < 80 {
        (80 - used) as nat
    } else {
        0
    }
}

/// The two lines that open a table of latencies: the title with its rule,
/// the column heads, and a rule of seventy characters under them.
pub open spec fn section_text(title: &str) -> Seq<char> {
    seq!['\n', '─', '─', ' '] + title@ + seq![' '] + repeated('─', section_rule_len(title))
        + seq!['\n', ' ', ' '] + repeated(' ', 22) + column("p50"@) + column("p99"@) + column(
        "p99.9"@,
    ) + column("p99.99"@) + column("min"@) + column("max"@) + seq!['\n', ' ', ' '] + repeated(
        '─',
        70,
    )
}

/// One line of a table of latencies: the label left-aligned in 22
/// characters, then the six cells.
pub open spec fn row_text(label: Seq<char>, cells: Seq<Seq<char>>) -> Seq<char> {
    seq![' ', ' '] + align_left(label, 22) + column(cells[0]) + column(cells[1]) + column(cells[2])
        + column(cells[3]) + column(cells[4]) + column(cells[5])
}

/// Appends `n` copies of the one character of `unit`.
fn push_repeated(out: &mut String, unit: &str, n: usize)
    requires
        unit@.len() == 1,
    ensures
        final(out)@ == old(out)@ + repeated(unit@[0], n as nat),
{
    let mut i: usize = 0;
    while i < n
        invariant
            i <= n,
            unit@.len() == 1,
            out@ == old(out)@ + repeated(unit@[0], i as nat),
        decreases n - i,
    {
        out.append(unit);
        i = i + 1;
        assert(out@ =~= old(out)@ + repeated(unit@[0], i as nat));
    }
}

/// Appends `s` padded on the right to `width` characters.
fn push_left_aligned(out: &mut String, s: &str, width: usize)
    ensures
        final(out)@ == old(out)@ + align_left(s@, width as nat),
{
    out.append(s);
    let len = s.unicode_len();
    if len < width {
        proof {
            reveal_strlit(" ");
        }
        push_repeated(out, " ", width - len);
        assert(out@ =~= old(out)@ + align_left(s@, width as nat));
    }
}

/// Appends one latency column holding `cell`.
fn push_column(out: &mut String, cell: &str)
    ensures
        final(out)@ == old(out)@ + column(cell@),
{
    proof {
        reveal_strlit(" ");
    }
    out.append(" ");
    let len = cell.unicode_len();
    if len < 8 {
        push_repeated(out, " ", 8 - len);
    }
    out.append(cell);
    assert(out@ =~= old(out)@ + column(cell@));
}

/// The text that opens a table of latencies under `title`.
pub fn section_line(title: &str) -> (line: String)
    ensures
        line@ == section_text(title),
{
    let used = title.len();
    let rule: usize = if used < 76 {
        76 - used
    } else {
        0
    };
    proof {
        reveal_strlit("\n── ");
        reveal_strlit(" ");
        reveal_strlit("─");
        reveal_strlit("\n  ");
    }
    let mut line = String::new();
    line.append("\n── ");
    line.append(title);
    line.append(" ");
    push_repeated(&mut line, "─", rule);
    line.append("\n  ");
    push_repeated(&mut line, " ", 22);
    push_column(&mut line, "p50");
    push_column(&mut line, "p99");
    push_column(&mut line, "p99.9");
    push_column(&mut line, "p99.99");
    push_column(&mut line, "min");
    push_column(&mut line, "max");
    line.append("\n  ");
    push_repeated(&mut line, "─", 70);
    assert(line@ =~= section_text(title));
    line
}

/// One line of a table of latencies: `label`, then the six cells.
pub fn row_line(label: &str, cells: &[String; 6]) -> (line: String)
    ensures
        line@ == row_text(label@, cells@.map_values(|c: String| c@)),
{
    proof {
        reveal_strlit("  ");
    }
    let mut line = String::new();
    line.append("  ");
    push_left_aligned(&mut line, label, 22);
    push_column(&mut line, cells[0].as_str());
    push_column(&mut line, cells[1].as_str());
    push_column(&mut line, cells[2].as_str());
    push_column(&mut line, cells[3].as_str());
    push_column(&mut line, cells[4].as_str());
    push_column(&mut line, cells[5].as_str());
    line
}

/// Collects the lines of a benchmark report, to be saved once the run is
/// over.
pub struct Reporter {
    output: String,
}

impl Reporter {
    /// What has been recorded so far.
    pub closed spec fn text(&self) -> Seq<char> {
        self.output@
    }

    pub fn new() -> (r: Self)
        ensures
            r.text() == Seq::<char>::empty(),
    {
        Self { output: String::new() }
    }

    /// Appends `line` and a line break.
    fn record(&mut self, line: &str)
        ensures
            final(self).text() == old(self).text() + line@ + seq!['\n'],
    {
        self.output.append(line);
        proof {
            reveal_strlit("\n");
        }
        self.output.append("\n");
    }

    /// Records the line that heads the report.
    pub fn header(&mut self, text: &str)
        ensures
            final(self).text() == old(self).text() + text@ + seq!['\n'],
    {
        self.record(text);
    }

    /// Records the opening of a table of latencies and returns its text.
    pub fn section(&mut self, title: &str) -> (line: String)
        ensures
            line@ == section_text(title),
            final(self).text() == old(self).text() + line@ + seq!['\n'],
    {
        let line = section_line(title);
        self.record(line.as_str());
        line
    }

    /// Records one line of a table of latencies, `label` and its six cells,
    /// and returns its text.
    pub fn row(&mut self, label: &str, cells: &[String; 6]) -> (line: String)
        ensures
            line@ == row_text(label@, cells@.map_values(|c: String| c@)),
            final(self).text() == old(self).text() + line@ + seq!['\n'],
    {
        let line = row_line(label, cells);
        self.record(line.as_str());
        line
    }

    /// Records the line that closes the report.
    pub fn footer(&mut self, text: &str)
        ensures
            final(self).text() == old(self).text() + text@ + seq!['\n'],
    {
        self.record(text);
    }

    /// The whole report.
    pub fn output(&self) -> (s: &str)
        ensures
            s@ == self.text(),
    {
        self.output.as_str()
    }
}

} // verus!
