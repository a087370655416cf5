//! Diagnostics: what went wrong, where, and how it is shown to a reader.

use vstd::prelude::*;
use crate::lexer::model::{byte_offset, utf8_width};
use crate::text::{chars_of, push_char, push_str, string_from, string_of};

verus! {

/// The errors of running a program.
#[derive(Debug, PartialEq, Eq)]
pub enum InterpreterError {
    /// The named file could not be read.
    FileNotFound(String),
    /// Anything else, with its description.
    UnexpectedError(String),
}

/// The kinds of error that the parser reports.
#[derive(Debug, Clone, Copy, PartialEq, Eq, Structural)]
pub enum ErrorKind {
    /// The input does not follow the grammar.
    InvalidSyntax,
    /// A token that the grammar requires is missing.
    ExpectedToken,
}

pub open spec fn kind_text(k: ErrorKind) -> Seq<char> {
    match k {
        ErrorKind::InvalidSyntax => "Invalid Syntax"@,
        ErrorKind::ExpectedToken => "Expected token"@,
    }
}

impl ErrorKind {
    /// The name of the kind, as a reader sees it.
    pub fn to_string(&self) -> (r: String)
        ensures
            r@ == kind_text(*self),
    {
        match self {
            ErrorKind::InvalidSyntax => string_from("Invalid Syntax"),
            ErrorKind::ExpectedToken => string_from("Expected token"),
        }
    }
}

/// A byte range `start..end` of the source, with a note on it.
#[derive(Debug)]
pub struct Label {
    pub start: usize,
    pub end: usize,
    pub text: String,
}

impl Label {
    /// Create a label over `start..end` with the note `text`.
    pub fn new(start: usize, end: usize, text: &str) -> (r: Label)
        ensures
            r.start == start,
            r.end == end,
            r.text@ == text@,
    {
        Label { start, end, text: string_from(text) }
    }
}

/// A reported error: its kind, the line and column where it was found, the
/// labelled parts of the source, and a note.
#[derive(Debug)]
pub struct Diagnostic {
    pub kind: ErrorKind,
    pub line: u32,
    pub column: u32,
    pub labels: Vec<Label>,
    pub message: String,
}

/// The view of a [`Label`].
pub struct LabelModel {
    pub start: int,
    pub end: int,
    pub text: Seq<char>,
}

/// The view of a [`Diagnostic`].
pub struct DiagnosticModel {
    pub kind: ErrorKind,
    pub line: int,
    pub column: int,
    pub labels: Seq<LabelModel>,
    pub message: Seq<char>,
}

impl View for Label {
    type V = LabelModel;

    open spec fn view(&self) -> LabelModel {
        LabelModel { start: self.start as int, end: self.end as int, text: self.text@ }
    }
}

impl View for Diagnostic {
    type V = DiagnosticModel;

    open spec fn view(&self) -> DiagnosticModel {
        DiagnosticModel {
            kind: self.kind,
            line: self.line as int,
            column: self.column as int,
            labels: self.labels@.map_values(|l: Label| l@),
            message: self.message@,
        }
    }
}

/// Text shown in red on a terminal.
pub open spec fn red(s: Seq<char>) -> Seq<char> {
    "\u{1b}[31m"@ + s + "\u{1b}[0m"@
}

/// Text shown in yellow on a terminal.
pub open spec fn yellow(s: Seq<char>) -> Seq<char> {
    "\u{1b}[33m"@ + s + "\u{1b}[0m"@
}

/// Relies on `ansi_term::Colour::Red.paint` shown with `to_string`: the
/// text between the codes that switch the foreground to red and back.
#[verifier::external_body]
fn paint_red(s: &str) -> (r: String)
    ensures
        r@ == red(s@),
{
    ansi_term::Colour::Red.paint(s).to_string()
}

/// Relies on `ansi_term::Colour::Yellow.paint` shown with `to_string`: the
/// text between the codes that switch the foreground to yellow and back.
#[verifier::external_body]
fn paint_yellow(s: &str) -> (r: String)
    ensures
        r@ == yellow(s@),
{
    ansi_term::Colour::Yellow.paint(s).to_string()
}

/// The decimal digits of `n`.
pub open spec fn decimal_text(n: nat) -> Seq<char>
    decreases n,
{
    if n < 10 {
        seq!["0123456789"@[n as int]]
    } else {
        decimal_text(n / 10) + seq!["0123456789"@[(n % 10) as int]]
    }
}

fn decimal_string(n: u32) -> (r: String)
    ensures
        r@ == decimal_text(n as nat),
    decreases n,
{
    let digits = "0123456789";
    proof {
        reveal_strlit("0123456789");
    }
    if n < 10 {
        let mut r = String::new();
        push_char(&mut r, digits.get_char(n as usize));
        assert(r@ =~= decimal_text(n as nat));
        r
    } else {
        let mut r = decimal_string(n / 10);
        push_char(&mut r, digits.get_char((n % 10) as usize));
        assert(r@ =~= decimal_text(n as nat));
        r
    }
}

/// The index of the character that starts at byte `b`, searching from
/// index `k`; `None` where no character starts there.
pub open spec fn index_at_byte(s: Seq<char>, b: int, k: int) -> Option<int>
    decreases s.len() - k,
{
    if byte_offset(s, k) == b {
        Some(k)
    } else if k >= s.len() || byte_offset(s, k) > b {
        None
    } else {
        index_at_byte(s, b, k + 1)
    }
}

pub open spec fn spaces(n: nat) -> Seq<char> {
    Seq::new(n, |i: int| ' ')
}

/// How a label shows: the labelled text, then a marker under it with the
/// note. `None` where the label's range is not a range of whole characters
/// of the source.
pub open spec fn label_text(s: Seq<char>, l: LabelModel) -> Option<Seq<char>> {
    match (index_at_byte(s, l.start, 0), index_at_byte(s, l.end, 0)) {
        (Some(a), Some(b)) => if a <= b {
            Some(
                "| "@ + s.subrange(a, b) + "\n|"@ + spaces((l.start + 1) as nat) + "^^-- "@ + red(
                    l.text,
                ) + "\n"@,
            )
        } else {
            None
        },
        _ => None,
    }
}

/// The labels, shown in order.
pub open spec fn labels_text(s: Seq<char>, ls: Seq<LabelModel>) -> Option<Seq<char>>
    decreases ls.len(),
{
    if ls.len() == 0 {
        Some(seq![])
    } else {
        match (labels_text(s, ls.drop_last()), label_text(s, ls.last())) {
            (Some(a), Some(b)) => Some(a + b),
            _ => None,
        }
    }
}

/// A whole error report: a heading with the kind, the place, each label,
/// then the note.
pub open spec fn report_text(
    s: Seq<char>,
    kind: ErrorKind,
    line: nat,
    column: nat,
    filename: Seq<char>,
    labels: Seq<LabelModel>,
    message: Seq<char>,
) -> Option<Seq<char>> {
    match labels_text(s, labels) {
        Some(shown) => Some(
            red("Error"@) + " - "@ + kind_text(kind) + "\n= at "@ + yellow(
                filename + ":"@ + decimal_text(line) + ":"@ + decimal_text(column),
            ) + "\n\n"@ + shown + yellow("\n= note: "@ + message) + "\n"@,
        ),
        None => None,
    }
}

/// The report of the diagnostic `d`, rendered against the source `s` of
/// the file `file`.
pub open spec fn report_of(s: Seq<char>, file: Seq<char>, d: DiagnosticModel) -> Option<Seq<char>> {
    report_text(s, d.kind, d.line as nat, d.column as nat, file, d.labels, d.message)
}

/// The texts of a list of strings.
pub open spec fn texts(v: Seq<String>) -> Seq<Seq<char>> {
    v.map_values(|t: String| t@)
}

/// `rs` holds the report of each diagnostic of `ds`, in order.
pub open spec fn renders(
    s: Seq<char>,
    file: Seq<char>,
    ds: Seq<DiagnosticModel>,
    rs: Seq<Seq<char>>,
) -> bool {
    &&& rs.len() == ds.len()
    &&& forall|k: int| 0 <= k < rs.len() ==> Some(#[trigger] rs[k]) == report_of(s, file, ds[k])
}

/// Renders errors against the source text they are about.
pub struct Responder {
    source: String,
    chars: Vec<char>,
}

impl Responder {
    /// The source text.
    pub closed spec fn source(&self) -> Seq<char> {
        self.source@
    }

    pub closed spec fn wf(&self) -> bool {
        self.chars@ == self.source@
    }

    /// Create a responder for the source text `source`.
    pub fn new(source: String) -> (r: Responder)
        ensures
            r.wf(),
            r.source() == source@,
    {
        let chars = chars_of(source.as_str());
        Responder { source, chars }
    }

    /// The index of the character that starts at byte `b`, if any.
    fn char_index(&self, b: usize) -> (r: Option<usize>)
        requires
            self.wf(),
        ensures
            r matches Some(k) ==> index_at_byte(self.chars@, b as int, 0) == Some(k as int),
            r is None ==> index_at_byte(self.chars@, b as int, 0) is None,
    {
        let ghost s = self.chars@;
        let mut k: usize = 0;
        let mut offset: u128 = 0;
        while k < self.chars.len()
            invariant
                k <= s.len(),
                s == self.chars@,
                offset == byte_offset(s, k as int),
                offset <= b,
                index_at_byte(s, b as int, 0) == index_at_byte(s, b as int, k as int),
            decreases s.len() - k,
        {
            if offset == b as u128 {
                return Some(k);
            }
            let c = self.chars[k];
            let w: u128 = if (c as u32) < 0x80 {
                1
            } else if (c as u32) < 0x800 {
                2
            } else if (c as u32) < 0x10000 {
                3
            } else {
                4
            };
            assert(w == utf8_width(c));
            offset = offset + w;
            k = k + 1;
            if offset > b as u128 {
                return None;
            }
        }
        if offset == b as u128 {
            Some(k)
        } else {
            None
        }
    }

    /// How `label` shows, or `None` where its range is not a range of whole
    /// characters of the source.
    fn render_label(&self, label: &Label) -> (r: Option<String>)
        requires
            self.wf(),
        ensures
            match label_text(self.source(), label@) {
                Some(t) => r matches Some(x) && x@ == t,
                None => r is None,
            },
    {
        let a = match self.char_index(label.start) {
            Some(a) => a,
            None => {
                return None;
            },
        };
        let b = match self.char_index(label.end) {
            Some(b) => b,
            None => {
                return None;
            },
        };
        if a > b {
            return None;
        }
        proof {
            lemma_index_at_byte_bound(self.chars@, label.start as int, 0);
            lemma_index_at_byte_bound(self.chars@, label.end as int, 0);
        }
        let mut out = string_from("| ");
        let text = string_of(&self.chars, a, b);
        push_str(&mut out, text.as_str());
        push_str(&mut out, "\n|");
        let ghost before = out@;
        push_char(&mut out, ' ');
        let mut k: usize = 0;
        while k < label.start
            invariant
                k <= label.start,
                out@ == before + spaces((k + 1) as nat),
            decreases label.start - k,
        {
            push_char(&mut out, ' ');
            k = k + 1;
            assert(out@ =~= before + spaces((k + 1) as nat));
        }
        push_str(&mut out, "^^-- ");
        let painted = paint_red(label.text.as_str());
        push_str(&mut out, painted.as_str());
        push_str(&mut out, "\n");
        assert(out@ =~= label_text(self.source(), label@).unwrap());
        Some(out)
    }

    /// The report of an error of `kind` found at `line` and `column` of the
    /// file `filename`, with `labels` over the source and the note
    /// `message`. `None` where a label's range is not a range of whole
    /// characters of the source.
    pub fn render_error(
        &self,
        kind: ErrorKind,
        line: u32,
        column: u32,
        filename: &str,
        labels: &Vec<Label>,
        message: &str,
    ) -> (r: Option<String>)
        requires
            self.wf(),
        ensures
            match report_text(
                self.source(),
                kind,
                line as nat,
                column as nat,
                filename@,
                labels@.map_values(|l: Label| l@),
                message@,
            ) {
                Some(t) => r matches Some(x) && x@ == t,
                None => r is None,
            },
    {
        let ghost ls = labels@.map_values(|l: Label| l@);
        let mut shown = String::new();
        let mut i: usize = 0;
        while i < labels.len()
            invariant
                i <= labels@.len(),
                self.wf(),
                ls == labels@.map_values(|l: Label| l@),
                labels_text(self.source(), ls.take(i as int)) == Some(shown@),
            decreases labels@.len() - i,
        {
            assert(ls.take(i + 1).drop_last() =~= ls.take(i as int));
            match self.render_label(&labels[i]) {
                Some(t) => {
                    push_str(&mut shown, t.as_str());
                },
                None => {
                    proof {
                        lemma_labels_text_none(self.source(), ls, i + 1);
                        lemma_labels_text_prefix_none(self.source(), ls, i + 1);
                    }
                    return None;
                },
            }
            i = i + 1;
        }
        assert(ls.take(i as int) =~= ls);
        let mut out = paint_red("Error");
        push_str(&mut out, " - ");
        let kind_name = kind.to_string();
        push_str(&mut out, kind_name.as_str());
        push_str(&mut out, "\n= at ");
        let mut place = string_from(filename);
        push_str(&mut place, ":");
        let l = decimal_string(line);
        push_str(&mut place, l.as_str());
        push_str(&mut place, ":");
        let c = decimal_string(column);
        push_str(&mut place, c.as_str());
        let place = paint_yellow(place.as_str());
        push_str(&mut out, place.as_str());
        push_str(&mut out, "\n\n");
        push_str(&mut out, shown.as_str());
        let mut note = string_from("\n= note: ");
        push_str(&mut note, message);
        let note = paint_yellow(note.as_str());
        push_str(&mut out, note.as_str());
        push_str(&mut out, "\n");
        assert(out@ =~= report_text(
            self.source(),
            kind,
            line as nat,
            column as nat,
            filename@,
            ls,
            message@,
        ).unwrap());
        Some(out)
    }

    /// The report of the diagnostic `d`, as [`Responder::render_error`]
    /// gives it.
    pub fn render(&self, d: &Diagnostic, filename: &str) -> (r: Option<String>)
        requires
            self.wf(),
        ensures
            match report_text(
                self.source(),
                d.kind,
                d.line as nat,
                d.column as nat,
                filename@,
                d@.labels,
                d.message@,
            ) {
                Some(t) => r matches Some(x) && x@ == t,
                None => r is None,
            },
    {
        self.render_error(d.kind, d.line, d.column, filename, &d.labels, d.message.as_str())
    }
}

proof fn lemma_index_at_byte_bound(s: Seq<char>, b: int, k: int)
    requires
        0 <= k <= s.len(),
    ensures
        index_at_byte(s, b, k) matches Some(a) ==> k <= a <= s.len(),
    decreases s.len() - k,
{
    if byte_offset(s, k) != b && k < s.len() && byte_offset(s, k) <= b {
        lemma_index_at_byte_bound(s, b, k + 1);
    }
}

/// Where one label in the first `n` does not show, none of them show
/// together.
proof fn lemma_labels_text_none(s: Seq<char>, ls: Seq<LabelModel>, n: int)
    requires
        0 < n <= ls.len(),
        label_text(s, ls[n - 1]) is None,
    ensures
        labels_text(s, ls.take(n)) is None,
{
    assert(ls.take(n).last() == ls[n - 1]);
}

/// Where the first `n` labels do not show together, all of them do not.
proof fn lemma_labels_text_prefix_none(s: Seq<char>, ls: Seq<LabelModel>, n: int)
    requires
        0 <= n <= ls.len(),
        labels_text(s, ls.take(n)) is None,
    ensures
        labels_text(s, ls) is None,
    decreases ls.len(),
{
    if n == ls.len() {
        assert(ls.take(n) =~= ls);
    } else {
        assert(ls.drop_last().take(n) =~= ls.take(n));
        lemma_labels_text_prefix_none(s, ls.drop_last(), n);
    }
}

} // verus!
