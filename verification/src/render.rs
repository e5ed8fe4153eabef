//! Plain-text rendering of diagnostics: severity and message, then
//! for each label a `path:line:col` header, the source line, and a
//! caret underline, followed by notes and help.

use vstd::prelude::*;
use vstd::string::StringExecFns;
use vstd::string::StrSliceExecFns;

use crate::diag::{severity_text, Diagnostic, Label};
use crate::source::{SourceFile, SourceManager};
use crate::span::BytePos;
use crate::strings::{dec_digits, push_char, repeat_char, usize_to_string};

verus! {

/// What rendering needs of its inputs: every label points at a
/// registered file, with a well-formed span.
pub open spec fn render_ready(mgr: SourceManager, d: Diagnostic) -> bool {
    &&& mgr.wf()
    &&& forall|i: int|
        0 <= i < d.labels@.len() ==> (#[trigger] d.labels@[i]).file_id.0 < mgr.files@.len()
            && d.labels@[i].span.wf() && d.labels@[i].span.start.0 < usize::MAX
}

/// Turn a diagnostic into a block of text, given the registry that
/// issued the file handles its labels carry.
pub trait DiagnosticRenderer {
    fn render(&self, source_manager: &SourceManager, diagnostic: Diagnostic) -> (r: String)
        requires
            render_ready(*source_manager, diagnostic),
        ensures
            r@.len() > 0,
    ;
}

/// The length of `s` without its trailing whitespace.
pub open spec fn trim_len(s: Seq<char>) -> int
    decreases s.len(),
{
    if s.len() > 0 && (s.last() == ' ' || s.last() == '\t' || s.last() == '\r' || s.last()
        == '\n') {
        trim_len(s.drop_last())
    } else {
        s.len() as int
    }
}

/// The last line index whose start is at or before `pos`.
pub open spec fn line_of(starts: Seq<BytePos>, pos: int) -> int
    decreases starts.len(),
{
    if starts.len() <= 1 {
        0
    } else if starts[starts.len() - 1].0 <= pos {
        starts.len() - 1
    } else {
        line_of(starts.drop_last(), pos)
    }
}

/// The index bracketing `pos` is `line_of`.
pub proof fn lemma_line_of(starts: Seq<BytePos>, pos: int, i: int)
    requires
        0 <= i < starts.len(),
        forall|a: int, b: int| 0 <= a < b < starts.len() ==> starts[a].0 < starts[b].0,
        starts[i].0 <= pos,
        i + 1 < starts.len() ==> pos < starts[i + 1].0,
    ensures
        line_of(starts, pos) == i,
    decreases starts.len(),
{
    if starts.len() > 1 {
        if starts[starts.len() - 1].0 <= pos {
            if i + 1 < starts.len() {
                assert(starts[i + 1].0 <= starts[starts.len() - 1].0 || i + 1 == starts.len()
                    - 1);
            }
        } else {
            lemma_line_of(starts.drop_last(), pos, i);
        }
    }
}

/// A run of one repeated character.
pub open spec fn char_run(c: char, n: int) -> Seq<char> {
    Seq::new(n as nat, |i: int| c)
}

/// The label's `name:line:col` header line.
pub open spec fn label_header(file: SourceFile, l: Label) -> Seq<char> {
    let li = line_of(file.line_starts@, l.span.start.0 as int);
    let col = l.span.start.0 - file.line_starts@[li].0 + 1;
    " --> "@ + file.name@ + seq![':'] + dec_digits((li + 1) as nat) + seq![':'] + dec_digits(
        col as nat,
    ) + "\n"@
}

/// The label's source line, trimmed of trailing whitespace, behind
/// the width-4 line number.
pub open spec fn label_source(file: SourceFile, l: Label) -> Seq<char> {
    let starts = file.line_starts@;
    let li = line_of(starts, l.span.start.0 as int);
    let lstart = starts[li].0 as int;
    let lend = if li + 1 < starts.len() {
        starts[li + 1].0 as int
    } else {
        file.source@.len() as int
    };
    let src = file.source@.subrange(lstart, lend);
    let line_txt = dec_digits((li + 1) as nat);
    (if line_txt.len() < 4 {
        char_run(' ', 4 - line_txt.len())
    } else {
        Seq::<char>::empty()
    }) + line_txt + " | "@ + src.subrange(0, trim_len(src)) + "\n"@
}

/// The label's caret line: `max(1, span length)` carets at the
/// label's column, with its message.
pub open spec fn label_caret(file: SourceFile, l: Label) -> Seq<char> {
    let li = line_of(file.line_starts@, l.span.start.0 as int);
    let col = l.span.start.0 - file.line_starts@[li].0 + 1;
    let carets = if l.span.end.0 == l.span.start.0 {
        1int
    } else {
        l.span.end.0 - l.span.start.0
    };
    "     | "@ + char_run(' ', col - 1) + char_run('^', carets) + (match l.message {
        Some(m) => seq![' '] + m@,
        None => Seq::<char>::empty(),
    }) + "\n"@
}

/// The whole block rendered for one label against its file.
pub open spec fn label_text(file: SourceFile, l: Label) -> Seq<char> {
    label_header(file, l) + label_source(file, l) + label_caret(file, l)
}

/// The blocks for a prefix of the labels, in order.
pub open spec fn labels_text(mgr: SourceManager, labels: Seq<Label>) -> Seq<char>
    decreases labels.len(),
{
    if labels.len() == 0 {
        Seq::<char>::empty()
    } else {
        labels_text(mgr, labels.drop_last()) + label_text(
            mgr.files@[labels.last().file_id.0 as int],
            labels.last(),
        )
    }
}

/// One `note: ` line per note, in order.
pub open spec fn notes_text(notes: Seq<String>) -> Seq<char>
    decreases notes.len(),
{
    if notes.len() == 0 {
        Seq::<char>::empty()
    } else {
        notes_text(notes.drop_last()) + "note: "@ + notes.last()@ + "\n"@
    }
}

/// The whole text block for a diagnostic: severity, optional code,
/// message, the labels' blocks, the notes, and the help line.
pub open spec fn render_output(mgr: SourceManager, d: Diagnostic) -> Seq<char> {
    severity_text(d.severity) + (match d.code {
        Some(c) => seq!['['] + c@ + seq![']'],
        None => Seq::<char>::empty(),
    }) + " : "@ + d.message@ + "\n"@ + labels_text(mgr, d.labels@) + notes_text(d.notes@) + (
    match d.help {
        Some(h) => "help: "@ + h@ + "\n"@,
        None => Seq::<char>::empty(),
    })
}

/// Compute `trim_len`.
fn trimmed_len(s: &str) -> (n: usize)
    ensures
        n <= s@.len(),
        n == trim_len(s@),
{
    let mut n = s.unicode_len();
    proof {
        assert(s@.subrange(0, n as int) =~= s@);
    }
    loop
        invariant
            n <= s@.len(),
            trim_len(s@) == trim_len(s@.subrange(0, n as int)),
        ensures
            n <= s@.len(),
            n == trim_len(s@),
        decreases n,
    {
        if n == 0 {
            break ;
        }
        let c = s.get_char(n - 1);
        if c == ' ' || c == '\t' || c == '\r' || c == '\n' {
            proof {
                assert(s@.subrange(0, n as int).drop_last() =~= s@.subrange(0, n - 1));
            }
            n = n - 1;
        } else {
            break ;
        }
    }
    n
}

/// Append the rendered block for one label.
#[verifier::rlimit(100)]
fn append_label(out: &mut String, file: &SourceFile, label: &Label)
    requires
        file.wf(),
        label.span.wf(),
        label.span.start.0 < usize::MAX,
    ensures
        final(out)@ == old(out)@ + label_text(*file, *label),
{
    let ghost pre = out@;
    let span = label.span;
    let lc = file.line_col(span.start);
    proof {
        lemma_line_of(file.line_starts@, label.span.start.0 as int, lc.line - 1);
    }
    let line_start = file.line_starts[lc.line - 1].0;
    let line_end = if lc.line < file.line_starts.len() {
        file.line_starts[lc.line].0
    } else {
        file.source.as_str().unicode_len()
    };
    let line_src = file.source.as_str().substring_char(line_start, line_end);
    out.append(" --> ");
    out.append(file.name.as_str());
    push_char(out, ':');
    let line_text = usize_to_string(lc.line);
    out.append(line_text.as_str());
    push_char(out, ':');
    let col_text = usize_to_string(lc.col);
    out.append(col_text.as_str());
    push_char(out, '\n');
    let ghost part1 = out@;
    proof {
        reveal_strlit("\n");
        assert(part1 =~= pre + label_header(*file, *label));
    }
    let width = line_text.as_str().unicode_len();
    if width < 4 {
        let padding = repeat_char(' ', 4 - width);
        out.append(padding.as_str());
    }
    out.append(line_text.as_str());
    out.append(" | ");
    let keep = trimmed_len(line_src);
    out.append(line_src.substring_char(0, keep));
    push_char(out, '\n');
    let ghost part2 = out@;
    proof {
        reveal_strlit("\n");
        assert(part2 =~= part1 + label_source(*file, *label));
    }
    out.append("     | ");
    let caret_pad = repeat_char(' ', lc.col - 1);
    out.append(caret_pad.as_str());
    let mut caret_len = span.end.0 - span.start.0;
    if caret_len == 0 {
        caret_len = 1;
    }
    let carets = repeat_char('^', caret_len);
    out.append(carets.as_str());
    match &label.message {
        Some(msg) => {
            push_char(out, ' ');
            out.append(msg.as_str());
        },
        None => {},
    }
    push_char(out, '\n');
    proof {
        reveal_strlit("\n");
        assert(out@ =~= part2 + label_caret(*file, *label));
        assert(out@ =~= pre + label_text(*file, *label));
    }
}

/// The fixed text renderer.
pub struct PlainDiagnosticRenderer;

impl PlainDiagnosticRenderer {
    /// Build the text block. It always starts with the severity
    /// text; a diagnostic with no code, labels, notes or help renders
    /// as exactly `severity : message` and a line break.
    #[verifier::rlimit(100)]
    pub fn render_text(&self, source_manager: &SourceManager, diagnostic: Diagnostic) -> (r:
        String)
        requires
            render_ready(*source_manager, diagnostic),
        ensures
            r@.len() > 0,
            severity_text(diagnostic.severity).is_prefix_of(r@),
            r@ == render_output(*source_manager, diagnostic),
            diagnostic.code is None && diagnostic.labels@.len() == 0 && diagnostic.notes@.len()
                == 0 && diagnostic.help is None ==> r@ == severity_text(diagnostic.severity)
                + " : "@ + diagnostic.message@ + "\n"@,
    {
        let ghost sev = severity_text(diagnostic.severity);
        let mut out = String::new();
        out.append(diagnostic.severity.as_str());
        proof {
            reveal_strlit("error");
            reveal_strlit("warning");
            reveal_strlit("note");
            reveal_strlit("help");
            assert(out@ =~= sev);
            assert(sev.len() > 0);
        }
        match &diagnostic.code {
            Some(code) => {
                push_char(&mut out, '[');
                out.append(code.as_str());
                push_char(&mut out, ']');
            },
            None => {},
        }
        out.append(" : ");
        out.append(diagnostic.message.as_str());
        push_char(&mut out, '\n');
        let ghost head = out@;
        proof {
            reveal_strlit("\n");
            assert(sev.is_prefix_of(out@));
            assert(head =~= sev + (match diagnostic.code {
                Some(c) => seq!['['] + c@ + seq![']'],
                None => Seq::<char>::empty(),
            }) + " : "@ + diagnostic.message@ + "\n"@);
            if diagnostic.code is None {
                assert(out@ =~= sev + " : "@ + diagnostic.message@ + "\n"@);
            }
            assert(diagnostic.labels@.subrange(0, 0) =~= Seq::<Label>::empty());
        }
        let mut i: usize = 0;
        while i < diagnostic.labels.len()
            invariant
                render_ready(*source_manager, diagnostic),
                i <= diagnostic.labels@.len(),
                out@.len() > 0,
                sev == severity_text(diagnostic.severity),
                sev.is_prefix_of(out@),
                head == sev + (match diagnostic.code {
                    Some(c) => seq!['['] + c@ + seq![']'],
                    None => Seq::<char>::empty(),
                }) + " : "@ + diagnostic.message@ + "\n"@,
                out@ == head + labels_text(
                    *source_manager,
                    diagnostic.labels@.subrange(0, i as int),
                ),
            decreases diagnostic.labels@.len() - i,
        {
            let ghost pre = out@;
            let label = &diagnostic.labels[i];
            match source_manager.get_file(label.file_id) {
                None => {
                    proof {
                        assert(false);
                    }
                },
                Some(file) => {
                    let ghost l = diagnostic.labels@[i as int];
                    let ghost file_v = source_manager.files@[l.file_id.0 as int];
                    proof {
                        assert(file_v.wf());
                    }
                    append_label(&mut out, file, label);
                    proof {
                        let labels = diagnostic.labels@;
                        assert(out@ == pre + label_text(file_v, l));
                        assert(labels.subrange(0, i + 1).drop_last() =~= labels.subrange(
                            0,
                            i as int,
                        ));
                        assert(labels.subrange(0, i + 1).last() == l);
                    }
                },
            }
            i = i + 1;
            proof {
                assert(sev.is_prefix_of(out@)) by {
                    assert(out@.subrange(0, sev.len() as int) =~= pre.subrange(
                        0,
                        sev.len() as int,
                    ));
                }
            }
        }
        proof {
            assert(diagnostic.labels@.subrange(0, diagnostic.labels@.len() as int)
                =~= diagnostic.labels@);
            assert(diagnostic.notes@.subrange(0, 0) =~= Seq::<String>::empty());
        }
        let mut j: usize = 0;
        while j < diagnostic.notes.len()
            invariant
                j <= diagnostic.notes@.len(),
                out@.len() > 0,
                sev == severity_text(diagnostic.severity),
                sev.is_prefix_of(out@),
                head == sev + (match diagnostic.code {
                    Some(c) => seq!['['] + c@ + seq![']'],
                    None => Seq::<char>::empty(),
                }) + " : "@ + diagnostic.message@ + "\n"@,
                out@ == head + labels_text(*source_manager, diagnostic.labels@) + notes_text(
                    diagnostic.notes@.subrange(0, j as int),
                ),
            decreases diagnostic.notes@.len() - j,
        {
            let ghost pre = out@;
            out.append("note: ");
            out.append(diagnostic.notes[j].as_str());
            push_char(&mut out, '\n');
            j = j + 1;
            proof {
                reveal_strlit("\n");
                let notes = diagnostic.notes@;
                assert(out@ =~= pre + "note: "@ + notes[j - 1]@ + "\n"@);
                assert(notes.subrange(0, j as int).drop_last() =~= notes.subrange(0, j - 1));
                assert(notes.subrange(0, j as int).last() == notes[j - 1]);
                assert(sev.is_prefix_of(out@)) by {
                    assert(out@.subrange(0, sev.len() as int) =~= pre.subrange(
                        0,
                        sev.len() as int,
                    ));
                }
            }
        }
        let ghost pre_help = out@;
        match &diagnostic.help {
            Some(help) => {
                out.append("help: ");
                out.append(help.as_str());
                push_char(&mut out, '\n');
            },
            None => {},
        }
        proof {
            reveal_strlit("\n");
            assert(diagnostic.notes@.subrange(0, diagnostic.notes@.len() as int)
                =~= diagnostic.notes@);
            assert(out@ =~= render_output(*source_manager, diagnostic));
            if diagnostic.code is None && diagnostic.labels@.len() == 0
                && diagnostic.notes@.len() == 0 && diagnostic.help is None {
                assert(out@ =~= sev + " : "@ + diagnostic.message@ + "\n"@);
            }
            assert(sev.is_prefix_of(out@)) by {
                assert(out@.subrange(0, sev.len() as int) =~= pre_help.subrange(
                    0,
                    sev.len() as int,
                ));
            }
        }
        out
    }
}

impl DiagnosticRenderer for PlainDiagnosticRenderer {
    fn render(&self, source_manager: &SourceManager, diagnostic: Diagnostic) -> (r: String) {
        self.render_text(source_manager, diagnostic)
    }
}

} // verus!
