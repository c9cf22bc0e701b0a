//! Diagnostics: a message at a level, the place in a source file it points
//! to, and hints, reported with the offending line and a caret marker.
use vstd::prelude::*;
use crate::error::handler::{spaces, push_spaces};
use crate::lsp::trim_end_at;
use crate::source_location::line_starts;
use crate::style::{blue, bold_blue, bold_red, bold_yellow, green, shown_as};
use crate::text::{decimal, push_decimal, push_str, str_eq, str_to_chars, string_from_range, to_owned_string};

verus! {

/// How serious a diagnostic is.
#[derive(Debug, Clone, Copy, PartialEq, Eq, Structural)]
pub enum DiagnosticLevel {
    Error,
    Warning,
    Info,
}

/// The place a diagnostic points to: file, line and column, and how many
/// characters to mark.
#[derive(Debug, Clone)]
pub struct SourceLocation {
    pub file: String,
    pub line: usize,
    pub column: usize,
    pub length: usize,
}

/// A diagnostic: its level, message, place if any, and hints.
#[derive(Debug)]
pub struct Diagnostic {
    pub level: DiagnosticLevel,
    pub message: String,
    pub location: Option<SourceLocation>,
    pub hints: Vec<String>,
}

/// A source text with the offsets at which its lines begin.
#[derive(Debug)]
pub struct Source {
    content: String,
    lines: Vec<usize>,
}

/// The text of line `line` (from one) of `content`, without its trailing
/// whitespace: from where it begins to where the next line begins, or the end.
pub open spec fn source_line(content: Seq<char>, line: nat) -> Seq<char> {
    let starts = line_starts(content);
    let start = starts[line - 1];
    let end = if line < starts.len() { starts[line as int] } else { content.len() };
    let seg = content.subrange(start as int, end as int);
    seg.subrange(0, trim_end_at(seg, seg.len()) as int)
}

impl Source {
    /// The text.
    pub closed spec fn spec_content(&self) -> Seq<char> {
        self.content@
    }

    /// The line starts are those of the text.
    pub closed spec fn wf(&self) -> bool {
        self.lines@.len() == line_starts(self.content@).len() && forall|i: int|
            0 <= i < self.lines@.len() ==> self.lines@[i] as nat == #[trigger] line_starts(self.content@)[i]
    }

    /// How many lines the text has, as counted by its line starts.
    pub open spec fn line_count(&self) -> nat {
        line_starts(self.spec_content()).len()
    }

    /// A source of the given text.
    pub fn new(content: String) -> (r: Self)
        ensures
            r.wf(),
            r.spec_content() == content@,
    {
        let chars = str_to_chars(content.as_str());
        let ghost s = chars@;
        let mut lines: Vec<usize> = Vec::new();
        lines.push(0);
        let mut i: usize = 0;
        proof {
            assert(s.subrange(0, 0) =~= Seq::<char>::empty());
        }
        while i < chars.len()
            invariant
                s == chars@,
                i <= s.len(),
                lines@.len() == line_starts(s.subrange(0, i as int)).len(),
                forall|k: int| 0 <= k < lines@.len() ==> lines@[k] as nat == #[trigger] line_starts(s.subrange(0, i as int))[k],
            decreases chars.len() - i,
        {
            proof {
                assert(s.subrange(0, i + 1).drop_last() =~= s.subrange(0, i as int));
                assert(s.subrange(0, i + 1).last() == s[i as int]);
            }
            if chars[i] == '\n' {
                lines.push(i + 1);
            }
            i = i + 1;
        }
        proof {
            assert(s.subrange(0, s.len() as int) =~= s);
        }
        Source { content, lines }
    }

    /// Line `line` (from one) without its trailing whitespace.
    pub fn get_line(&self, line: usize) -> (r: String)
        requires
            self.wf(),
            1 <= line <= self.line_count(),
        ensures
            r@ == source_line(self.spec_content(), line as nat),
    {
        let chars = str_to_chars(self.content.as_str());
        let ghost s = chars@;
        proof {
            crate::source_location::lemma_line_starts(s);
        }
        let start = self.lines[line - 1];
        let end = if line < self.lines.len() { self.lines[line] } else { chars.len() };
        proof {
            if line < self.lines@.len() {
                assert(line_starts(s)[line - 1] < line_starts(s)[line as int]);
            }
        }
        let ghost seg = s.subrange(start as int, end as int);
        let mut e = end;
        while e > start && crate::memory::blank(chars[e - 1])
            invariant
                start <= e <= end <= s.len(),
                s == chars@,
                seg == s.subrange(start as int, end as int),
                trim_end_at(seg, (e - start) as nat) == trim_end_at(seg, seg.len()),
            decreases e,
        {
            assert(seg[e - 1 - start] == s[e - 1]);
            e = e - 1;
        }
        proof {
            if e > start {
                assert(seg[e - 1 - start] == s[e - 1]);
            }
            assert(trim_end_at(seg, (e - start) as nat) == e - start);
            assert(seg.subrange(0, (e - start) as int) =~= s.subrange(start as int, e as int));
        }
        string_from_range(&chars, start, e)
    }
}

/// The sources of a build, by path, each path once.
#[derive(Debug)]
pub struct SourceMap {
    sources: Vec<(String, Source)>,
}

/// The index of the source of a path, or -1.
pub open spec fn source_index(v: Seq<(String, Source)>, path: Seq<char>) -> int
    decreases v.len(),
{
    if v.len() == 0 {
        -1
    } else if v.last().0@ == path {
        v.len() - 1
    } else {
        source_index(v.drop_last(), path)
    }
}

proof fn lemma_source_index(v: Seq<(String, Source)>, path: Seq<char>)
    ensures
        -1 <= source_index(v, path) < v.len(),
        source_index(v, path) >= 0 ==> v[source_index(v, path)].0@ == path,
    decreases v.len(),
{
    if v.len() > 0 && v.last().0@ != path {
        lemma_source_index(v.drop_last(), path);
    }
}

impl SourceMap {
    /// The sources, with their paths.
    pub closed spec fn spec_sources(&self) -> Seq<(String, Source)> {
        self.sources@
    }

    /// The text of the source of a path, if any.
    pub open spec fn content_of(&self, path: Seq<char>) -> Option<Seq<char>> {
        let k = source_index(self.spec_sources(), path);
        if k >= 0 {
            Some(self.spec_sources()[k].1.spec_content())
        } else {
            None
        }
    }

    /// Every source is well formed.
    pub open spec fn wf(&self) -> bool {
        forall|i: int| 0 <= i < self.spec_sources().len() ==> (#[trigger] self.spec_sources()[i]).1.wf()
    }

    /// An empty map.
    pub fn new() -> (r: Self)
        ensures
            r.wf(),
            forall|p: Seq<char>| #[trigger] r.content_of(p) is None,
    {
        SourceMap { sources: Vec::new() }
    }

    fn find(&self, path: &str) -> (r: Option<usize>)
        ensures
            match r {
                Some(i) => i as int == source_index(self.spec_sources(), path@) && i < self.spec_sources().len(),
                None => source_index(self.spec_sources(), path@) == -1,
            },
    {
        let ghost v = self.spec_sources();
        proof {
            assert(v.subrange(0, v.len() as int) =~= v);
        }
        let mut i: usize = self.sources.len();
        while i > 0
            invariant
                i <= v.len(),
                v == self.spec_sources(),
                source_index(v, path@) == source_index(v.subrange(0, i as int), path@),
            decreases i,
        {
            let ghost pre = v.subrange(0, i as int);
            if str_eq(self.sources[i - 1].0.as_str(), path) {
                proof {
                    assert(pre.last() == v[i - 1]);
                }
                return Some(i - 1);
            }
            proof {
                assert(pre.drop_last() =~= v.subrange(0, i - 1));
            }
            i = i - 1;
        }
        None
    }

    /// Adds the text of a path; a path already added has its text replaced.
    pub fn add_file(&mut self, path: String, content: String)
        requires
            old(self).wf(),
        ensures
            final(self).wf(),
            final(self).content_of(path@) == Some(content@),
            forall|p: Seq<char>| p != path@ ==> #[trigger] final(self).content_of(p) == old(self).content_of(p),
    {
        let src = Source::new(content);
        match self.find(path.as_str()) {
            Some(i) => {
                let ghost before = self.spec_sources();
                proof {
                    lemma_source_index(before, path@);
                }
                let _ = self.sources.remove(i);
                self.sources.insert(i, (path, src));
                proof {
                    let after = self.spec_sources();
                    assert(after =~= before.update(i as int, after[i as int]));
                    assert forall|p: Seq<char>| #[trigger] source_index(after, p) == source_index(before, p) by {
                        lemma_same_keys(before, after, p);
                    }
                    assert forall|p: Seq<char>| p != path@ implies #[trigger] self.content_of(p) == old(self).content_of(p) by {
                        lemma_same_keys(before, after, p);
                        lemma_source_index(before, p);
                        let k = source_index(before, p);
                        if k >= 0 {
                            assert(k != i);
                            assert(after[k] == before[k]);
                        }
                    }
                }
            },
            None => {
                let ghost before = self.spec_sources();
                let ghost key = path@;
                self.sources.push((path, src));
                proof {
                    let after = self.spec_sources();
                    assert(after.drop_last() =~= before);
                    assert forall|p: Seq<char>| p != path@ implies #[trigger] self.content_of(p) == old(self).content_of(p) by {
                        lemma_source_index(before, p);
                        let k = source_index(before, p);
                        assert(source_index(after, p) == k);
                        if k >= 0 {
                            assert(after[k] == before[k]);
                        }
                    }
                }
            },
        }
    }

    /// The source of a path, if it was added.
    pub fn get_source(&self, path: &str) -> (r: Option<&Source>)
        requires
            self.wf(),
        ensures
            match self.content_of(path@) {
                Some(c) => r matches Some(s) && s.spec_content() == c && s.wf(),
                None => r is None,
            },
    {
        match self.find(path) {
            Some(i) => {
                proof {
                    lemma_source_index(self.spec_sources(), path@);
                }
                Some(&self.sources[i].1)
            },
            None => None,
        }
    }
}

/// Replacing an entry by one of the same key changes no lookup.
proof fn lemma_same_keys(a: Seq<(String, Source)>, b: Seq<(String, Source)>, p: Seq<char>)
    requires
        a.len() == b.len(),
        forall|i: int| 0 <= i < a.len() ==> (#[trigger] a[i]).0@ == b[i].0@,
    ensures
        source_index(b, p) == source_index(a, p),
    decreases a.len(),
{
    if a.len() > 0 {
        lemma_same_keys(a.drop_last(), b.drop_last(), p);
    }
}

/// A line number right-aligned in a field of three characters.
pub open spec fn right_align3(d: Seq<char>) -> Seq<char> {
    if d.len() < 3 {
        spaces((3 - d.len()) as nat) + d
    } else {
        d
    }
}

/// Each hint on a line of its own after "help: ".
pub open spec fn hints_text(hs: Seq<Seq<char>>) -> Seq<char>
    decreases hs.len(),
{
    if hs.len() == 0 {
        Seq::empty()
    } else {
        hints_text(hs.drop_last()) + "\nhelp: "@ + hs.last()
    }
}

/// The lines that show where a diagnostic points: the place, the line of
/// source with its number, and the marker under it.
pub open spec fn location_text(loc: SourceLocation, content: Seq<char>, carets: Seq<char>) -> Seq<char> {
    " --> "@ + loc.file@ + ":"@ + decimal(loc.line as nat) + ":"@ + decimal(loc.column as nat) + "\n"@ + "  |\n"@
        + right_align3(decimal(loc.line as nat)) + " | "@ + source_line(content, loc.line as nat) + "\n"@ + "  | "@
        + spaces(loc.column as nat) + carets
}

/// The report of a diagnostic, given its styled level, marker and hints: the
/// level and message; where it points, when its file is in the map; the hints.
pub open spec fn report_text(
    d: Diagnostic,
    m: SourceMap,
    prefix: Seq<char>,
    carets: Seq<char>,
    hints: Seq<Seq<char>>,
) -> Seq<char> {
    prefix + ": "@ + d.message@ + "\n"@ + match d.location {
        Some(l) => match m.content_of(l.file@) {
            Some(c) => location_text(l, c, carets),
            None => Seq::empty(),
        },
        None => Seq::empty(),
    } + hints_text(hints)
}

/// The word that names a level in a report.
pub open spec fn level_word(level: DiagnosticLevel) -> Seq<char> {
    match level {
        DiagnosticLevel::Error => "error"@,
        DiagnosticLevel::Warning => "warning"@,
        DiagnosticLevel::Info => "info"@,
    }
}

/// A run of `n` markers.
pub open spec fn caret_run(n: nat) -> Seq<char> {
    Seq::new(n, |i: int| '^')
}

/// The line a diagnostic points to is a line of its source.
pub open spec fn points_within(d: Diagnostic, m: SourceMap) -> bool {
    d.location matches Some(l) && m.content_of(l.file@) matches Some(c) ==> 1 <= l.line <= line_starts(c).len()
}

impl Diagnostic {
    /// An error with the message, no place and no hint.
    pub fn error(message: &str) -> (r: Self)
        ensures
            r.level == DiagnosticLevel::Error,
            r.message@ == message@,
            r.location is None,
            r.hints@.len() == 0,
    {
        Diagnostic { level: DiagnosticLevel::Error, message: to_owned_string(message), location: None, hints: Vec::new() }
    }

    /// The diagnostic, pointing to the place.
    pub fn with_location(self, location: SourceLocation) -> (r: Self)
        ensures
            r == (Diagnostic { location: Some(location), ..self }),
    {
        Diagnostic { location: Some(location), ..self }
    }

    /// The diagnostic with one more hint.
    pub fn with_hint(self, hint: &str) -> (r: Self)
        ensures
            r.level == self.level,
            r.message == self.message,
            r.location == self.location,
            r.hints@.len() == self.hints@.len() + 1,
            r.hints@.drop_last() == self.hints@,
            r.hints@.last()@ == hint@,
    {
        let mut d = self;
        d.hints.push(to_owned_string(hint));
        assert(d.hints@.drop_last() =~= self.hints@);
        d
    }

    /// The report, given the styled level, marker and hints, as
    /// [`report_text`] says.
    #[verifier::spinoff_prover]
    #[verifier::rlimit(40)]
    pub fn compose_report(&self, source_map: &SourceMap, prefix: &str, carets: &str, hints: &Vec<String>) -> (r:
        String)
        requires
            source_map.wf(),
            points_within(*self, *source_map),
        ensures
            r@ == report_text(*self, *source_map, prefix@, carets@, crate::error::handler::strings_view(hints@)),
    {
        let mut out = to_owned_string(prefix);
        push_str(&mut out, ": ");
        push_str(&mut out, self.message.as_str());
        push_str(&mut out, "\n");
        let ghost head = out@;
        match &self.location {
            Some(l) => match source_map.get_source(l.file.as_str()) {
                Some(src) => {
                    push_str(&mut out, " --> ");
                    push_str(&mut out, l.file.as_str());
                    push_str(&mut out, ":");
                    push_decimal(&mut out, l.line);
                    push_str(&mut out, ":");
                    push_decimal(&mut out, l.column);
                    push_str(&mut out, "\n");
                    push_str(&mut out, "  |\n");
                    let mut num = String::new();
                    push_decimal(&mut num, l.line);
                    let nc = str_to_chars(num.as_str());
                    if nc.len() < 3 {
                        push_spaces(&mut out, 3 - nc.len());
                    }
                    push_str(&mut out, num.as_str());
                    push_str(&mut out, " | ");
                    let line = src.get_line(l.line);
                    push_str(&mut out, line.as_str());
                    push_str(&mut out, "\n");
                    push_str(&mut out, "  | ");
                    push_spaces(&mut out, l.column);
                    push_str(&mut out, carets);
                    proof {
                        assert(out@ =~= head + location_text(*l, src.spec_content(), carets@));
                    }
                },
                None => {},
            },
            None => {},
        }
        let ghost mid = out@;
        let mut i: usize = 0;
        proof {
            assert(crate::error::handler::strings_view(hints@).subrange(0, 0) =~= Seq::<Seq<char>>::empty());
            assert(out@ =~= mid + hints_text(crate::error::handler::strings_view(hints@).subrange(0, 0)));
        }
        while i < hints.len()
            invariant
                i <= hints@.len(),
                out@ == mid + hints_text(crate::error::handler::strings_view(hints@).subrange(0, i as int)),
            decreases hints.len() - i,
        {
            let ghost hv = crate::error::handler::strings_view(hints@);
            proof {
                assert(hv.subrange(0, i + 1).drop_last() =~= hv.subrange(0, i as int));
                assert(hv.subrange(0, i + 1).last() == hints@[i as int]@);
            }
            push_str(&mut out, "\nhelp: ");
            push_str(&mut out, hints[i].as_str());
            proof {
                assert(out@ =~= mid + hints_text(hv.subrange(0, i + 1)));
            }
            i = i + 1;
        }
        proof {
            assert(crate::error::handler::strings_view(hints@).subrange(0, hints@.len() as int) =~= crate::error::handler::strings_view(hints@));
        }
        out
    }

    /// The report of the diagnostic, styled for a terminal: the level in bold
    /// red, yellow or blue, the marker in green, the hints in blue, laid out as
    /// [`report_text`] says.
    pub fn report(&self, source_map: &SourceMap) -> (r: String)
        requires
            source_map.wf(),
            points_within(*self, *source_map),
        ensures
            exists|p: Seq<char>, c: Seq<char>, hs: Seq<Seq<char>>|
                {
                    &&& shown_as(p, level_word(self.level))
                    &&& match self.location {
                        Some(l) => shown_as(c, caret_run(l.length as nat)),
                        None => c == Seq::<char>::empty(),
                    }
                    &&& hs.len() == self.hints@.len()
                    &&& forall|i: int| 0 <= i < hs.len() ==> shown_as(#[trigger] hs[i], self.hints@[i]@)
                    &&& r@ == report_text(*self, *source_map, p, c, hs)
                },
    {
        let prefix = match self.level {
            DiagnosticLevel::Error => bold_red("error"),
            DiagnosticLevel::Warning => bold_yellow("warning"),
            DiagnosticLevel::Info => bold_blue("info"),
        };
        let carets = match &self.location {
            Some(l) => {
                let mut c = String::new();
                let mut k: usize = 0;
                proof {
                    reveal_strlit("^");
                    assert(c@ =~= caret_run(0));
                }
                while k < l.length
                    invariant
                        k <= l.length,
                        c@ == caret_run(k as nat),
                    decreases l.length - k,
                {
                    push_str(&mut c, "^");
                    proof {
                        reveal_strlit("^");
                        assert(c@ =~= caret_run((k + 1) as nat));
                    }
                    k = k + 1;
                }
                green(c.as_str())
            },
            None => String::new(),
        };
        let mut hints: Vec<String> = Vec::new();
        let mut i: usize = 0;
        while i < self.hints.len()
            invariant
                i <= self.hints@.len(),
                hints@.len() == i,
                forall|k: int| 0 <= k < i ==> shown_as((#[trigger] hints@[k])@, self.hints@[k]@),
            decreases self.hints.len() - i,
        {
            hints.push(blue(self.hints[i].as_str()));
            i = i + 1;
        }
        let r = self.compose_report(source_map, prefix.as_str(), carets.as_str(), &hints);
        assert(crate::error::handler::strings_view(hints@).len() == self.hints@.len());
        assert forall|k: int| 0 <= k < hints@.len() implies shown_as(
            #[trigger] crate::error::handler::strings_view(hints@)[k],
            self.hints@[k]@,
        ) by {
            assert(crate::error::handler::strings_view(hints@)[k] == hints@[k]@);
        }
        r
    }
}

} // verus!
