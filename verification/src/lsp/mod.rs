//! What the language server decides: how source is formatted, which symbols a
//! document defines, what completion, hover and quick fixes offer. The server
//! itself, which speaks the protocol, hands these plain values back and forth.
use vstd::prelude::*;
use crate::ast::{ASTNode, NodeView};
use crate::error::IoError;
use crate::error::handler::{lines_of, split_lines, spaces, push_spaces};
use crate::memory::{is_blank, skip_blank, word_end, starts_with, skip_blank_from, word_end_from, lemma_skip_blank, lemma_word_end};
use crate::text::{push_str, str_to_chars, to_owned_string, string_from_range};

verus! {

/// The index just past the last character before `j` that is not
/// whitespace, or zero.
pub open spec fn trim_end_at(s: Seq<char>, j: nat) -> nat
    decreases j,
{
    if j == 0 || j > s.len() {
        0
    } else if is_blank(s[j - 1]) {
        trim_end_at(s, (j - 1) as nat)
    } else {
        j
    }
}

/// A line without its leading and trailing whitespace.
pub open spec fn trim(s: Seq<char>) -> Seq<char> {
    let a = skip_blank(s, 0);
    let b = trim_end_at(s, s.len());
    if a >= b {
        Seq::empty()
    } else {
        s.subrange(a as int, b as int)
    }
}

/// A line of closing braces only.
pub open spec fn all_close(t: Seq<char>) -> bool {
    t.len() > 0 && forall|i: int| 0 <= i < t.len() ==> t[i] == '}'
}

/// A line that begins with a closing brace.
pub open spec fn starts_close(t: Seq<char>) -> bool {
    t.len() > 0 && t[0] == '}'
}

/// A line that ends with an opening brace.
pub open spec fn opens(t: Seq<char>) -> bool {
    t.len() > 0 && t.last() == '{'
}

/// A line that begins a control structure: `if`, `for` or `while` and a space.
pub open spec fn control_kw(t: Seq<char>) -> bool {
    starts_with(t, "if "@) || starts_with(t, "for "@) || starts_with(t, "while "@)
}

/// The length of the keyword, with its space, that begins a control line.
pub open spec fn keyword_len(t: Seq<char>) -> nat {
    if starts_with(t, "if "@) {
        3
    } else if starts_with(t, "for "@) {
        4
    } else {
        6
    }
}

/// A one-line control structure split into its head (the keyword and the
/// word after it) and the statement that follows, when there is one.
pub open spec fn split_control(t: Seq<char>) -> Option<(Seq<char>, Seq<char>)> {
    let k = keyword_len(t);
    let e = word_end(t, k);
    let r = skip_blank(t, e);
    if e > k && r < t.len() {
        Some((t.subrange(0, e as int), t.subrange(r as int, t.len() as int)))
    } else {
        None
    }
}

/// `a - b`, or zero.
pub open spec fn sat_sub(a: nat, b: nat) -> nat {
    if a >= b {
        (a - b) as nat
    } else {
        0
    }
}

/// The indentation of a level: four spaces each.
pub open spec fn indent_text(level: nat) -> Seq<char> {
    spaces(4 * level)
}

/// `k` closing braces, one per line, each a level further out.
pub open spec fn closing_run(level: nat, k: nat) -> Seq<char>
    decreases k,
{
    if k == 0 {
        Seq::empty()
    } else {
        indent_text(sat_sub(level, 1)) + "}\n"@ + closing_run(sat_sub(level, 1), (k - 1) as nat)
    }
}

/// The level a trimmed line is written at: a level out when it begins with
/// a closing brace.
pub open spec fn line_indent(t: Seq<char>, level: nat) -> nat {
    if starts_close(t) {
        sat_sub(level, 1)
    } else {
        level
    }
}

/// What a trimmed line becomes at an indentation level: nothing when empty;
/// a line of closing braces puts each on a line of its own, a level further
/// out each; a control line with its statement on the same line has the
/// statement put on the next line, a level in; any other line is indented.
pub open spec fn line_output(t: Seq<char>, level: nat) -> Seq<char> {
    if all_close(t) {
        closing_run(level, t.len())
    } else {
        let ind = line_indent(t, level);
        if control_kw(t) && !opens(t) && split_control(t) is Some {
            let (h, r) = split_control(t)->Some_0;
            indent_text(ind) + h + "\n"@ + indent_text(ind + 1) + r + "\n"@
        } else if t.len() > 0 {
            indent_text(ind) + t + "\n"@
        } else {
            Seq::empty()
        }
    }
}

/// The level after a trimmed line: out by each closing brace of a line of
/// them; otherwise the line's own level, in by one when it ends with an
/// opening brace or is a control line without one.
pub open spec fn line_level(t: Seq<char>, level: nat) -> nat {
    if all_close(t) {
        sat_sub(level, t.len())
    } else {
        line_indent(t, level) + (if opens(t) { 1nat } else { 0nat }) + (if control_kw(t) && !opens(t) {
            1nat
        } else {
            0nat
        })
    }
}

/// The formatted text of the lines from the `i`-th on, at an indentation
/// level, each line trimmed first.
pub open spec fn format_from(lines: Seq<Seq<char>>, i: nat, level: nat) -> Seq<char>
    decreases lines.len() - i,
{
    if i >= lines.len() {
        Seq::empty()
    } else {
        let t = trim(lines[i as int]);
        line_output(t, level) + format_from(lines, i + 1, line_level(t, level))
    }
}

/// The formatted text of source code.
pub open spec fn formatted(code: Seq<char>) -> Seq<char> {
    format_from(lines_of(code), 0, 0)
}

proof fn lemma_trim_end(s: Seq<char>, j: nat)
    requires
        j <= s.len(),
    ensures
        trim_end_at(s, j) <= j,
        trim_end_at(s, j) > 0 ==> !is_blank(s[trim_end_at(s, j) - 1]),
    decreases j,
{
    if j > 0 && is_blank(s[j - 1]) {
        lemma_trim_end(s, (j - 1) as nat);
    }
}

fn trim_end_from(l: &Vec<char>, j: usize) -> (r: usize)
    requires
        j <= l@.len(),
    ensures
        r == trim_end_at(l@, j as nat),
{
    let mut k = j;
    while k > 0 && crate::memory::blank(l[k - 1])
        invariant
            k <= j <= l@.len(),
            trim_end_at(l@, k as nat) == trim_end_at(l@, j as nat),
        decreases k,
    {
        k = k - 1;
    }
    k
}

/// The trimmed line as characters.
fn trim_chars(l: &Vec<char>) -> (r: Vec<char>)
    ensures
        r@ == trim(l@),
{
    let a = skip_blank_from(l, 0);
    let b = trim_end_from(l, l.len());
    let mut out: Vec<char> = Vec::new();
    if a >= b {
        assert(out@ =~= trim(l@));
        return out;
    }
    proof {
        lemma_skip_blank(l@, 0);
        lemma_trim_end(l@, l@.len());
    }
    let mut k = a;
    while k < b
        invariant
            a <= k <= b <= l@.len(),
            out@ == l@.subrange(a as int, k as int),
        decreases b - k,
    {
        out.push(l[k]);
        k = k + 1;
        assert(out@ =~= l@.subrange(a as int, k as int));
    }
    out
}

fn chars_start_with(t: &Vec<char>, p: &str) -> (r: bool)
    ensures
        r == starts_with(t@, p@),
{
    let pc = str_to_chars(p);
    if pc.len() > t.len() {
        return false;
    }
    let mut k: usize = 0;
    while k < pc.len()
        invariant
            pc@ == p@,
            pc@.len() <= t@.len(),
            k <= pc@.len(),
            forall|j: int| 0 <= j < k ==> t@[j] == pc@[j],
        decreases pc.len() - k,
    {
        if t[k] != pc[k] {
            assert(t@.subrange(0, pc@.len() as int)[k as int] != pc@[k as int]);
            return false;
        }
        k = k + 1;
    }
    assert(t@.subrange(0, pc@.len() as int) =~= pc@);
    true
}

fn push_chars(s: &mut String, c: &Vec<char>, a: usize, b: usize)
    requires
        a <= b <= c@.len(),
    ensures
        final(s)@ == old(s)@ + c@.subrange(a as int, b as int),
{
    let mut k = a;
    while k < b
        invariant
            a <= k <= b <= c@.len(),
            s@ == old(s)@ + c@.subrange(a as int, k as int),
        decreases b - k,
    {
        crate::text::push_char(s, c[k]);
        k = k + 1;
        assert(s@ =~= old(s)@ + c@.subrange(a as int, k as int));
    }
}

fn push_indent(s: &mut String, level: usize)
    ensures
        final(s)@ == old(s)@ + indent_text(level as nat),
{
    let mut k: usize = 0;
    while k < level
        invariant
            k <= level,
            s@ == old(s)@ + spaces(4 * k as nat),
        decreases level - k,
    {
        push_spaces(s, 4);
        proof {
            assert(spaces(4 * k as nat) + spaces(4) =~= spaces(4 * (k + 1) as nat));
        }
        k = k + 1;
    }
}

/// Writes one trimmed line at a level, as [`line_output`] says, and returns
/// the level after it.
fn format_line(t: &Vec<char>, level: usize, out: &mut String) -> (r: usize)
    requires
        level < usize::MAX,
    ensures
        final(out)@ == old(out)@ + line_output(t@, level as nat),
        r == line_level(t@, level as nat),
        r <= level + 1,
{
    let ghost tv = t@;
    let n = t.len();
    let mut all: bool = n > 0;
    let mut q: usize = 0;
    while q < n
        invariant
            n == t@.len(),
            q <= n,
            all == (n > 0 && forall|j: int| 0 <= j < q ==> t@[j] == '}'),
        decreases n - q,
    {
        if t[q] != '}' {
            all = false;
        }
        q = q + 1;
    }
    if all {
        proof {
            assert(all_close(tv));
        }
        return write_closing(n, level, out);
    }
    proof {
        assert(!all_close(tv));
    }
    write_line(t, level, out)
}

/// Writes `n` closing braces, one per line, each a level further out, and
/// returns the level after them.
fn write_closing(n: usize, level: usize, out: &mut String) -> (r: usize)
    ensures
        final(out)@ == old(out)@ + closing_run(level as nat, n as nat),
        r == sat_sub(level as nat, n as nat),
{
    let ghost level0 = level as nat;
    let mut lv = level;
    let mut c: usize = 0;
    proof {
        assert(out@ + closing_run(lv as nat, (n - c) as nat) =~= old(out)@ + closing_run(level0, n as nat));
    }
    while c < n
        invariant
            c <= n,
            lv <= level0,
            lv == sat_sub(level0, c as nat),
            out@ + closing_run(lv as nat, (n - c) as nat) == old(out)@ + closing_run(level0, n as nat),
        decreases n - c,
    {
        let next: usize = if lv > 0 { lv - 1 } else { 0 };
        let ghost pre = out@;
        push_indent(out, next);
        push_str(out, "}\n");
        proof {
            assert(closing_run(lv as nat, (n - c) as nat) == indent_text(next as nat) + "}\n"@ + closing_run(
                next as nat,
                (n - c - 1) as nat,
            ));
            assert(out@ + closing_run(next as nat, (n - c - 1) as nat) =~= pre + closing_run(lv as nat, (n - c) as nat));
        }
        lv = next;
        c = c + 1;
    }
    proof {
        assert(out@ =~= old(out)@ + closing_run(level0, n as nat));
    }
    lv
}

/// Writes a trimmed line that is not a run of closing braces, and returns the
/// level after it.
#[verifier::rlimit(40)]
fn write_line(t: &Vec<char>, level: usize, out: &mut String) -> (r: usize)
    requires
        level < usize::MAX,
        !all_close(t@),
    ensures
        final(out)@ == old(out)@ + line_output(t@, level as nat),
        r == line_level(t@, level as nat),
        r <= level + 1,
{
    let ghost tv = t@;
    let n = t.len();
    let sc = n > 0 && t[0] == '}';
    let ind: usize = if sc && level > 0 { level - 1 } else if sc { 0 } else { level };
    let control = chars_start_with(t, "if ") || chars_start_with(t, "for ") || chars_start_with(t, "while ");
    let op = n > 0 && t[n - 1] == '{';
    if control && !op {
        let k: usize = if chars_start_with(t, "if ") { 3 } else if chars_start_with(t, "for ") { 4 } else { 6 };
        proof {
            reveal_strlit("if ");
            reveal_strlit("for ");
            reveal_strlit("while ");
            assert(k as nat == keyword_len(tv));
        }
        let e = word_end_from(t, k);
        proof {
            lemma_word_end(tv, k as nat);
        }
        let r = skip_blank_from(t, e);
        proof {
            lemma_skip_blank(tv, e as nat);
        }
        if e > k && r < n {
            push_indent(out, ind);
            push_chars(out, t, 0, e);
            push_str(out, "\n");
            push_indent(out, ind + 1);
            push_chars(out, t, r, n);
            push_str(out, "\n");
            proof {
                assert(out@ =~= old(out)@ + line_output(tv, level as nat));
            }
            return ind + 1;
        }
    }
    if n > 0 {
        push_indent(out, ind);
        push_chars(out, t, 0, n);
        push_str(out, "\n");
        proof {
            assert(tv.subrange(0, n as int) =~= tv);
            assert(out@ =~= old(out)@ + line_output(tv, level as nat));
        }
    } else {
        assert(old(out)@ + line_output(tv, level as nat) =~= old(out)@);
    }
    ind + (if op { 1 } else { 0 }) + (if control && !op { 1 } else { 0 })
}

/// Formats source code, as [`formatted`] says.
pub fn format_code(code: &str) -> (r: Result<String, IoError>)
    ensures
        r matches Ok(s) && s@ == formatted(code@),
{
    let lines = split_lines(code);
    let ghost ls = lines_of(code@);
    let mut out = String::new();
    let mut level: usize = 0;
    let mut i: usize = 0;
    proof {
        assert(out@ + format_from(ls, 0, 0) =~= formatted(code@));
    }
    while i < lines.len()
        invariant
            lines@.len() == ls.len(),
            forall|k: int| 0 <= k < lines@.len() ==> #[trigger] lines@[k]@ == ls[k],
            i <= lines@.len(),
            level <= i,
            out@ + format_from(ls, i as nat, level as nat) == formatted(code@),
        decreases lines.len() - i,
    {
        let l = str_to_chars(lines[i].as_str());
        let t = trim_chars(&l);
        proof {
            assert(l@ == ls[i as int]);
        }
        let ghost pre = out@;
        let ghost lv0 = level as nat;
        level = format_line(&t, level, &mut out);
        proof {
            assert(out@ + format_from(ls, (i + 1) as nat, level as nat) =~= pre + format_from(ls, i as nat, lv0));
        }
        i = i + 1;
    }
    Ok(out)
}

/// A place in a document: line and character, both from zero.
#[derive(Debug, Clone, Copy, PartialEq, Eq, Structural)]
pub struct Position {
    pub line: u32,
    pub character: u32,
}

/// Position `a` does not come after `b`: by line, then by character.
pub open spec fn pos_le(a: Position, b: Position) -> bool {
    a.line < b.line || (a.line == b.line && a.character <= b.character)
}

/// A stretch of a document, from its start to its end.
#[derive(Debug, Clone, Copy, PartialEq, Eq, Structural)]
pub struct Range {
    pub start: Position,
    pub end: Position,
}

/// The kinds of symbol the protocol names.
#[derive(Debug, Clone, Copy, PartialEq, Eq, Structural)]
pub enum SymbolKind {
    File,
    Module,
    Namespace,
    Package,
    Class,
    Method,
    Property,
    Field,
    Constructor,
    Enum,
    Interface,
    Function,
    Variable,
    Constant,
    String,
    Number,
    Boolean,
    Array,
    Object,
    Key,
    Null,
    EnumMember,
    Struct,
    Event,
    Operator,
    TypeParameter,
}

/// The name of a kind of symbol.
pub open spec fn kind_name(k: SymbolKind) -> Seq<char> {
    match k {
        SymbolKind::File => "File"@,
        SymbolKind::Module => "Module"@,
        SymbolKind::Namespace => "Namespace"@,
        SymbolKind::Package => "Package"@,
        SymbolKind::Class => "Class"@,
        SymbolKind::Method => "Method"@,
        SymbolKind::Property => "Property"@,
        SymbolKind::Field => "Field"@,
        SymbolKind::Constructor => "Constructor"@,
        SymbolKind::Enum => "Enum"@,
        SymbolKind::Interface => "Interface"@,
        SymbolKind::Function => "Function"@,
        SymbolKind::Variable => "Variable"@,
        SymbolKind::Constant => "Constant"@,
        SymbolKind::String => "String"@,
        SymbolKind::Number => "Number"@,
        SymbolKind::Boolean => "Boolean"@,
        SymbolKind::Array => "Array"@,
        SymbolKind::Object => "Object"@,
        SymbolKind::Key => "Key"@,
        SymbolKind::Null => "Null"@,
        SymbolKind::EnumMember => "EnumMember"@,
        SymbolKind::Struct => "Struct"@,
        SymbolKind::Event => "Event"@,
        SymbolKind::Operator => "Operator"@,
        SymbolKind::TypeParameter => "TypeParameter"@,
    }
}

impl SymbolKind {
    /// The name of the kind.
    pub fn name(&self) -> (r: &'static str)
        ensures
            r@ == kind_name(*self),
    {
        let r = match self {
            SymbolKind::File => "File",
            SymbolKind::Module => "Module",
            SymbolKind::Namespace => "Namespace",
            SymbolKind::Package => "Package",
            SymbolKind::Class => "Class",
            SymbolKind::Method => "Method",
            SymbolKind::Property => "Property",
            SymbolKind::Field => "Field",
            SymbolKind::Constructor => "Constructor",
            SymbolKind::Enum => "Enum",
            SymbolKind::Interface => "Interface",
            SymbolKind::Function => "Function",
            SymbolKind::Variable => "Variable",
            SymbolKind::Constant => "Constant",
            SymbolKind::String => "String",
            SymbolKind::Number => "Number",
            SymbolKind::Boolean => "Boolean",
            SymbolKind::Array => "Array",
            SymbolKind::Object => "Object",
            SymbolKind::Key => "Key",
            SymbolKind::Null => "Null",
            SymbolKind::EnumMember => "EnumMember",
            SymbolKind::Struct => "Struct",
            SymbolKind::Event => "Event",
            SymbolKind::Operator => "Operator",
            SymbolKind::TypeParameter => "TypeParameter",
        };
        proof {
            reveal_strlit("File");
        }
        r
    }
}

/// A symbol a document defines: its name, kind, document and place.
#[derive(Debug)]
pub struct SymbolInformation {
    pub name: String,
    pub kind: SymbolKind,
    pub uri: String,
    pub range: Range,
}

/// How serious a diagnostic is.
#[derive(Debug, Clone, Copy, PartialEq, Eq, Structural)]
pub enum DiagnosticSeverity {
    Error,
    Warning,
    Information,
    Hint,
}

/// A problem reported at a place of a document.
#[derive(Debug)]
pub struct Diagnostic {
    pub range: Range,
    pub severity: Option<DiagnosticSeverity>,
    pub message: String,
}

/// A quick fix offered for a diagnostic: its title, whether it is the one to
/// prefer, and the diagnostic it fixes.
#[derive(Debug)]
pub struct CodeAction {
    pub title: String,
    pub is_preferred: bool,
    pub diagnostic: Diagnostic,
}

/// A function offered for completion: its name and what it is.
#[derive(Debug)]
pub struct CompletionItem {
    pub label: String,
    pub detail: String,
}

/// The origin, where symbols are placed until their definitions are located.
pub open spec fn origin() -> Range {
    Range { start: Position { line: 0, character: 0 }, end: Position { line: 0, character: 0 } }
}

/// Records the symbol a tree defines: a function, by name.
pub fn collect_symbols(ast: &ASTNode, symbols: &mut Vec<SymbolInformation>) -> (r: Result<(), IoError>)
    ensures
        r is Ok,
        ast@ is Function ==> final(symbols)@.len() == old(symbols)@.len() + 1 && final(symbols)@.drop_last()
            == old(symbols)@ && ({
            let s = final(symbols)@.last();
            &&& ast@ matches NodeView::Function { name, .. } && s.name@ == name
            &&& s.kind == SymbolKind::Function
            &&& s.uri@ == "file:///"@
            &&& s.range == origin()
        }),
        !(ast@ is Function) ==> final(symbols)@ == old(symbols)@,
{
    match ast {
        ASTNode::Function { name, .. } => {
            symbols.push(
                SymbolInformation {
                    name: name.clone(),
                    kind: SymbolKind::Function,
                    uri: to_owned_string("file:///"),
                    range: Range { start: Position { line: 0, character: 0 }, end: Position { line: 0, character: 0 } },
                },
            );
            assert(symbols@.drop_last() =~= old(symbols)@);
        },
        _ => {},
    }
    Ok(())
}

/// The quick fix for a diagnostic: for an error, "Fix error", preferred; for
/// a warning, "Fix warning", not preferred; none otherwise.
pub fn create_quick_fix(diagnostic: &Diagnostic) -> (r: Option<CodeAction>)
    ensures
        diagnostic.severity == Some(DiagnosticSeverity::Error) ==> (r matches Some(a) && a.title@ == "Fix error"@
            && a.is_preferred && a.diagnostic.range == diagnostic.range && a.diagnostic.severity == diagnostic.severity
            && a.diagnostic.message@ == diagnostic.message@),
        diagnostic.severity == Some(DiagnosticSeverity::Warning) ==> (r matches Some(a) && a.title@ == "Fix warning"@
            && !a.is_preferred && a.diagnostic.range == diagnostic.range && a.diagnostic.severity
            == diagnostic.severity && a.diagnostic.message@ == diagnostic.message@),
        diagnostic.severity != Some(DiagnosticSeverity::Error) && diagnostic.severity != Some(
            DiagnosticSeverity::Warning,
        ) ==> r is None,
{
    let copy = Diagnostic {
        range: diagnostic.range,
        severity: diagnostic.severity,
        message: diagnostic.message.clone(),
    };
    match diagnostic.severity {
        Some(DiagnosticSeverity::Error) => Some(
            CodeAction { title: to_owned_string("Fix error"), is_preferred: true, diagnostic: copy },
        ),
        Some(DiagnosticSeverity::Warning) => Some(
            CodeAction { title: to_owned_string("Fix warning"), is_preferred: false, diagnostic: copy },
        ),
        _ => None,
    }
}

/// Two ranges share a position.
pub open spec fn ranges_meet(a: Range, b: Range) -> bool {
    pos_le(a.start, b.end) && pos_le(b.start, a.end)
}

fn le(a: Position, b: Position) -> (r: bool)
    ensures
        r == pos_le(a, b),
{
    a.line < b.line || (a.line == b.line && a.character <= b.character)
}

/// The quick fix a diagnostic gets, as title and whether it is preferred.
pub open spec fn fix_of(d: Diagnostic) -> Option<(Seq<char>, bool)> {
    match d.severity {
        Some(DiagnosticSeverity::Error) => Some(("Fix error"@, true)),
        Some(DiagnosticSeverity::Warning) => Some(("Fix warning"@, false)),
        _ => None,
    }
}

/// The quick fixes, as title, preference and the range fixed, for the
/// diagnostics that meet a range, in order.
pub open spec fn actions_for(ds: Seq<Diagnostic>, range: Range) -> Seq<(Seq<char>, bool, Range)>
    decreases ds.len(),
{
    if ds.len() == 0 {
        Seq::empty()
    } else {
        let rest = actions_for(ds.drop_last(), range);
        let d = ds.last();
        if ranges_meet(range, d.range) && fix_of(d) is Some {
            rest.push((fix_of(d)->Some_0.0, fix_of(d)->Some_0.1, d.range))
        } else {
            rest
        }
    }
}

/// The quick fixes for the diagnostics that meet a range, in order.
pub fn code_actions(diagnostics: &Vec<Diagnostic>, range: Range) -> (r: Vec<CodeAction>)
    ensures
        r@.len() == actions_for(diagnostics@, range).len(),
        forall|k: int| 0 <= k < r@.len() ==> ((#[trigger] r@[k]).title@, r@[k].is_preferred, r@[k].diagnostic.range)
            == actions_for(diagnostics@, range)[k],
{
    let mut out: Vec<CodeAction> = Vec::new();
    let mut i: usize = 0;
    while i < diagnostics.len()
        invariant
            i <= diagnostics@.len(),
            out@.len() == actions_for(diagnostics@.subrange(0, i as int), range).len(),
            forall|k: int| 0 <= k < out@.len() ==> ((#[trigger] out@[k]).title@, out@[k].is_preferred, out@[k].diagnostic.range)
                == actions_for(diagnostics@.subrange(0, i as int), range)[k],
        decreases diagnostics.len() - i,
    {
        proof {
            assert(diagnostics@.subrange(0, i + 1).drop_last() =~= diagnostics@.subrange(0, i as int));
            assert(diagnostics@.subrange(0, i + 1).last() == diagnostics@[i as int]);
        }
        let d = &diagnostics[i];
        if le(range.start, d.range.end) && le(d.range.start, range.end) {
            match create_quick_fix(d) {
                Some(a) => {
                    out.push(a);
                },
                None => {},
            }
        }
        i = i + 1;
    }
    proof {
        assert(diagnostics@.subrange(0, diagnostics@.len() as int) =~= diagnostics@);
    }
    out
}

/// The names of the function symbols, in order.
pub open spec fn function_names(s: Seq<SymbolInformation>) -> Seq<Seq<char>>
    decreases s.len(),
{
    if s.len() == 0 {
        Seq::empty()
    } else if s.last().kind == SymbolKind::Function {
        function_names(s.drop_last()).push(s.last().name@)
    } else {
        function_names(s.drop_last())
    }
}

/// The completion items: one per function symbol, in order, named after it
/// and described as "Function".
pub fn completion_items(symbols: &Vec<SymbolInformation>) -> (r: Vec<CompletionItem>)
    ensures
        r@.len() == function_names(symbols@).len(),
        forall|k: int| 0 <= k < r@.len() ==> (#[trigger] r@[k]).label@ == function_names(symbols@)[k]
            && r@[k].detail@ == "Function"@,
{
    let mut out: Vec<CompletionItem> = Vec::new();
    let mut i: usize = 0;
    while i < symbols.len()
        invariant
            i <= symbols@.len(),
            out@.len() == function_names(symbols@.subrange(0, i as int)).len(),
            forall|k: int| 0 <= k < out@.len() ==> (#[trigger] out@[k]).label@ == function_names(
                symbols@.subrange(0, i as int),
            )[k] && out@[k].detail@ == "Function"@,
        decreases symbols.len() - i,
    {
        proof {
            assert(symbols@.subrange(0, i + 1).drop_last() =~= symbols@.subrange(0, i as int));
            assert(symbols@.subrange(0, i + 1).last() == symbols@[i as int]);
        }
        if symbols[i].kind == SymbolKind::Function {
            out.push(CompletionItem { label: symbols[i].name.clone(), detail: to_owned_string("Function") });
        }
        i = i + 1;
    }
    proof {
        assert(symbols@.subrange(0, symbols@.len() as int) =~= symbols@);
    }
    out
}

/// The first symbol whose range holds the position, by index.
pub fn find_symbol_at_position(symbols: &Vec<SymbolInformation>, position: Position) -> (r: Option<usize>)
    ensures
        match r {
            Some(i) => i < symbols@.len() && pos_le(symbols@[i as int].range.start, position) && pos_le(
                position,
                symbols@[i as int].range.end,
            ) && forall|j: int| 0 <= j < i ==> !(pos_le(symbols@[j].range.start, position) && pos_le(
                position,
                symbols@[j].range.end,
            )),
            None => forall|j: int| 0 <= j < symbols@.len() ==> !(pos_le(symbols@[j].range.start, position)
                && pos_le(position, symbols@[j].range.end)),
        },
{
    let mut i: usize = 0;
    while i < symbols.len()
        invariant
            i <= symbols@.len(),
            forall|j: int| 0 <= j < i ==> !(pos_le(symbols@[j].range.start, position) && pos_le(
                position,
                symbols@[j].range.end,
            )),
        decreases symbols.len() - i,
    {
        if le(symbols[i].range.start, position) && le(position, symbols[i].range.end) {
            return Some(i);
        }
        i = i + 1;
    }
    None
}

/// The hover text of a symbol.
pub open spec fn hover_text(kind: SymbolKind, name: Seq<char>) -> Seq<char> {
    match kind {
        SymbolKind::Function => "```io\nfn "@ + name + "\n```\n---\nFunction definition"@,
        SymbolKind::Variable => "```io\nlet "@ + name + "\n```\n---\nVariable declaration"@,
        _ => kind_name(kind) + ": "@ + name,
    }
}

/// The hover text of a symbol: its definition for a function or a variable,
/// its kind and name otherwise.
pub fn generate_hover_text(symbol: &SymbolInformation) -> (r: String)
    ensures
        r@ == hover_text(symbol.kind, symbol.name@),
{
    match symbol.kind {
        SymbolKind::Function => {
            let mut s = to_owned_string("```io\nfn ");
            push_str(&mut s, symbol.name.as_str());
            push_str(&mut s, "\n```\n---\nFunction definition");
            s
        },
        SymbolKind::Variable => {
            let mut s = to_owned_string("```io\nlet ");
            push_str(&mut s, symbol.name.as_str());
            push_str(&mut s, "\n```\n---\nVariable declaration");
            s
        },
        _ => {
            let mut s = to_owned_string(symbol.kind.name());
            push_str(&mut s, ": ");
            push_str(&mut s, symbol.name.as_str());
            s
        },
    }
}

} // verus!
