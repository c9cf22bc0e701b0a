//! Error contexts, recovery strategies and error reports.
//!
//! The handler keeps a stack of source contexts. An error handled while a context
//! is open has its message extended with the file, the position and the source
//! text, with a caret under the offending column.
use vstd::prelude::*;
use crate::text::{
    push_char, push_str, push_decimal, decimal, str_to_chars, utf8_len, len_utf8, bytes_upto,
    to_owned_string, str_contains, contains_text,
};
use crate::token::TokenKind;
use crate::ast::{Type, TypeView};
use crate::style::shown_as;

verus! {

/// Where an error was found: the file, the line and column, and the source text.
#[derive(Debug)]
pub struct ErrorContext {
    pub file: String,
    pub line: usize,
    pub column: usize,
    pub source_line: String,
}

/// A byte range of the source.
#[derive(Debug, Clone, Copy, PartialEq, Eq, Structural)]
pub struct Span {
    pub start: usize,
    pub end: usize,
}

/// A line (counted from one) and a column (counted from zero).
#[derive(Debug, Clone, Copy, PartialEq, Eq, Structural)]
pub struct ErrorLocation {
    pub line: usize,
    pub column: usize,
}

/// `n` spaces.
pub open spec fn spaces(n: nat) -> Seq<char> {
    Seq::new(n, |_i: int| ' ')
}

/// The line and column of byte offset `target` in `s`, walking from character `i`
/// at the given line and column.
///
/// When a character starts exactly at `target`, the column is that character's
/// index in the whole text; when none does, the walk ends at the end of the text
/// with the line count and the column reached there.
pub open spec fn locate(s: Seq<char>, target: nat, i: nat, line: nat, col: nat) -> (nat, nat)
    decreases s.len() - i,
{
    if i >= s.len() {
        (line, col)
    } else if bytes_upto(s, i as int) == target {
        (line, i)
    } else if s[i as int] == '\n' {
        locate(s, target, i + 1, line + 1, 0)
    } else {
        locate(s, target, i + 1, line, col + 1)
    }
}

/// The index of the first newline of `s` at or after `i`, or `s.len()`.
pub open spec fn next_newline(s: Seq<char>, i: nat) -> nat
    decreases s.len() - i,
{
    if i >= s.len() {
        s.len()
    } else if s[i as int] == '\n' {
        i
    } else {
        next_newline(s, i + 1)
    }
}

/// A line without the carriage return that ended it.
pub open spec fn strip_cr(l: Seq<char>) -> Seq<char> {
    if l.len() > 0 && l.last() == '\r' {
        l.drop_last()
    } else {
        l
    }
}

/// The lines of `s` from character `i` on, as `str::lines` splits them: at each
/// `\n`, dropping a `\r` just before it, with no empty line after a final `\n`.
pub open spec fn lines_from(s: Seq<char>, i: nat) -> Seq<Seq<char>>
    decreases s.len() - i,
{
    if i >= s.len() {
        Seq::empty()
    } else {
        let k = next_newline(s, i);
        proof {
            lemma_next_newline(s, i);
        }
        if k >= s.len() {
            seq![s.subrange(i as int, s.len() as int)]
        } else {
            seq![strip_cr(s.subrange(i as int, k as int))] + lines_from(s, k + 1)
        }
    }
}

/// The lines of `s`.
pub open spec fn lines_of(s: Seq<char>) -> Seq<Seq<char>> {
    lines_from(s, 0)
}

/// A line number right-aligned in a field of four characters.
pub open spec fn right_align4(d: Seq<char>) -> Seq<char> {
    if d.len() < 4 {
        spaces((4 - d.len()) as nat) + d
    } else {
        d
    }
}

/// The numbered source lines from index `i` up to `end`, each as `"{:>4} | {}\n"`.
pub open spec fn numbered_lines(lines: Seq<Seq<char>>, i: int, end: int) -> Seq<char>
    decreases end - i,
{
    if i >= end {
        Seq::empty()
    } else {
        right_align4(decimal((i + 1) as nat)) + " | "@ + lines[i] + seq!['\n']
            + numbered_lines(lines, i + 1, end)
    }
}

/// The excerpt shown around `error_line`: the lines from two before it up to
/// one after it, as far as the source has them.
pub open spec fn context_excerpt(source: Seq<char>, error_line: nat) -> Seq<char> {
    let lines = lines_of(source);
    let start: int = if error_line >= 2 { error_line - 2 } else { 0int };
    let end: int = if error_line + 2 <= lines.len() { (error_line + 2) as int } else { lines.len() as int };
    numbered_lines(lines, start, end)
}

/// Where the next newline stands.
pub proof fn lemma_next_newline(s: Seq<char>, i: nat)
    ensures
        i <= s.len() ==> i <= next_newline(s, i) <= s.len(),
        next_newline(s, i) < s.len() ==> s[next_newline(s, i) as int] == '\n',
        forall|j: int| i <= j < next_newline(s, i) ==> s[j] != '\n',
    decreases s.len() - i,
{
    if i < s.len() && s[i as int] != '\n' {
        lemma_next_newline(s, i + 1);
    }
}

proof fn lemma_numbered_lines_step(lines: Seq<Seq<char>>, i: int, end: int)
    requires
        i < end,
    ensures
        numbered_lines(lines, i, end) == right_align4(decimal((i + 1) as nat)) + " | "@ + lines[i]
            + seq!['\n'] + numbered_lines(lines, i + 1, end),
{
}

/// Appends `n` spaces.
pub fn push_spaces(s: &mut String, n: usize)
    ensures
        final(s)@ == old(s)@ + spaces(n as nat),
{
    let mut k: usize = 0;
    while k < n
        invariant
            k <= n,
            s@ == old(s)@ + spaces(k as nat),
        decreases n - k,
    {
        push_char(s, ' ');
        k = k + 1;
        assert(spaces(k as nat) =~= spaces((k - 1) as nat).push(' '));
    }
}

/// Splits text into lines as `str::lines` does.
pub fn split_lines(text: &str) -> (r: Vec<String>)
    ensures
        r@.len() == lines_of(text@).len(),
        forall|k: int| 0 <= k < r@.len() ==> #[trigger] r@[k]@ == lines_of(text@)[k],
{
    let chars = str_to_chars(text);
    let ghost s = text@;
    let n = chars.len();
    let mut out: Vec<String> = Vec::new();
    let mut i: usize = 0;
    let ghost mut done: Seq<Seq<char>> = Seq::empty();
    while i < n
        invariant
            chars@ == s,
            n == s.len(),
            i <= n,
            out@.len() == done.len(),
            forall|k: int| 0 <= k < out@.len() ==> #[trigger] out@[k]@ == done[k],
            done + lines_from(s, i as nat) == lines_of(s),
        decreases n - i,
    {
        let mut j: usize = i;
        while j < n && chars[j] != '\n'
            invariant
                chars@ == s,
                n == s.len(),
                i <= j <= n,
                forall|m: int| i <= m < j ==> s[m] != '\n',
            decreases n - j,
        {
            j = j + 1;
        }
        proof {
            lemma_next_newline(s, i as nat);
            assert(next_newline(s, i as nat) == j) by {
                if next_newline(s, i as nat) < j {
                    assert(s[next_newline(s, i as nat) as int] == '\n');
                }
                if next_newline(s, i as nat) > j {
                    assert(j < n);
                    assert(s[j as int] == '\n');
                }
            }
        }
        let mut end: usize = j;
        if j < n && end > i && chars[end - 1] == '\r' {
            end = end - 1;
        }
        let mut line = String::new();
        let mut k: usize = i;
        while k < end
            invariant
                chars@ == s,
                n == s.len(),
                i <= k <= end <= n,
                line@ == s.subrange(i as int, k as int),
            decreases end - k,
        {
            push_char(&mut line, chars[k]);
            k = k + 1;
        }
        proof {
            if j < n {
                assert(line@ == strip_cr(s.subrange(i as int, j as int))) by {
                    if end < j {
                        assert(s.subrange(i as int, j as int).drop_last() =~= s.subrange(
                            i as int,
                            end as int,
                        ));
                    }
                }
            }
            let item = if j < n { strip_cr(s.subrange(i as int, j as int)) } else {
                s.subrange(i as int, n as int)
            };
            assert(line@ == item);
            assert(lines_from(s, i as nat) == seq![item] + (if j < n {
                lines_from(s, (j + 1) as nat)
            } else {
                Seq::empty()
            }));
            done = done.push(item);
        }
        out.push(line);
        if j < n {
            i = j + 1;
        } else {
            i = n;
            proof {
                assert(lines_from(s, n as nat) =~= Seq::<Seq<char>>::empty());
            }
        }
        proof {
            assert(done + lines_from(s, i as nat) =~= lines_of(s));
        }
    }
    proof {
        assert(lines_from(s, n as nat) =~= Seq::<Seq<char>>::empty());
        assert(done =~= lines_of(s));
    }
    out
}

/// Appends a line number right-aligned in four characters.
fn push_right_aligned(s: &mut String, n: usize)
    ensures
        final(s)@ == old(s)@ + right_align4(decimal(n as nat)),
{
    let d = crate::text::usize_to_string(n);
    let len = d.as_str().unicode_len();
    if len < 4 {
        push_spaces(s, 4 - len);
    }
    push_str(s, d.as_str());
    proof {
        assert(d@.len() == len);
    }
}

impl ErrorContext {
    /// A context for the given file, position and source text.
    pub fn new(file: &str, line: usize, column: usize, source_line: &str) -> (r: Self)
        ensures
            r.file@ == file@,
            r.line == line,
            r.column == column,
            r.source_line@ == source_line@,
    {
        ErrorContext {
            file: to_owned_string(file),
            line,
            column,
            source_line: to_owned_string(source_line),
        }
    }

    /// A copy of the context.
    pub fn duplicate(&self) -> (r: Self)
        ensures
            r.file@ == self.file@,
            r.line == self.line,
            r.column == self.column,
            r.source_line@ == self.source_line@,
    {
        ErrorContext {
            file: self.file.clone(),
            line: self.line,
            column: self.column,
            source_line: self.source_line.clone(),
        }
    }
}

/// The line and column at which the character starting at byte `position` of the
/// context's source stands.
pub fn get_error_location(context: &ErrorContext, position: usize) -> (r: ErrorLocation)
    requires
        context.source_line@.len() < usize::MAX,
    ensures
        (r.line as nat, r.column as nat) == locate(context.source_line@, position as nat, 0, 1, 0),
{
    let chars = str_to_chars(context.source_line.as_str());
    let ghost s = context.source_line@;
    let n = chars.len();
    let mut line: usize = 1;
    let mut column: usize = 0;
    let mut cur: usize = 0;
    let mut passed = false;
    let mut i: usize = 0;
    while i < n
        invariant
            chars@ == s,
            s == context.source_line@,
            n == s.len(),
            n < usize::MAX,
            i <= n,
            line <= i + 1,
            column <= i,
            locate(s, position as nat, 0, 1, 0) == locate(s, position as nat, i as nat, line as nat, column as nat),
            !passed ==> cur == bytes_upto(s, i as int) && cur <= position,
            passed ==> bytes_upto(s, i as int) > position,
        decreases n - i,
    {
        if !passed && cur == position {
            assert(locate(s, position as nat, i as nat, line as nat, column as nat) == (line as nat, i as nat));
            return ErrorLocation { line, column: i };
        }
        let c = chars[i];
        if c == '\n' {
            line = line + 1;
            column = 0;
        } else {
            column = column + 1;
        }
        let step = len_utf8(c);
        proof {
            assert(bytes_upto(s, i + 1) == bytes_upto(s, i as int) + utf8_len(s[i as int]));
        }
        if !passed {
            if position - cur < step {
                passed = true;
            } else {
                cur = cur + step;
            }
        }
        i = i + 1;
    }
    ErrorLocation { line, column }
}

/// The source lines around `error_line`, numbered, each on a line of its own.
pub fn get_context_lines(context: &ErrorContext, error_line: usize) -> (r: String)
    requires
        error_line + 2 <= usize::MAX,
    ensures
        r@ == context_excerpt(context.source_line@, error_line as nat),
{
    let lines = split_lines(context.source_line.as_str());
    let ghost ls = lines_of(context.source_line@);
    let start: usize = if error_line >= 2 { error_line - 2 } else { 0 };
    let end: usize = if error_line + 2 <= lines.len() { error_line + 2 } else { lines.len() };
    let mut result = String::new();
    let mut i: usize = start;
    if start >= end {
        return result;
    }
    while i < end
        invariant
            start <= i <= end <= lines@.len(),
            lines@.len() == ls.len(),
            forall|k: int| 0 <= k < lines@.len() ==> #[trigger] lines@[k]@ == ls[k],
            result@ + numbered_lines(ls, i as int, end as int) == numbered_lines(ls, start as int, end as int),
        decreases end - i,
    {
        proof {
            lemma_numbered_lines_step(ls, i as int, end as int);
        }
        let ghost before = result@;
        push_right_aligned(&mut result, i + 1);
        push_str(&mut result, " | ");
        push_str(&mut result, lines[i].as_str());
        push_char(&mut result, '\n');
        proof {
            reveal_strlit(" | ");
            assert(result@ + numbered_lines(ls, i + 1, end as int) =~= before + numbered_lines(ls, i as int, end as int));
        }
        i = i + 1;
    }
    proof {
        assert(numbered_lines(ls, end as int, end as int) =~= Seq::<char>::empty());
        assert(result@ =~= result@ + numbered_lines(ls, end as int, end as int));
    }
    result
}


/// An error found in a source file, in the shapes the handler enriches with
/// source context.
#[derive(Debug)]
pub enum CompileError {
    LexerError { position: usize, message: String },
    ParserError { span: Span, message: String },
    TypeError { expected: String, found: String, span: Span, message: String },
    RuntimeError { message: String, stack_trace: Vec<String> },
    UnresolvedSymbol { name: String, scope: String, message: String },
    ValidationError { code: u32, details: String },
}

/// The abstract value of a [`CompileError`]: its text as characters.
pub enum CompileErrorView {
    LexerError { position: usize, message: Seq<char> },
    ParserError { span: Span, message: Seq<char> },
    TypeError { expected: Seq<char>, found: Seq<char>, span: Span, message: Seq<char> },
    RuntimeError { message: Seq<char>, stack_trace: Seq<Seq<char>> },
    UnresolvedSymbol { name: Seq<char>, scope: Seq<char>, message: Seq<char> },
    ValidationError { code: u32, details: Seq<char> },
}

/// The texts of a list of strings.
pub open spec fn strings_view(v: Seq<String>) -> Seq<Seq<char>> {
    v.map_values(|s: String| s@)
}

impl View for CompileError {
    type V = CompileErrorView;

    open spec fn view(&self) -> CompileErrorView {
        match *self {
            CompileError::LexerError { position, message } => CompileErrorView::LexerError {
                position,
                message: message@,
            },
            CompileError::ParserError { span, message } => CompileErrorView::ParserError {
                span,
                message: message@,
            },
            CompileError::TypeError { expected, found, span, message } => CompileErrorView::TypeError {
                expected: expected@,
                found: found@,
                span,
                message: message@,
            },
            CompileError::RuntimeError { message, stack_trace } => CompileErrorView::RuntimeError {
                message: message@,
                stack_trace: strings_view(stack_trace@),
            },
            CompileError::UnresolvedSymbol { name, scope, message } => CompileErrorView::UnresolvedSymbol {
                name: name@,
                scope: scope@,
                message: message@,
            },
            CompileError::ValidationError { code, details } => CompileErrorView::ValidationError {
                code,
                details: details@,
            },
        }
    }
}

/// The text an error shows: its message, or the details of a validation error.
pub open spec fn description(e: CompileErrorView) -> Seq<char> {
    match e {
        CompileErrorView::LexerError { message, .. } => message,
        CompileErrorView::ParserError { message, .. } => message,
        CompileErrorView::TypeError { message, .. } => message,
        CompileErrorView::RuntimeError { message, .. } => message,
        CompileErrorView::UnresolvedSymbol { message, .. } => message,
        CompileErrorView::ValidationError { details, .. } => details,
    }
}

/// A newline, the source text, a newline, and a caret under column `col`.
pub open spec fn pointer_tail(source: Seq<char>, col: nat) -> Seq<char> {
    seq!['\n'] + source + seq!['\n'] + spaces(col) + seq!['^']
}

/// `"\nIn file F at line L:C"` followed by the source and the caret.
pub open spec fn in_file_suffix(c: ErrorContext) -> Seq<char> {
    "\nIn file "@ + c.file@ + " at line "@ + decimal(c.line as nat) + ":"@ + decimal(c.column as nat)
        + pointer_tail(c.source_line@, c.column as nat)
}

/// `"\nAt F:L:C"` followed by the source and the caret.
pub open spec fn at_suffix(c: ErrorContext) -> Seq<char> {
    "\nAt "@ + c.file@ + ":"@ + decimal(c.line as nat) + ":"@ + decimal(c.column as nat)
        + pointer_tail(c.source_line@, c.column as nat)
}

/// An error with its text extended by the context it was found in.
pub open spec fn enrich(e: CompileErrorView, c: ErrorContext) -> CompileErrorView {
    match e {
        CompileErrorView::LexerError { position, message } => CompileErrorView::LexerError {
            position,
            message: message + in_file_suffix(c),
        },
        CompileErrorView::ParserError { span, message } => CompileErrorView::ParserError {
            span,
            message: message + in_file_suffix(c),
        },
        CompileErrorView::TypeError { expected, found, span, message } => CompileErrorView::TypeError {
            expected,
            found,
            span,
            message: "Type mismatch at "@ + c.file@ + ":"@ + decimal(c.line as nat) + ":"@
                + decimal(c.column as nat) + "\nExpected: "@ + expected + "\nFound: "@ + found
                + pointer_tail(c.source_line@, c.column as nat),
        },
        CompileErrorView::RuntimeError { message, stack_trace } => CompileErrorView::RuntimeError {
            message: message + at_suffix(c),
            stack_trace,
        },
        CompileErrorView::UnresolvedSymbol { name, scope, message } => CompileErrorView::UnresolvedSymbol {
            name,
            scope,
            message: "Unresolved symbol '"@ + name + "' in scope '"@ + scope + "'"@ + at_suffix(c),
        },
        CompileErrorView::ValidationError { code, details } => CompileErrorView::ValidationError {
            code,
            details: details + at_suffix(c),
        },
    }
}

/// The "caused by" lines of an error chain, numbered from one.
pub open spec fn chain_text(chain: Seq<CompileErrorView>) -> Seq<char>
    decreases chain.len(),
{
    if chain.len() == 0 {
        Seq::empty()
    } else {
        chain_text(chain.drop_last()) + "\nCaused by ("@ + decimal(chain.len()) + "):\n  "@
            + description(chain.last())
    }
}

/// Lines joined by newlines.
pub open spec fn join_lines(v: Seq<Seq<char>>) -> Seq<char>
    decreases v.len(),
{
    if v.len() == 0 {
        Seq::empty()
    } else if v.len() == 1 {
        v[0]
    } else {
        join_lines(v.drop_last()) + seq!['\n'] + v.last()
    }
}

/// `"\nAt F:L:C"`, the numbered source lines around the location of byte `pos`,
/// and the caret under its column.
pub open spec fn located_excerpt(c: ErrorContext, pos: nat) -> Seq<char> {
    let loc = locate(c.source_line@, pos, 0, 1, 0);
    "\nAt "@ + c.file@ + ":"@ + decimal(loc.0) + ":"@ + decimal(loc.1) + seq!['\n']
        + context_excerpt(c.source_line@, loc.0) + seq!['\n'] + spaces(loc.1) + seq!['^']
}

/// An error with its text extended by the chain of errors that caused it and by
/// the context it was found in.
pub open spec fn enrich_with_chain(
    e: CompileErrorView,
    chain: Seq<CompileErrorView>,
    c: ErrorContext,
) -> CompileErrorView {
    let enhanced = chain_text(chain);
    match e {
        CompileErrorView::LexerError { position, message } => CompileErrorView::LexerError {
            position,
            message: message + seq!['\n'] + enhanced + located_excerpt(c, position as nat) + (if chain.len()
                == 0 {
                Seq::empty()
            } else {
                "\nError chain:"@
            }),
        },
        CompileErrorView::ParserError { span, message } => CompileErrorView::ParserError {
            span,
            message: message + seq!['\n'] + enhanced + located_excerpt(c, span.start as nat),
        },
        CompileErrorView::TypeError { expected, found, span, message } => CompileErrorView::TypeError {
            expected,
            found,
            span,
            message: "Type mismatch\n"@ + enhanced + located_excerpt(c, span.start as nat),
        },
        CompileErrorView::RuntimeError { message, stack_trace } => CompileErrorView::RuntimeError {
            message: message + seq!['\n'] + enhanced + "\nStack trace:\n"@ + join_lines(stack_trace),
            stack_trace,
        },
        CompileErrorView::UnresolvedSymbol { name, scope, message } => CompileErrorView::UnresolvedSymbol {
            name,
            scope,
            message: "Symbol '"@ + name + "' not found in scope '"@ + scope + "'\n"@ + enhanced,
        },
        CompileErrorView::ValidationError { code, details } => CompileErrorView::ValidationError {
            code,
            details: "Validation error "@ + decimal(code as nat) + ": "@ + details + seq!['\n'] + enhanced,
        },
    }
}

/// A copy of a list of strings.
pub fn copy_strings(v: &Vec<String>) -> (r: Vec<String>)
    ensures
        strings_view(r@) == strings_view(v@),
{
    let mut out: Vec<String> = Vec::new();
    let mut i: usize = 0;
    while i < v.len()
        invariant
            i <= v.len(),
            out@.len() == i,
            forall|k: int| 0 <= k < i ==> (#[trigger] out@[k])@ == v@[k]@,
        decreases v.len() - i,
    {
        out.push(v[i].clone());
        i = i + 1;
    }
    assert(strings_view(out@) =~= strings_view(v@));
    out
}

/// Appends a newline, the source text, a newline and a caret under `col`.
fn push_pointer_tail(s: &mut String, source: &String, col: usize)
    ensures
        final(s)@ == old(s)@ + pointer_tail(source@, col as nat),
{
    push_char(s, '\n');
    push_str(s, source.as_str());
    push_char(s, '\n');
    push_spaces(s, col);
    push_char(s, '^');
    assert(s@ =~= old(s)@ + pointer_tail(source@, col as nat));
}

/// Appends `"\nIn file F at line L:C"`, the source and the caret.
fn push_in_file(s: &mut String, c: &ErrorContext)
    ensures
        final(s)@ == old(s)@ + in_file_suffix(*c),
{
    push_str(s, "\nIn file ");
    push_str(s, c.file.as_str());
    push_str(s, " at line ");
    push_decimal(s, c.line);
    push_str(s, ":");
    push_decimal(s, c.column);
    push_pointer_tail(s, &c.source_line, c.column);
    assert(s@ =~= old(s)@ + in_file_suffix(*c));
}

/// Appends `"\nAt F:L:C"`, the source and the caret.
fn push_at(s: &mut String, c: &ErrorContext)
    ensures
        final(s)@ == old(s)@ + at_suffix(*c),
{
    push_str(s, "\nAt ");
    push_str(s, c.file.as_str());
    push_str(s, ":");
    push_decimal(s, c.line);
    push_str(s, ":");
    push_decimal(s, c.column);
    push_pointer_tail(s, &c.source_line, c.column);
    assert(s@ =~= old(s)@ + at_suffix(*c));
}

/// An owned copy of a string with more text appended.
fn extended(base: &String) -> (r: String)
    ensures
        r@ == base@,
{
    base.clone()
}

/// The error extended by the context it was found in.
pub fn enrich_error(error: CompileError, c: &ErrorContext) -> (r: CompileError)
    ensures
        r@ == enrich(error@, *c),
{
    match error {
        CompileError::LexerError { position, message } => {
            let mut m = extended(&message);
            push_in_file(&mut m, c);
            CompileError::LexerError { position, message: m }
        },
        CompileError::ParserError { span, message } => {
            let mut m = extended(&message);
            push_in_file(&mut m, c);
            CompileError::ParserError { span, message: m }
        },
        CompileError::TypeError { expected, found, span, message } => {
            let mut m = to_owned_string("Type mismatch at ");
            push_str(&mut m, c.file.as_str());
            push_str(&mut m, ":");
            push_decimal(&mut m, c.line);
            push_str(&mut m, ":");
            push_decimal(&mut m, c.column);
            push_str(&mut m, "\nExpected: ");
            push_str(&mut m, expected.as_str());
            push_str(&mut m, "\nFound: ");
            push_str(&mut m, found.as_str());
            push_pointer_tail(&mut m, &c.source_line, c.column);
            let r = CompileError::TypeError { expected, found, span, message: m };
            assert(r@ == enrich(error@, *c)) by {
                assert(m@ =~= "Type mismatch at "@ + c.file@ + ":"@ + decimal(c.line as nat) + ":"@
                    + decimal(c.column as nat) + "\nExpected: "@ + expected@ + "\nFound: "@ + found@
                    + pointer_tail(c.source_line@, c.column as nat));
            }
            r
        },
        CompileError::RuntimeError { message, stack_trace } => {
            let mut m = extended(&message);
            push_at(&mut m, c);
            CompileError::RuntimeError { message: m, stack_trace }
        },
        CompileError::UnresolvedSymbol { name, scope, message } => {
            let mut m = to_owned_string("Unresolved symbol '");
            push_str(&mut m, name.as_str());
            push_str(&mut m, "' in scope '");
            push_str(&mut m, scope.as_str());
            push_str(&mut m, "'");
            push_at(&mut m, c);
            let r = CompileError::UnresolvedSymbol { name, scope, message: m };
            assert(r@ == enrich(error@, *c)) by {
                assert(m@ =~= "Unresolved symbol '"@ + name@ + "' in scope '"@ + scope@ + "'"@ + at_suffix(*c));
            }
            r
        },
        CompileError::ValidationError { code, details } => {
            let mut m = extended(&details);
            push_at(&mut m, c);
            CompileError::ValidationError { code, details: m }
        },
    }
}


/// The line found by [`locate`] is at most the starting line plus the number of
/// characters left.
pub proof fn lemma_locate_line_bound(s: Seq<char>, target: nat, i: nat, line: nat, col: nat)
    requires
        i <= s.len(),
    ensures
        locate(s, target, i, line, col).0 <= line + (s.len() - i),
    decreases s.len() - i,
{
    if i < s.len() && bytes_upto(s, i as int) != target {
        if s[i as int] == '\n' {
            lemma_locate_line_bound(s, target, i + 1, line + 1, 0);
        } else {
            lemma_locate_line_bound(s, target, i + 1, line, col + 1);
        }
    }
}

/// The text an error shows.
pub fn error_description(e: &CompileError) -> (r: &String)
    ensures
        r@ == description(e@),
{
    match e {
        CompileError::LexerError { message, .. } => message,
        CompileError::ParserError { message, .. } => message,
        CompileError::TypeError { message, .. } => message,
        CompileError::RuntimeError { message, .. } => message,
        CompileError::UnresolvedSymbol { message, .. } => message,
        CompileError::ValidationError { details, .. } => details,
    }
}

/// The "caused by" lines of an error chain.
pub fn build_chain_text(chain: &[CompileError]) -> (r: String)
    ensures
        r@ == chain_text(chain@.map_values(|e: CompileError| e@)),
{
    let ghost views = chain@.map_values(|e: CompileError| e@);
    let mut out = String::new();
    let mut i: usize = 0;
    while i < chain.len()
        invariant
            i <= chain@.len(),
            views == chain@.map_values(|e: CompileError| e@),
            out@ == chain_text(views.subrange(0, i as int)),
        decreases chain.len() - i,
    {
        push_str(&mut out, "\nCaused by (");
        push_decimal(&mut out, i + 1);
        push_str(&mut out, "):\n  ");
        push_str(&mut out, error_description(&chain[i]).as_str());
        proof {
            let pre = views.subrange(0, i + 1);
            assert(pre.drop_last() =~= views.subrange(0, i as int));
            assert(pre.last() == chain@[i as int]@);
        }
        i = i + 1;
    }
    proof {
        assert(views.subrange(0, chain@.len() as int) =~= views);
    }
    out
}

/// Lines joined by newlines.
pub fn build_join_lines(v: &Vec<String>) -> (r: String)
    ensures
        r@ == join_lines(strings_view(v@)),
{
    let ghost sv = strings_view(v@);
    let mut out = String::new();
    let mut i: usize = 0;
    while i < v.len()
        invariant
            i <= v@.len(),
            sv == strings_view(v@),
            out@ == join_lines(sv.subrange(0, i as int)),
        decreases v.len() - i,
    {
        if i > 0 {
            push_char(&mut out, '\n');
        }
        push_str(&mut out, v[i].as_str());
        proof {
            let pre = sv.subrange(0, i + 1);
            assert(pre.drop_last() =~= sv.subrange(0, i as int));
            if i == 0 {
                assert(join_lines(sv.subrange(0, 0)) =~= Seq::<char>::empty());
                assert(out@ =~= pre[0]);
            }
        }
        i = i + 1;
    }
    proof {
        assert(sv.subrange(0, v@.len() as int) =~= sv);
    }
    out
}

/// Appends `"\nAt F:L:C"`, the numbered lines around the location of byte `pos`
/// and the caret under its column.
fn push_located_excerpt(s: &mut String, c: &ErrorContext, pos: usize)
    requires
        c.source_line@.len() + 3 <= usize::MAX,
    ensures
        final(s)@ == old(s)@ + located_excerpt(*c, pos as nat),
{
    proof {
        lemma_locate_line_bound(c.source_line@, pos as nat, 0, 1, 0);
    }
    let location = get_error_location(c, pos);
    push_str(s, "\nAt ");
    push_str(s, c.file.as_str());
    push_str(s, ":");
    push_decimal(s, location.line);
    push_str(s, ":");
    push_decimal(s, location.column);
    push_char(s, '\n');
    let lines = get_context_lines(c, location.line);
    push_str(s, lines.as_str());
    push_char(s, '\n');
    push_spaces(s, location.column);
    push_char(s, '^');
    assert(s@ =~= old(s)@ + located_excerpt(*c, pos as nat));
}

/// The error extended by the chain of errors that caused it and by the context it
/// was found in.
pub fn enrich_error_with_chain(error: CompileError, chain: &[CompileError], c: &ErrorContext) -> (r: CompileError)
    requires
        c.source_line@.len() + 3 <= usize::MAX,
    ensures
        r@ == enrich_with_chain(error@, chain@.map_values(|e: CompileError| e@), *c),
{
    let enhanced = build_chain_text(chain);
    let ghost ch = chain@.map_values(|e: CompileError| e@);
    match error {
        CompileError::LexerError { position, message } => {
            let mut m = extended(&message);
            push_char(&mut m, '\n');
            push_str(&mut m, enhanced.as_str());
            push_located_excerpt(&mut m, c, position);
            if chain.len() > 0 {
                push_str(&mut m, "\nError chain:");
            }
            let r = CompileError::LexerError { position, message: m };
            assert(r@ == enrich_with_chain(error@, ch, *c)) by {
                if chain.len() == 0 {
                    assert(m@ =~= message@ + seq!['\n'] + enhanced@ + located_excerpt(*c, position as nat)
                        + Seq::<char>::empty());
                } else {
                    assert(m@ =~= message@ + seq!['\n'] + enhanced@ + located_excerpt(*c, position as nat)
                        + "\nError chain:"@);
                }
            }
            r
        },
        CompileError::ParserError { span, message } => {
            let mut m = extended(&message);
            push_char(&mut m, '\n');
            push_str(&mut m, enhanced.as_str());
            push_located_excerpt(&mut m, c, span.start);
            let r = CompileError::ParserError { span, message: m };
            assert(r@ == enrich_with_chain(error@, ch, *c)) by {
                assert(m@ =~= message@ + seq!['\n'] + enhanced@ + located_excerpt(*c, span.start as nat));
            }
            r
        },
        CompileError::TypeError { expected, found, span, message } => {
            let mut m = to_owned_string("Type mismatch\n");
            push_str(&mut m, enhanced.as_str());
            push_located_excerpt(&mut m, c, span.start);
            let r = CompileError::TypeError { expected, found, span, message: m };
            assert(r@ == enrich_with_chain(error@, ch, *c)) by {
                assert(m@ =~= "Type mismatch\n"@ + enhanced@ + located_excerpt(*c, span.start as nat));
            }
            r
        },
        CompileError::RuntimeError { message, stack_trace } => {
            let mut m = extended(&message);
            push_char(&mut m, '\n');
            push_str(&mut m, enhanced.as_str());
            push_str(&mut m, "\nStack trace:\n");
            let joined = build_join_lines(&stack_trace);
            push_str(&mut m, joined.as_str());
            let r = CompileError::RuntimeError { message: m, stack_trace };
            assert(r@ == enrich_with_chain(error@, ch, *c)) by {
                assert(m@ =~= message@ + seq!['\n'] + enhanced@ + "\nStack trace:\n"@ + join_lines(
                    strings_view(stack_trace@),
                ));
            }
            r
        },
        CompileError::UnresolvedSymbol { name, scope, message } => {
            let mut m = to_owned_string("Symbol '");
            push_str(&mut m, name.as_str());
            push_str(&mut m, "' not found in scope '");
            push_str(&mut m, scope.as_str());
            push_str(&mut m, "'\n");
            push_str(&mut m, enhanced.as_str());
            let r = CompileError::UnresolvedSymbol { name, scope, message: m };
            assert(r@ == enrich_with_chain(error@, ch, *c)) by {
                assert(m@ =~= "Symbol '"@ + name@ + "' not found in scope '"@ + scope@ + "'\n"@ + enhanced@);
            }
            r
        },
        CompileError::ValidationError { code, details } => {
            let mut m = to_owned_string("Validation error ");
            push_decimal(&mut m, code as usize);
            push_str(&mut m, ": ");
            push_str(&mut m, details.as_str());
            push_char(&mut m, '\n');
            push_str(&mut m, enhanced.as_str());
            let r = CompileError::ValidationError { code, details: m };
            assert(r@ == enrich_with_chain(error@, ch, *c)) by {
                assert(m@ =~= "Validation error "@ + decimal(code as nat) + ": "@ + details@ + seq!['\n']
                    + enhanced@);
            }
            r
        },
    }
}


/// How the handler recovers from an error.
#[derive(Debug)]
pub enum RecoveryStrategy {
    SkipToNextToken,
    SynchronizeTo(Vec<TokenKind>),
    UseDefaultType(Type),
    Abort,
}

/// What the handler decided to do about one error.
#[derive(Debug)]
pub enum RecoveryAction {
    SkipToken,
    SynchronizeTo(Vec<TokenKind>),
    UseType(Type),
    Abort,
}

/// Whether the strategy applies to the error: skipping for lexer errors,
/// synchronizing for parser errors, a default type for type errors.
pub open spec fn strategy_applies(e: CompileErrorView, s: RecoveryStrategy) -> bool {
    match (e, s) {
        (CompileErrorView::LexerError { .. }, RecoveryStrategy::SkipToNextToken) => true,
        (CompileErrorView::ParserError { .. }, RecoveryStrategy::SynchronizeTo(_)) => true,
        (CompileErrorView::TypeError { .. }, RecoveryStrategy::UseDefaultType(_)) => true,
        _ => false,
    }
}

/// Whether the action carries out the strategy.
pub open spec fn action_follows(a: RecoveryAction, s: RecoveryStrategy) -> bool {
    match (a, s) {
        (RecoveryAction::SkipToken, RecoveryStrategy::SkipToNextToken) => true,
        (RecoveryAction::SynchronizeTo(t), RecoveryStrategy::SynchronizeTo(u)) => t@ == u@,
        (RecoveryAction::UseType(t), RecoveryStrategy::UseDefaultType(u)) => t@ == u@,
        _ => false,
    }
}

/// The message of the error given when no recovery applies.
pub open spec fn no_recovery_message() -> Seq<char> {
    "No suitable recovery action found"@
}

/// A copy of a list of token kinds.
fn copy_kinds(v: &Vec<TokenKind>) -> (r: Vec<TokenKind>)
    ensures
        r@ == v@,
{
    let mut out: Vec<TokenKind> = Vec::new();
    let mut i: usize = 0;
    while i < v.len()
        invariant
            i <= v@.len(),
            out@ == v@.subrange(0, i as int),
        decreases v.len() - i,
    {
        out.push(v[i]);
        i = i + 1;
    }
    assert(out@ =~= v@);
    out
}

/// The action that carries out the strategy for the error, if the strategy
/// applies to it.
fn recovery_for(error: &CompileError, strategy: &RecoveryStrategy) -> (r: Option<RecoveryAction>)
    ensures
        r is Some <==> strategy_applies(error@, *strategy),
        r matches Some(a) ==> action_follows(a, *strategy),
{
    match (error, strategy) {
        (CompileError::LexerError { .. }, RecoveryStrategy::SkipToNextToken) => Some(RecoveryAction::SkipToken),
        (CompileError::ParserError { .. }, RecoveryStrategy::SynchronizeTo(tokens)) => Some(
            RecoveryAction::SynchronizeTo(copy_kinds(tokens)),
        ),
        (CompileError::TypeError { .. }, RecoveryStrategy::UseDefaultType(default_type)) => Some(
            RecoveryAction::UseType(default_type.duplicate()),
        ),
        _ => None,
    }
}

/// Counts the errors handled and enriches them with the innermost open source
/// context.
#[derive(Debug)]
pub struct ErrorHandler {
    contexts: Vec<ErrorContext>,
    error_count: usize,
    recovery_strategy: Option<RecoveryStrategy>,
}

/// Whether a context's source is short enough to be located and excerpted.
pub open spec fn context_fits(c: ErrorContext) -> bool {
    c.source_line@.len() + 3 <= usize::MAX
}

impl ErrorHandler {
    /// The open contexts, innermost last.
    pub closed spec fn spec_contexts(&self) -> Seq<ErrorContext> {
        self.contexts@
    }

    /// The number of errors handled.
    pub closed spec fn spec_error_count(&self) -> nat {
        self.error_count as nat
    }

    /// The recovery strategy, if one was set.
    pub closed spec fn spec_strategy(&self) -> Option<RecoveryStrategy> {
        self.recovery_strategy
    }

    /// Every open context can be located and excerpted.
    pub open spec fn wf(&self) -> bool {
        forall|k: int| 0 <= k < self.spec_contexts().len() ==> context_fits(#[trigger] self.spec_contexts()[k])
    }

    /// A handler with no context, no error counted and no recovery strategy.
    pub fn new() -> (r: Self)
        ensures
            r.spec_contexts().len() == 0,
            r.spec_error_count() == 0,
            r.spec_strategy() is None,
            r.wf(),
    {
        ErrorHandler { contexts: Vec::new(), error_count: 0, recovery_strategy: None }
    }

    /// Opens a context.
    pub fn push_context(&mut self, context: ErrorContext)
        requires
            old(self).wf(),
            context_fits(context),
        ensures
            final(self).spec_contexts() == old(self).spec_contexts().push(context),
            final(self).spec_error_count() == old(self).spec_error_count(),
            final(self).spec_strategy() == old(self).spec_strategy(),
            final(self).wf(),
    {
        self.contexts.push(context);
        proof {
            assert forall|k: int| 0 <= k < self.spec_contexts().len() implies context_fits(
                #[trigger] self.spec_contexts()[k],
            ) by {
                if k < old(self).spec_contexts().len() {
                    assert(self.spec_contexts()[k] == old(self).spec_contexts()[k]);
                }
            }
        }
    }

    /// Closes the innermost context, if any.
    pub fn pop_context(&mut self)
        requires
            old(self).wf(),
        ensures
            final(self).spec_contexts() == (if old(self).spec_contexts().len() > 0 {
                old(self).spec_contexts().drop_last()
            } else {
                old(self).spec_contexts()
            }),
            final(self).spec_error_count() == old(self).spec_error_count(),
            final(self).spec_strategy() == old(self).spec_strategy(),
            final(self).wf(),
    {
        let _ = self.contexts.pop();
        proof {
            assert forall|k: int| 0 <= k < self.spec_contexts().len() implies context_fits(
                #[trigger] self.spec_contexts()[k],
            ) by {
                assert(self.spec_contexts()[k] == old(self).spec_contexts()[k]);
            }
        }
    }

    /// Counts the error and extends its text by the innermost open context, if any.
    pub fn handle_error(&mut self, error: CompileError) -> (r: CompileError)
        requires
            old(self).spec_error_count() < usize::MAX,
        ensures
            final(self).spec_error_count() == old(self).spec_error_count() + 1,
            final(self).spec_contexts() == old(self).spec_contexts(),
            final(self).spec_strategy() == old(self).spec_strategy(),
            r@ == (if old(self).spec_contexts().len() > 0 {
                enrich(error@, old(self).spec_contexts().last())
            } else {
                error@
            }),
    {
        self.error_count = self.error_count + 1;
        let n = self.contexts.len();
        if n > 0 {
            enrich_error(error, &self.contexts[n - 1])
        } else {
            error
        }
    }

    /// Extends the error's text by the chain of errors that caused it and by the
    /// innermost open context, if any.
    pub fn handle_error_chain(&self, error: CompileError, chain: &[CompileError]) -> (r: CompileError)
        requires
            self.wf(),
        ensures
            r@ == (if self.spec_contexts().len() > 0 {
                enrich_with_chain(error@, chain@.map_values(|e: CompileError| e@), self.spec_contexts().last())
            } else {
                error@
            }),
    {
        let n = self.contexts.len();
        if n > 0 {
            proof {
                assert(context_fits(self.spec_contexts()[n - 1]));
            }
            enrich_error_with_chain(error, chain, &self.contexts[n - 1])
        } else {
            error
        }
    }

    /// The line and column at which the character starting at byte `position` of
    /// the context's source stands.
    pub fn get_error_location(&self, context: &ErrorContext, position: usize) -> (r: ErrorLocation)
        requires
            context.source_line@.len() < usize::MAX,
        ensures
            (r.line as nat, r.column as nat) == locate(context.source_line@, position as nat, 0, 1, 0),
    {
        get_error_location(context, position)
    }

    /// The source lines around `error_line`, numbered.
    pub fn get_context_lines(&self, context: &ErrorContext, error_line: usize) -> (r: String)
        requires
            error_line + 2 <= usize::MAX,
        ensures
            r@ == context_excerpt(context.source_line@, error_line as nat),
    {
        get_context_lines(context, error_line)
    }

    /// The number of errors handled.
    pub fn error_count(&self) -> (r: usize)
        ensures
            r == self.spec_error_count(),
    {
        self.error_count
    }

    /// Sets the recovery strategy.
    pub fn with_recovery_strategy(&mut self, strategy: RecoveryStrategy)
        ensures
            final(self).spec_strategy() == Some(strategy),
            final(self).spec_contexts() == old(self).spec_contexts(),
            final(self).spec_error_count() == old(self).spec_error_count(),
    {
        self.recovery_strategy = Some(strategy);
    }

    /// Counts the error and decides how to recover from it: the action that
    /// carries out the strategy when the strategy applies to the error, else the
    /// error itself.
    pub fn handle_error_with_recovery(&mut self, error: CompileError) -> (r: Result<RecoveryAction, CompileError>)
        requires
            old(self).spec_error_count() < usize::MAX,
        ensures
            final(self).spec_error_count() == old(self).spec_error_count() + 1,
            final(self).spec_contexts() == old(self).spec_contexts(),
            final(self).spec_strategy() == old(self).spec_strategy(),
            r is Ok <==> (old(self).spec_strategy() matches Some(s) && strategy_applies(error@, s)),
            r matches Ok(a) ==> action_follows(a, old(self).spec_strategy().unwrap()),
            r matches Err(e) ==> e == error,
    {
        self.error_count = self.error_count + 1;
        match &self.recovery_strategy {
            Some(strategy) => match recovery_for(&error, strategy) {
                Some(action) => Ok(action),
                None => Err(error),
            },
            None => Err(error),
        }
    }

    /// The action for the error under the strategy, or the error given when the
    /// strategy does not apply.
    fn determine_recovery_action(&self, error: &CompileError, strategy: &RecoveryStrategy) -> (r: Result<RecoveryAction, CompileError>)
        ensures
            r is Ok <==> strategy_applies(error@, *strategy),
            r matches Ok(a) ==> action_follows(a, *strategy),
            r matches Err(e) ==> e@ == (CompileErrorView::RuntimeError {
                message: no_recovery_message(),
                stack_trace: Seq::empty(),
            }),
    {
        match recovery_for(error, strategy) {
            Some(action) => Ok(action),
            None => {
                let e = CompileError::RuntimeError {
                    message: to_owned_string("No suitable recovery action found"),
                    stack_trace: Vec::new(),
                };
                assert(e@ matches CompileErrorView::RuntimeError { stack_trace, .. } && stack_trace =~= Seq::<Seq<char>>::empty());
                Err(e)
            },
        }
    }

    /// Recovers from the error with `recovery_fn` when the strategy applies to it;
    /// fails with the error when there is no strategy, and with the error of no
    /// suitable recovery when the strategy does not apply.
    pub fn try_recover<T, F: FnOnce() -> Result<T, CompileError>>(&self, error: CompileError, recovery_fn: F) -> (r: Result<T, CompileError>)
        requires
            recovery_fn.requires(()),
        ensures
            self.spec_strategy() is None ==> r == Err::<T, CompileError>(error),
            self.spec_strategy() matches Some(s) && strategy_applies(error@, s) ==> recovery_fn.ensures((), r),
            self.spec_strategy() matches Some(s) && !strategy_applies(error@, s) ==> (r matches Err(e) && e@
                == (CompileErrorView::RuntimeError { message: no_recovery_message(), stack_trace: Seq::empty() })),
    {
        match &self.recovery_strategy {
            Some(strategy) => {
                let action = self.determine_recovery_action(&error, strategy);
                match action {
                    Ok(RecoveryAction::Abort) => Err(error),
                    Ok(_) => recovery_fn(),
                    Err(e) => Err(e),
                }
            },
            None => Err(error),
        }
    }

    /// Runs `f` with the context open, and closes the context again.
    pub fn with_context<T, F: FnOnce() -> Result<T, CompileError>>(&mut self, context: ErrorContext, f: F) -> (r: Result<T, CompileError>)
        requires
            old(self).wf(),
            context_fits(context),
            f.requires(()),
        ensures
            f.ensures((), r),
            final(self).spec_contexts() == old(self).spec_contexts(),
            final(self).spec_error_count() == old(self).spec_error_count(),
            final(self).spec_strategy() == old(self).spec_strategy(),
            final(self).wf(),
    {
        self.push_context(context);
        let result = f();
        self.pop_context();
        proof {
            assert(self.spec_contexts() =~= old(self).spec_contexts());
        }
        result
    }
}


/// The broad category of an error.
#[derive(Debug, Clone, Copy, PartialEq, Eq, Hash, Structural)]
pub enum ErrorCategory {
    Syntax,
    Type,
    Runtime,
    System,
}

/// The category read off a context's source text: `type` marks a type error,
/// `fn` or `let` a syntax error, anything else a runtime error.
pub open spec fn category_of(c: ErrorContext) -> ErrorCategory {
    if contains_text(c.source_line@, "type"@) {
        ErrorCategory::Type
    } else if contains_text(c.source_line@, "fn"@) || contains_text(c.source_line@, "let"@) {
        ErrorCategory::Syntax
    } else {
        ErrorCategory::Runtime
    }
}

/// The number of contexts of the given category.
pub open spec fn category_count(v: Seq<ErrorContext>, cat: ErrorCategory) -> nat
    decreases v.len(),
{
    if v.len() == 0 {
        0
    } else {
        category_count(v.drop_last(), cat) + (if category_of(v.last()) == cat { 1nat } else { 0nat })
    }
}

/// The categories that occur among the contexts, each with its count, in the
/// order syntax, type, runtime, system.
pub open spec fn category_counts(v: Seq<ErrorContext>) -> Seq<(ErrorCategory, usize)> {
    let all = seq![ErrorCategory::Syntax, ErrorCategory::Type, ErrorCategory::Runtime, ErrorCategory::System];
    all.filter(|c: ErrorCategory| category_count(v, c) > 0).map_values(
        |c: ErrorCategory| (c, category_count(v, c) as usize),
    )
}

impl ErrorCategory {
    /// The category read off the context's source text.
    pub fn from_context(context: &ErrorContext) -> (r: Self)
        ensures
            r == category_of(*context),
    {
        if str_contains(context.source_line.as_str(), "type") {
            ErrorCategory::Type
        } else if str_contains(context.source_line.as_str(), "fn") || str_contains(
            context.source_line.as_str(),
            "let",
        ) {
            ErrorCategory::Syntax
        } else {
            ErrorCategory::Runtime
        }
    }
}

/// A summary of the handler's state: the number of errors, the open contexts,
/// when it was made, and how many contexts fall in each category.
#[derive(Debug)]
pub struct ErrorReport {
    pub total_errors: usize,
    pub contexts: Vec<ErrorContext>,
    /// Seconds since the Unix epoch.
    pub timestamp: u64,
    pub error_categories: Vec<(ErrorCategory, usize)>,
}

/// Seconds since the Unix epoch by the system clock, through
/// `SystemTime::now().duration_since(UNIX_EPOCH)`; a clock set before the epoch
/// reads as 0. Nothing is stated of the result: it is the time.
#[verifier::external_body]
fn unix_time_now() -> u64 {
    match std::time::SystemTime::now().duration_since(std::time::UNIX_EPOCH) {
        Ok(d) => d.as_secs(),
        Err(_) => 0,
    }
}

proof fn lemma_category_count_bound(v: Seq<ErrorContext>, cat: ErrorCategory)
    ensures
        category_count(v, cat) <= v.len(),
    decreases v.len(),
{
    if v.len() > 0 {
        lemma_category_count_bound(v.drop_last(), cat);
    }
}

/// The contexts' categories with their counts.
pub fn categorize_contexts(contexts: &Vec<ErrorContext>) -> (r: Vec<(ErrorCategory, usize)>)
    ensures
        r@ == category_counts(contexts@),
{
    let ghost v = contexts@;
    let mut syntax: usize = 0;
    let mut types: usize = 0;
    let mut runtime: usize = 0;
    let mut i: usize = 0;
    while i < contexts.len()
        invariant
            v == contexts@,
            i <= v.len(),
            syntax == category_count(v.subrange(0, i as int), ErrorCategory::Syntax),
            types == category_count(v.subrange(0, i as int), ErrorCategory::Type),
            runtime == category_count(v.subrange(0, i as int), ErrorCategory::Runtime),
            syntax + types + runtime == i,
        decreases contexts.len() - i,
    {
        let cat = ErrorCategory::from_context(&contexts[i]);
        proof {
            assert(v.subrange(0, i + 1).drop_last() =~= v.subrange(0, i as int));
        }
        match cat {
            ErrorCategory::Syntax => { syntax = syntax + 1; },
            ErrorCategory::Type => { types = types + 1; },
            _ => { runtime = runtime + 1; },
        }
        i = i + 1;
    }
    proof {
        assert(v.subrange(0, v.len() as int) =~= v);
        lemma_category_count_bound(v, ErrorCategory::System);
    }
    let ghost system = category_count(v, ErrorCategory::System);
    proof {
        lemma_system_never(v);
    }
    let mut out: Vec<(ErrorCategory, usize)> = Vec::new();
    if syntax > 0 {
        out.push((ErrorCategory::Syntax, syntax));
    }
    if types > 0 {
        out.push((ErrorCategory::Type, types));
    }
    if runtime > 0 {
        out.push((ErrorCategory::Runtime, runtime));
    }
    proof {
        let all = seq![ErrorCategory::Syntax, ErrorCategory::Type, ErrorCategory::Runtime, ErrorCategory::System];
        let f = |c: ErrorCategory| category_count(v, c) > 0;
        reveal_with_fuel(Seq::filter, 5);
        assert(all.drop_last() =~= seq![ErrorCategory::Syntax, ErrorCategory::Type, ErrorCategory::Runtime]);
        assert(all.drop_last().drop_last() =~= seq![ErrorCategory::Syntax, ErrorCategory::Type]);
        assert(all.drop_last().drop_last().drop_last() =~= seq![ErrorCategory::Syntax]);
        assert(all.drop_last().drop_last().drop_last().drop_last() =~= Seq::<ErrorCategory>::empty());
        assert(out@ =~= category_counts(v));
    }
    out
}

/// No context is of the system category.
proof fn lemma_system_never(v: Seq<ErrorContext>)
    ensures
        category_count(v, ErrorCategory::System) == 0,
    decreases v.len(),
{
    if v.len() > 0 {
        lemma_system_never(v.drop_last());
    }
}

/// Copies of the contexts.
fn copy_contexts(v: &Vec<ErrorContext>) -> (r: Vec<ErrorContext>)
    ensures
        r@.len() == v@.len(),
        forall|k: int| 0 <= k < v@.len() ==> (#[trigger] r@[k]).file@ == v@[k].file@ && r@[k].line
            == v@[k].line && r@[k].column == v@[k].column && r@[k].source_line@ == v@[k].source_line@,
{
    let mut out: Vec<ErrorContext> = Vec::new();
    let mut i: usize = 0;
    while i < v.len()
        invariant
            i <= v@.len(),
            out@.len() == i,
            forall|k: int| 0 <= k < i ==> (#[trigger] out@[k]).file@ == v@[k].file@ && out@[k].line
                == v@[k].line && out@[k].column == v@[k].column && out@[k].source_line@ == v@[k].source_line@,
        decreases v.len() - i,
    {
        out.push(v[i].duplicate());
        i = i + 1;
    }
    out
}

impl ErrorHandler {
    /// A report of the errors counted and of the open contexts by category.
    pub fn create_error_report(&self) -> (r: ErrorReport)
        ensures
            r.total_errors == self.spec_error_count(),
            r.contexts@.len() == self.spec_contexts().len(),
            forall|k: int| 0 <= k < r.contexts@.len() ==> (#[trigger] r.contexts@[k]).file@
                == self.spec_contexts()[k].file@ && r.contexts@[k].line == self.spec_contexts()[k].line
                && r.contexts@[k].column == self.spec_contexts()[k].column
                && r.contexts@[k].source_line@ == self.spec_contexts()[k].source_line@,
            r.error_categories@ == category_counts(self.spec_contexts()),
    {
        let timestamp = unix_time_now();
        ErrorReport {
            total_errors: self.error_count,
            contexts: copy_contexts(&self.contexts),
            timestamp,
            error_categories: self.categorize_errors(),
        }
    }

    /// The open contexts' categories with their counts.
    fn categorize_errors(&self) -> (r: Vec<(ErrorCategory, usize)>)
        ensures
            r@ == category_counts(self.spec_contexts()),
    {
        categorize_contexts(&self.contexts)
    }
}

/// The name of a category as a summary shows it.
pub open spec fn category_label(c: ErrorCategory) -> Seq<char> {
    match c {
        ErrorCategory::Syntax => "Syntax"@,
        ErrorCategory::Type => "Type"@,
        ErrorCategory::Runtime => "Runtime"@,
        ErrorCategory::System => "System"@,
    }
}

/// The category lines of a summary, given each category's styled label.
pub open spec fn category_lines(cats: Seq<(ErrorCategory, usize)>, labels: Seq<Seq<char>>) -> Seq<char>
    decreases cats.len(),
{
    if cats.len() == 0 {
        Seq::empty()
    } else {
        category_lines(cats.drop_last(), labels) + "  "@ + labels[cats.len() - 1] + ": "@ + decimal(
            cats.last().1 as nat,
        ) + " errors\n"@
    }
}

/// The context lines of a summary from the `i`-th context on, given each
/// context's styled file and line and the styled marker.
pub open spec fn context_lines(
    cs: Seq<ErrorContext>,
    files: Seq<Seq<char>>,
    lines: Seq<Seq<char>>,
    caret: Seq<char>,
) -> Seq<char>
    decreases cs.len(),
{
    if cs.len() == 0 {
        Seq::empty()
    } else {
        let k = cs.len() - 1;
        let c = cs.last();
        context_lines(cs.drop_last(), files, lines, caret) + decimal((k + 1) as nat) + ". In file "@ + files[k]
            + " at line "@ + lines[k] + ":"@ + decimal(c.column as nat) + "\n"@ + "   "@ + c.source_line@ + "\n"@
            + "   "@ + spaces(c.column as nat) + caret + "\n"@
    }
}

/// The summary of a report, given its styled parts.
pub open spec fn summary_text(
    r: ErrorReport,
    labels: Seq<Seq<char>>,
    files: Seq<Seq<char>>,
    lines: Seq<Seq<char>>,
    caret: Seq<char>,
) -> Seq<char> {
    "\nError Report ("@ + decimal(r.timestamp as nat) + ")\n"@ + "==============\n"@ + "\nError Categories:\n"@
        + category_lines(r.error_categories@, labels) + if r.contexts@.len() > 0 {
        "\nError Contexts:\n"@ + context_lines(r.contexts@, files, lines, caret)
    } else {
        Seq::empty()
    }
}

impl ErrorReport {
    /// The summary, given the styled label of each category line, the styled
    /// file and line of each context, and the styled marker, as
    /// [`summary_text`] says.
    pub fn compose_summary(&self, labels: &Vec<String>, files: &Vec<String>, lines: &Vec<String>, caret: &str) -> (r:
        String)
        requires
            labels@.len() == self.error_categories@.len(),
            files@.len() == self.contexts@.len(),
            lines@.len() == self.contexts@.len(),
        ensures
            r@ == summary_text(*self, strings_view(labels@), strings_view(files@), strings_view(lines@), caret@),
    {
        let ghost lv = strings_view(labels@);
        let ghost fv = strings_view(files@);
        let ghost nv = strings_view(lines@);
        let mut out = to_owned_string("\nError Report (");
        push_decimal_u64(&mut out, self.timestamp);
        push_str(&mut out, ")\n");
        push_str(&mut out, "==============\n");
        push_str(&mut out, "\nError Categories:\n");
        let ghost head = out@;
        let mut i: usize = 0;
        proof {
            assert(out@ =~= head + category_lines(self.error_categories@.subrange(0, 0), lv));
        }
        while i < self.error_categories.len()
            invariant
                i <= self.error_categories@.len(),
                labels@.len() == self.error_categories@.len(),
                lv == strings_view(labels@),
                out@ == head + category_lines(self.error_categories@.subrange(0, i as int), lv),
            decreases self.error_categories.len() - i,
        {
            let ghost pre = self.error_categories@.subrange(0, i as int);
            let ghost nxt = self.error_categories@.subrange(0, i + 1);
            proof {
                assert(nxt.drop_last() =~= pre);
                assert(nxt.last() == self.error_categories@[i as int]);
                assert(lv[i as int] == labels@[i as int]@);
            }
            push_str(&mut out, "  ");
            push_str(&mut out, labels[i].as_str());
            push_str(&mut out, ": ");
            push_decimal(&mut out, self.error_categories[i].1);
            push_str(&mut out, " errors\n");
            proof {
                assert(out@ =~= head + category_lines(nxt, lv));
            }
            i = i + 1;
        }
        proof {
            assert(self.error_categories@.subrange(0, self.error_categories@.len() as int) =~= self.error_categories@);
        }
        if self.contexts.len() > 0 {
            push_str(&mut out, "\nError Contexts:\n");
            let ghost mid = out@;
            let mut j: usize = 0;
            proof {
                assert(out@ =~= mid + context_lines(self.contexts@.subrange(0, 0), fv, nv, caret@));
            }
            while j < self.contexts.len()
                invariant
                    j <= self.contexts@.len(),
                    files@.len() == self.contexts@.len(),
                    lines@.len() == self.contexts@.len(),
                    fv == strings_view(files@),
                    nv == strings_view(lines@),
                    out@ == mid + context_lines(self.contexts@.subrange(0, j as int), fv, nv, caret@),
                decreases self.contexts.len() - j,
            {
                let ghost pre = self.contexts@.subrange(0, j as int);
                let ghost nxt = self.contexts@.subrange(0, j + 1);
                proof {
                    assert(nxt.drop_last() =~= pre);
                    assert(nxt.last() == self.contexts@[j as int]);
                    assert(fv[j as int] == files@[j as int]@);
                    assert(nv[j as int] == lines@[j as int]@);
                }
                let c = &self.contexts[j];
                push_decimal(&mut out, j + 1);
                push_str(&mut out, ". In file ");
                push_str(&mut out, files[j].as_str());
                push_str(&mut out, " at line ");
                push_str(&mut out, lines[j].as_str());
                push_str(&mut out, ":");
                push_decimal(&mut out, c.column);
                push_str(&mut out, "\n");
                push_str(&mut out, "   ");
                push_str(&mut out, c.source_line.as_str());
                push_str(&mut out, "\n");
                push_str(&mut out, "   ");
                push_spaces(&mut out, c.column);
                push_str(&mut out, caret);
                push_str(&mut out, "\n");
                proof {
                    assert(out@ =~= mid + context_lines(nxt, fv, nv, caret@));
                }
                j = j + 1;
            }
            proof {
                assert(self.contexts@.subrange(0, self.contexts@.len() as int) =~= self.contexts@);
            }
        }
        out
    }

    /// The summary of the report, styled for a terminal: categories in red,
    /// yellow, red and bright red, files in blue, lines in yellow, the marker
    /// in red, laid out as [`summary_text`] says.
    pub fn print_summary(&self) -> (r: String)
        ensures
            exists|l: Seq<Seq<char>>, f: Seq<Seq<char>>, n: Seq<Seq<char>>, c: Seq<char>|
                {
                    &&& l.len() == self.error_categories@.len()
                    &&& f.len() == self.contexts@.len()
                    &&& n.len() == self.contexts@.len()
                    &&& forall|i: int| 0 <= i < l.len() ==> shown_as(
                        #[trigger] l[i],
                        category_label(self.error_categories@[i].0),
                    )
                    &&& forall|j: int| 0 <= j < f.len() ==> shown_as(#[trigger] f[j], self.contexts@[j].file@)
                    &&& forall|j: int| 0 <= j < n.len() ==> shown_as(
                        #[trigger] n[j],
                        decimal(self.contexts@[j].line as nat),
                    )
                    &&& shown_as(c, "^"@)
                    &&& r@ == summary_text(*self, l, f, n, c)
                },
    {
        let mut labels: Vec<String> = Vec::new();
        let mut i: usize = 0;
        while i < self.error_categories.len()
            invariant
                i <= self.error_categories@.len(),
                labels@.len() == i,
                forall|k: int| 0 <= k < i ==> shown_as(
                    (#[trigger] labels@[k])@,
                    category_label(self.error_categories@[k].0),
                ),
            decreases self.error_categories.len() - i,
        {
            let styled = match self.error_categories[i].0 {
                ErrorCategory::Syntax => crate::style::red("Syntax"),
                ErrorCategory::Type => crate::style::yellow("Type"),
                ErrorCategory::Runtime => crate::style::red("Runtime"),
                ErrorCategory::System => crate::style::bright_red("System"),
            };
            labels.push(styled);
            i = i + 1;
        }
        let mut files: Vec<String> = Vec::new();
        let mut lines: Vec<String> = Vec::new();
        let mut j: usize = 0;
        while j < self.contexts.len()
            invariant
                j <= self.contexts@.len(),
                files@.len() == j,
                lines@.len() == j,
                forall|k: int| 0 <= k < j ==> shown_as((#[trigger] files@[k])@, self.contexts@[k].file@),
                forall|k: int| 0 <= k < j ==> shown_as(
                    (#[trigger] lines@[k])@,
                    decimal(self.contexts@[k].line as nat),
                ),
            decreases self.contexts.len() - j,
        {
            files.push(crate::style::blue(self.contexts[j].file.as_str()));
            let mut num = String::new();
            push_decimal(&mut num, self.contexts[j].line);
            lines.push(crate::style::yellow(num.as_str()));
            j = j + 1;
        }
        let caret = crate::style::red("^");
        let r = self.compose_summary(&labels, &files, &lines, caret.as_str());
        assert(strings_view(labels@).len() == labels@.len());
        assert(strings_view(files@).len() == files@.len());
        assert(strings_view(lines@).len() == lines@.len());
        assert forall|k: int| 0 <= k < labels@.len() implies shown_as(
            #[trigger] strings_view(labels@)[k],
            category_label(self.error_categories@[k].0),
        ) by {
            assert(strings_view(labels@)[k] == labels@[k]@);
        }
        assert forall|k: int| 0 <= k < files@.len() implies shown_as(#[trigger] strings_view(files@)[k], self.contexts@[k].file@) by {
            assert(strings_view(files@)[k] == files@[k]@);
        }
        assert forall|k: int| 0 <= k < lines@.len() implies shown_as(
            #[trigger] strings_view(lines@)[k],
            decimal(self.contexts@[k].line as nat),
        ) by {
            assert(strings_view(lines@)[k] == lines@[k]@);
        }
        r
    }
}

/// Appends the decimal notation of a 64-bit count.
fn push_decimal_u64(s: &mut String, n: u64)
    ensures
        final(s)@ == old(s)@ + decimal(n as nat),
    decreases n,
{
    if n < 10 {
        push_decimal(s, n as usize);
    } else {
        push_decimal_u64(s, n / 10);
        push_decimal(s, (n % 10) as usize);
        proof {
            assert(decimal((n % 10) as nat) == seq![crate::text::digit_char((n % 10) as nat)]);
            assert(decimal(n as nat) == decimal((n / 10) as nat) + seq![crate::text::digit_char((n % 10) as nat)]);
        }
    }
}


/// Closing the context just opened leaves the open contexts as they were.
pub proof fn law_pop_undoes_push(before: ErrorHandler, mid: ErrorHandler, after: ErrorHandler, c: ErrorContext)
    requires
        mid.spec_contexts() == before.spec_contexts().push(c),
        after.spec_contexts() == (if mid.spec_contexts().len() > 0 {
            mid.spec_contexts().drop_last()
        } else {
            mid.spec_contexts()
        }),
    ensures
        after.spec_contexts() == before.spec_contexts(),
{
    assert(before.spec_contexts().push(c).drop_last() =~= before.spec_contexts());
}

} // verus!
