//! Places in source text: a file, its directory, a line and a column, found
//! from a character offset.
use vstd::prelude::*;
use crate::text::{decimal, push_decimal, push_str, str_to_chars, to_owned_string, string_from_range};

verus! {

/// The offsets at which lines begin: zero, and just past each newline.
pub open spec fn line_starts(s: Seq<char>) -> Seq<nat>
    decreases s.len(),
{
    if s.len() == 0 {
        seq![0nat]
    } else if s.last() == '\n' {
        line_starts(s.drop_last()).push(s.len())
    } else {
        line_starts(s.drop_last())
    }
}

/// How many line starts are at or before `pos`.
pub open spec fn starts_at_or_before(starts: Seq<nat>, pos: nat) -> nat
    decreases starts.len(),
{
    if starts.len() == 0 {
        0
    } else {
        starts_at_or_before(starts.drop_last(), pos) + if starts.last() <= pos {
            1nat
        } else {
            0nat
        }
    }
}

/// The line and column, from one, of the place at offset `pos` in `content`:
/// its line is the last that starts at or before it; an offset past the end of
/// the text gives (0, 0).
pub open spec fn place_of(content: Seq<char>, pos: nat) -> (u32, u32) {
    if pos > (vstd::utf8::encode_utf8(content).len() as usize) {
        (0, 0)
    } else {
        let starts = line_starts(content);
        let idx = starts_at_or_before(starts, pos) - 1;
        ((idx + 1) as u32, (pos - starts[idx] + 1) as u32)
    }
}

/// The offset of the character a token position names: inside the text a
/// position counts characters from one (position `p` is the character at `p -
/// 1`); the start and the end of the text name themselves.
pub open spec fn named_offset(content: Seq<char>, pos: nat) -> nat {
    if 0 < pos && pos < content.len() {
        (pos - 1) as nat
    } else {
        pos
    }
}

/// The line and column of token position `pos` in `content`: those of the
/// character it names, as [`named_offset`] says; a position past the end of
/// the text gives (0, 0).
pub open spec fn position_of(content: Seq<char>, pos: nat) -> (u32, u32) {
    if pos > (vstd::utf8::encode_utf8(content).len() as usize) {
        (0, 0)
    } else {
        place_of(content, named_offset(content, pos))
    }
}

/// The index of the last `/` before `j`, if any.
pub open spec fn last_slash(s: Seq<char>, j: nat) -> Option<nat>
    decreases j,
{
    if j == 0 || j > s.len() {
        None
    } else if s[j - 1] == '/' {
        Some((j - 1) as nat)
    } else {
        last_slash(s, (j - 1) as nat)
    }
}

/// The length without the slashes that end a path (a lone `/` kept).
pub open spec fn without_trailing_slashes(s: Seq<char>, j: nat) -> nat
    decreases j,
{
    if j > 1 && j <= s.len() && s[j - 1] == '/' {
        without_trailing_slashes(s, (j - 1) as nat)
    } else {
        j
    }
}

/// The directory a path lies in, as `Path::parent` gives it: "." for an empty
/// path or the root, which have none; "" for a name with no directory; "/" for
/// a name in the root; the text before the last separator otherwise.
pub open spec fn parent_dir(s: Seq<char>) -> Seq<char> {
    let n = without_trailing_slashes(s, s.len());
    if n == 0 || (n == 1 && s[0] == '/') {
        "."@
    } else {
        match last_slash(s, n) {
            None => Seq::empty(),
            Some(k) => if k == 0 {
                "/"@
            } else {
                s.subrange(0, k as int)
            },
        }
    }
}

/// A place in source text.
#[derive(Debug, Clone, PartialEq)]
pub struct SourceLocation {
    pub file: String,
    pub directory: String,
    pub line: u32,
    pub column: u32,
}

impl Default for SourceLocation {
    /// An unknown place: file "unknown" in ".", at line and column 0.
    fn default() -> (r: Self)
        ensures
            r.file@ == "unknown"@,
            r.directory@ == "."@,
            r.line == 0,
            r.column == 0,
    {
        SourceLocation { file: to_owned_string("unknown"), directory: to_owned_string("."), line: 0, column: 0 }
    }
}

pub proof fn lemma_line_starts(s: Seq<char>)
    ensures
        line_starts(s).len() >= 1,
        line_starts(s)[0] == 0,
        forall|i: int, j: int| 0 <= i < j < line_starts(s).len() ==> line_starts(s)[i] < line_starts(s)[j],
        forall|i: int| 0 <= i < line_starts(s).len() ==> line_starts(s)[i] <= s.len(),
        line_starts(s).len() <= s.len() + 1,
    decreases s.len(),
{
    if s.len() > 0 {
        lemma_line_starts(s.drop_last());
    }
}

proof fn lemma_count_le_sorted(starts: Seq<nat>, pos: nat, k: int)
    requires
        forall|i: int, j: int| 0 <= i < j < starts.len() ==> starts[i] < starts[j],
        0 <= k <= starts.len(),
        forall|i: int| 0 <= i < k ==> starts[i] <= pos,
        forall|i: int| k <= i < starts.len() ==> starts[i] > pos,
    ensures
        starts_at_or_before(starts, pos) == k,
    decreases starts.len(),
{
    if starts.len() > 0 {
        if k == starts.len() {
            lemma_count_le_sorted(starts.drop_last(), pos, k - 1);
        } else {
            lemma_count_le_sorted(starts.drop_last(), pos, k);
        }
    }
}

/// The line starts of a prefix are the first line starts of the whole text;
/// the others lie past the prefix.
proof fn lemma_line_starts_prefix(s: Seq<char>, i: nat)
    requires
        i <= s.len(),
    ensures
        line_starts(s.subrange(0, i as int)).len() <= line_starts(s).len(),
        forall|t: int| 0 <= t < line_starts(s.subrange(0, i as int)).len() ==> line_starts(s)[t] == line_starts(
            s.subrange(0, i as int),
        )[t],
        forall|t: int| line_starts(s.subrange(0, i as int)).len() <= t < line_starts(s).len() ==> line_starts(s)[t]
            > i,
    decreases s.len(),
{
    if i == s.len() {
        assert(s.subrange(0, i as int) =~= s);
    } else {
        lemma_line_starts_prefix(s.drop_last(), i);
        assert(s.drop_last().subrange(0, i as int) =~= s.subrange(0, i as int));
    }
}

impl SourceLocation {
    /// A place from its parts.
    pub fn new(file: String, directory: String, line: u32, column: u32) -> (r: Self)
        ensures
            r.file == file,
            r.directory == directory,
            r.line == line,
            r.column == column,
    {
        SourceLocation { file, directory, line, column }
    }

    /// The place of token position `token_position` in `file`, whose text is
    /// read as the content: its line and column as [`position_of`] says, and
    /// the directory the text names as a path.
    ///
    /// Token positions follow an uneven rule, kept on purpose: a position
    /// strictly inside the text names the character just before it, so the
    /// position just past a newline still belongs to the line that newline
    /// ends, and in the text line1, newline, line2, newline, line3 position 7
    /// is line 2, column 1. Position 0 and the position at the end of the text
    /// name themselves: in line1, newline, line2 position 11 is line 2, column
    /// 6, and in the empty text position 0 is line 1, column 1. A position past
    /// the end gives line 0, column 0.
    pub fn from_token(file: &str, token_position: usize) -> (r: Self)
        ensures
            r.file@ == file@,
            r.directory@ == parent_dir(file@),
            (r.line, r.column) == position_of(file@, token_position as nat),
    {
        let chars = str_to_chars(file);
        let named = if 0 < token_position && token_position < chars.len() {
            token_position - 1
        } else {
            token_position
        };
        let (line, column) = if token_position > file.len() {
            (0, 0)
        } else {
            Self::calculate_position(&chars, named, file.len())
        };
        SourceLocation { file: to_owned_string(file), directory: parent_of(&chars), line, column }
    }

    /// The line and column of an offset, given the text and its length in
    /// bytes.
    fn calculate_position(chars: &Vec<char>, pos: usize, content_length: usize) -> (r: (u32, u32))
        requires
            content_length == (vstd::utf8::encode_utf8(chars@).len() as usize),
        ensures
            r == place_of(chars@, pos as nat),
    {
        if pos > content_length {
            return (0, 0);
        }
        let ghost s = chars@;
        // The last line start at or before `pos`, found by walking the text up
        // to it.
        let mut start: usize = 0;
        let mut idx: usize = 0;
        let mut i: usize = 0;
        proof {
            assert(s.subrange(0, 0) =~= Seq::<char>::empty());
        }
        while i < chars.len() && i < pos
            invariant
                s == chars@,
                i <= s.len(),
                i <= pos,
                idx + 1 == line_starts(s.subrange(0, i as int)).len(),
                idx <= i,
                start <= i,
                start as nat == line_starts(s.subrange(0, i as int)).last(),
            decreases chars.len() - i,
        {
            proof {
                assert(s.subrange(0, i + 1).drop_last() =~= s.subrange(0, i as int));
                assert(s.subrange(0, i + 1).last() == s[i as int]);
                lemma_line_starts(s.subrange(0, i as int));
            }
            if chars[i] == '\n' {
                idx = idx + 1;
                start = i + 1;
            }
            i = i + 1;
        }
        proof {
            let pre = line_starts(s.subrange(0, i as int));
            lemma_line_starts(s.subrange(0, i as int));
            lemma_line_starts(s);
            lemma_line_starts_prefix(s, i as nat);
            let full = line_starts(s);
            assert forall|t: int| 0 <= t < pre.len() implies full[t] <= pos by {
                assert(full[t] == pre[t]);
            }
            if i < pos {
                assert(i == s.len());
                assert(s.subrange(0, i as int) =~= s);
            }
            assert forall|t: int| pre.len() <= t < full.len() implies full[t] > pos by {
                if i < pos {
                    assert(s.subrange(0, i as int) =~= s);
                }
            }
            lemma_count_le_sorted(full, pos as nat, pre.len() as int);
            assert(full[pre.len() - 1] == pre[pre.len() - 1]);
        }
        let line = (idx as u128 + 1) as u32;
        let column = ((pos - start) as u128 + 1) as u32;
        (line, column)
    }

    /// The place as "file:line,column".
    pub fn format_location(&self) -> (r: String)
        ensures
            r@ == self.file@ + ":"@ + decimal(self.line as nat) + ","@ + decimal(self.column as nat),
    {
        let mut s = self.file.clone();
        push_str(&mut s, ":");
        push_decimal(&mut s, self.line as usize);
        push_str(&mut s, ",");
        push_decimal(&mut s, self.column as usize);
        s
    }

    /// Whether this place comes before the other in the same file.
    pub fn is_before(&self, other: &Self) -> (r: bool)
        ensures
            r == comes_before(*self, *other),
    {
        if !crate::text::str_eq(self.file.as_str(), other.file.as_str()) {
            return false;
        }
        self.line < other.line || (self.line == other.line && self.column < other.column)
    }
}

/// The directory a path lies in, as [`parent_dir`] says.
fn parent_of(s: &Vec<char>) -> (r: String)
    ensures
        r@ == parent_dir(s@),
{
    let mut n = s.len();
    while n > 1 && s[n - 1] == '/'
        invariant
            n <= s@.len(),
            without_trailing_slashes(s@, n as nat) == without_trailing_slashes(s@, s@.len()),
        decreases n,
    {
        n = n - 1;
    }
    if n == 0 || (n == 1 && s[0] == '/') {
        return to_owned_string(".");
    }
    let mut j = n;
    while j > 0 && s[j - 1] != '/'
        invariant
            j <= n <= s@.len(),
            last_slash(s@, j as nat) == last_slash(s@, n as nat),
        decreases j,
    {
        j = j - 1;
    }
    if j == 0 {
        assert(last_slash(s@, 0) is None);
        String::new()
    } else if j == 1 {
        to_owned_string("/")
    } else {
        string_from_range(s, 0, j - 1)
    }
}


/// Place `a` comes before place `b` in the same file.
pub open spec fn comes_before(a: SourceLocation, b: SourceLocation) -> bool {
    a.file@ == b.file@ && (a.line < b.line || (a.line == b.line && a.column < b.column))
}

/// "Comes before" is a strict order: no place comes before itself, and it
/// carries over from one place to the next.
pub proof fn law_before_is_strict_order(a: SourceLocation, b: SourceLocation, c: SourceLocation)
    ensures
        !comes_before(a, a),
        comes_before(a, b) ==> !comes_before(b, a),
        comes_before(a, b) && comes_before(b, c) ==> comes_before(a, c),
{
}

} // verus!
