//! Which source files a test run takes: files with the `io` extension whose
//! path holds the filter, if one is set.
use vstd::prelude::*;
use crate::source_location::{last_slash, without_trailing_slashes};
use crate::text::{contains_text, str_contains, str_to_chars, to_owned_string};

verus! {

/// The index of the last `.` before `j` and at or after `from`, if any.
pub open spec fn last_dot(s: Seq<char>, from: nat, j: nat) -> Option<nat>
    decreases j,
{
    if j <= from || j > s.len() {
        None
    } else if s[j - 1] == '.' {
        Some((j - 1) as nat)
    } else {
        last_dot(s, from, (j - 1) as nat)
    }
}

/// The extension of a path, as `Path::extension` gives it: what follows the
/// last `.` of the file name, unless that `.` begins the name.
pub open spec fn extension(p: Seq<char>) -> Option<Seq<char>> {
    let n = without_trailing_slashes(p, p.len());
    let start = match last_slash(p, n) {
        Some(k) => k + 1,
        None => 0,
    };
    match last_dot(p, start, n) {
        Some(d) => if d > start {
            Some(p.subrange((d + 1) as int, n as int))
        } else {
            None
        },
        None => None,
    }
}

/// Whether a run with this filter takes the file at this path.
pub open spec fn selects(filter: Option<Seq<char>>, p: Seq<char>) -> bool {
    extension(p) == Some("io"@) && match filter {
        Some(f) => contains_text(p, f),
        None => true,
    }
}

/// How tests are run: in parallel or one after the other, and which files.
#[derive(Debug)]
pub struct TestRunner {
    pub parallel: bool,
    pub filter: Option<String>,
}

impl TestRunner {
    /// Sequential, with no filter.
    pub fn new() -> (r: Self)
        ensures
            !r.parallel,
            r.filter is None,
    {
        TestRunner { parallel: false, filter: None }
    }

    /// Runs the tests in parallel.
    pub fn enable_parallel(&mut self)
        ensures
            final(self).parallel,
            final(self).filter == old(self).filter,
    {
        self.parallel = true;
    }

    /// Takes only files whose path holds `filter`.
    pub fn with_filter(&mut self, filter: &str)
        ensures
            final(self).parallel == old(self).parallel,
            final(self).filter matches Some(f) && f@ == filter@,
    {
        self.filter = Some(to_owned_string(filter));
    }

    /// Whether the run takes the file at `path`, as [`selects`] says.
    pub fn selects_file(&self, path: &str) -> (r: bool)
        ensures
            r == selects(
                match self.filter {
                    Some(f) => Some(f@),
                    None => None,
                },
                path@,
            ),
    {
        let p = str_to_chars(path);
        let mut n = p.len();
        while n > 1 && p[n - 1] == '/'
            invariant
                n <= p@.len(),
                p@ == path@,
                without_trailing_slashes(p@, n as nat) == without_trailing_slashes(p@, p@.len()),
            decreases n,
        {
            n = n - 1;
        }
        assert(without_trailing_slashes(p@, n as nat) == n);
        let mut j = n;
        while j > 0 && p[j - 1] != '/'
            invariant
                j <= n <= p@.len(),
                last_slash(p@, j as nat) == last_slash(p@, n as nat),
            decreases j,
        {
            j = j - 1;
        }
        let start = j;
        proof {
            if j > 0 {
                assert(last_slash(p@, j as nat) == Some((j - 1) as nat));
            }
        }
        let mut d = n;
        while d > start && p[d - 1] != '.'
            invariant
                start <= d <= n <= p@.len(),
                last_dot(p@, start as nat, d as nat) == last_dot(p@, start as nat, n as nat),
            decreases d,
        {
            d = d - 1;
        }
        proof {
            if d > start {
                assert(last_dot(p@, start as nat, d as nat) == Some((d - 1) as nat));
            } else {
                assert(last_dot(p@, start as nat, d as nat) is None);
            }
            assert(extension(p@) == if d > start + 1 {
                Some(p@.subrange(d as int, n as int))
            } else {
                None
            });
        }
        if d <= start + 1 {
            return false;
        }
        let is_io = n - d == 2 && p[d] == 'i' && p[d + 1] == 'o';
        proof {
            reveal_strlit("io");
            if is_io {
                assert(p@.subrange(d as int, n as int) =~= "io"@);
            } else {
                if p@.subrange(d as int, n as int) == "io"@ {
                    assert(p@.subrange(d as int, n as int).len() == 2);
                    assert(p@.subrange(d as int, n as int)[0] == 'i');
                    assert(p@.subrange(d as int, n as int)[1] == 'o');
                    assert(p@[d as int] == 'i' && p@[d + 1] == 'o');
                }
            }
        }
        if !is_io {
            return false;
        }
        match &self.filter {
            Some(f) => str_contains(path, f.as_str()),
            None => true,
        }
    }
}

} // verus!
