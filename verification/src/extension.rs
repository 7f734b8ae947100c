//! Countability of a request: a file whose extension is in the exclusion
//! set must never be counted. The extension is read as the platform path
//! type reads it: trailing separators and trailing `.` components are
//! ignored, a path naming a `..` component has no extension, and a dot
//! that begins the final segment marks a hidden file, not an extension.
//! Matching is case-sensitive, and a file name without an extension is
//! always countable.

use crate::text::{find_last, last_index_of, lemma_last_index_of_bounds, str_eq};
use vstd::prelude::*;

verus! {

/// `s` without its trailing separators and trailing `.` components.
pub open spec fn trim_dot_components(s: Seq<char>) -> Seq<char>
    decreases s.len(),
{
    if s.len() > 0 && s.last() == '/' {
        trim_dot_components(s.drop_last())
    } else if s.len() >= 2 && s.last() == '.' && s[s.len() - 2] == '/' {
        trim_dot_components(s.subrange(0, s.len() - 2))
    } else {
        s
    }
}

/// Position of the first character of the final path segment.
pub open spec fn segment_start(s: Seq<char>) -> int {
    last_index_of(s, '/') + 1
}

/// The final path segment of `s`.
pub open spec fn final_segment(s: Seq<char>) -> Seq<char> {
    s.subrange(segment_start(s), s.len() as int)
}

/// The extension of the file the path names: after trailing separators
/// and `.` components are dropped, the text after the final segment's
/// last dot, provided the segment is not `..` and that dot is not its
/// first character. `None` when there is no such dot.
pub open spec fn extension_of(s: Seq<char>) -> Option<Seq<char>> {
    let t = trim_dot_components(s);
    let d = last_index_of(t, '.');
    if final_segment(t) == ".."@ {
        None
    } else if d >= segment_start(t) + 1 {
        Some(t.subrange(d + 1, t.len() as int))
    } else {
        None
    }
}

/// The exclusion set: markdown documentation files are not counted.
pub open spec fn is_excluded_extension(e: Seq<char>) -> bool {
    e == "md"@ || e == "markdown"@
}

/// A countable file name: non-empty, with no extension or one outside the
/// exclusion set.
pub open spec fn spec_is_counted(s: Seq<char>) -> bool {
    s.len() > 0 && match extension_of(s) {
        Some(e) => !is_excluded_extension(e),
        None => true,
    }
}

/// Law: a file whose extension is excluded is never countable.
pub proof fn lemma_excluded_never_counted(s: Seq<char>)
    requires
        extension_of(s) matches Some(e) && is_excluded_extension(e),
    ensures
        !spec_is_counted(s),
{
}

/// Decides countability, exactly as `spec_is_counted` states.
pub fn is_counted(file: &str) -> (r: bool)
    ensures
        r == spec_is_counted(file@),
{
    let len = file.unicode_len();
    if len == 0 {
        return false;
    }
    proof {
        assert(file@.subrange(0, len as int) =~= file@);
    }
    let mut t: usize = len;
    let mut done = false;
    while !done
        invariant
            t <= len,
            len == file@.len(),
            trim_dot_components(file@) == trim_dot_components(file@.subrange(0, t as int)),
            done ==> trim_dot_components(file@.subrange(0, t as int)) == file@.subrange(
                0,
                t as int,
            ),
        decreases t, (if done {
            0int
        } else {
            1int
        }),
    {
        if t > 0 && file.get_char(t - 1) == '/' {
            proof {
                let u = file@.subrange(0, t as int);
                assert(u.last() == '/');
                assert(u.drop_last() =~= file@.subrange(0, t - 1));
            }
            t = t - 1;
        } else if t >= 2 && file.get_char(t - 1) == '.' && file.get_char(t - 2) == '/' {
            proof {
                let u = file@.subrange(0, t as int);
                assert(u.last() == '.');
                assert(u[u.len() - 2] == '/');
                assert(u.subrange(0, u.len() - 2) =~= file@.subrange(0, t - 2));
            }
            t = t - 2;
        } else {
            proof {
                let u = file@.subrange(0, t as int);
                assert(trim_dot_components(u) == u);
            }
            done = true;
        }
    }
    let trimmed = file.substring_char(0, t);
    let ghost tv = trim_dot_components(file@);
    proof {
        assert(trimmed@ == tv);
        lemma_last_index_of_bounds(trimmed@, '.');
        lemma_last_index_of_bounds(trimmed@, '/');
    }
    let dot = find_last(trimmed, '.');
    let slash = find_last(trimmed, '/');
    let seg: usize = match slash {
        Some(i) => i + 1,
        None => 0,
    };
    // A final `..` component names no file and so has no extension.
    let mut parent = false;
    if t - seg == 2 {
        if trimmed.get_char(seg) == '.' && trimmed.get_char(seg + 1) == '.' {
            parent = true;
        }
    }
    proof {
        reveal_strlit("..");
        assert(".."@.len() == 2);
        assert(".."@[0] == '.' && ".."@[1] == '.');
        assert(final_segment(tv).len() == t - seg);
        if parent {
            assert(final_segment(tv) =~= ".."@);
        } else if t - seg == 2 {
            assert(final_segment(tv)[0] == tv[seg as int]);
            assert(final_segment(tv)[1] == tv[seg + 1]);
            assert(!(tv[seg as int] == '.' && tv[seg + 1] == '.'));
            assert(final_segment(tv) != ".."@);
        } else {
            assert(final_segment(tv) != ".."@);
        }
    }
    if parent {
        return true;
    }
    match dot {
        None => true,
        Some(d) => {
            if d <= seg {
                true
            } else {
                let ext = trimmed.substring_char(d + 1, t);
                let excluded = str_eq(ext, "md") || str_eq(ext, "markdown");
                !excluded
            }
        },
    }
}

} // verus!
