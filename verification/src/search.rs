//! Locating a query inside the raw buffer: the first case-insensitive match,
//! the line it sits on, and the vertical offset that brings that line into
//! view at a fixed row height.

use vstd::prelude::*;

use crate::lex::lower_char;
use crate::lex::str_chars;
use crate::lex::to_lower_char;

verus! {

/// The query occurs at position `i` of the text, ASCII-case-insensitively.
pub open spec fn match_at(s: Seq<char>, q: Seq<char>, i: int) -> bool {
    0 <= i && i + q.len() <= s.len() && (forall|j: int|
        0 <= j < q.len() ==> lower_char(s[i + j]) == lower_char(#[trigger] q[j]))
}

/// The first match position at or after `i`, or none.
pub open spec fn first_match_from(s: Seq<char>, q: Seq<char>, i: int) -> Option<int>
    decreases s.len() - i,
{
    if i < 0 || i + q.len() > s.len() {
        None
    } else if match_at(s, q, i) {
        Some(i)
    } else {
        first_match_from(s, q, i + 1)
    }
}

/// How many line breaks the text holds.
pub open spec fn newline_count(s: Seq<char>) -> int
    decreases s.len(),
{
    if s.len() == 0 {
        0
    } else {
        newline_count(s.drop_last()) + if s.last() == '\n' {
            1int
        } else {
            0
        }
    }
}

/// The line the first case-insensitive match of the query starts on, or
/// none: the number of line breaks before the match position.
pub open spec fn search_line(s: Seq<char>, q: Seq<char>) -> Option<int> {
    match first_match_from(s, q, 0) {
        Some(p) => Some(newline_count(s.take(p))),
        None => None,
    }
}

/// Line breaks among the first `upto` characters.
fn count_newlines(v: &Vec<char>, upto: usize) -> (r: usize)
    requires
        upto <= v.len(),
    ensures
        r as int == newline_count(v@.take(upto as int)),
{
    let mut cnt: usize = 0;
    let mut j: usize = 0;
    while j < upto
        invariant
            j <= upto <= v@.len(),
            cnt <= j,
            cnt as int == newline_count(v@.take(j as int)),
        decreases upto - j,
    {
        proof {
            assert(v@.take(j + 1).drop_last() =~= v@.take(j as int));
            assert(v@.take(j + 1).last() == v@[j as int]);
        }
        if v[j] == '\n' {
            cnt = cnt + 1;
        }
        j = j + 1;
    }
    cnt
}

/// Finds the line on which the query first occurs in the text, comparing
/// ASCII-case-insensitively; none when it never does. An empty query counts
/// as matching at the very start.
pub fn find_line(content: &str, query: &str) -> (r: Option<usize>)
    ensures
        match r {
            Some(l) => search_line(content@, query@) == Some(l as int),
            None => search_line(content@, query@) is None,
        },
{
    let s = str_chars(content);
    let q = str_chars(query);
    let n = s.len();
    let m = q.len();
    if m == 0 {
        proof {
            assert(match_at(s@, q@, 0));
            assert(s@.take(0) =~= Seq::<char>::empty());
        }
        return Some(0);
    }
    if m > n {
        return None;
    }
    let lim = n - m;
    let mut i: usize = 0;
    while i <= lim
        invariant
            i <= lim + 1,
            lim == n - m,
            1 <= m <= n,
            n == s@.len(),
            m == q@.len(),
            s@ == content@,
            q@ == query@,
            first_match_from(s@, q@, 0) == first_match_from(s@, q@, i as int),
        decreases lim + 1 - i,
    {
        let mut j: usize = 0;
        let mut hit = true;
        while j < m
            invariant
                j <= m,
                i + m <= n,
                n == s@.len(),
                m == q@.len(),
                hit == (forall|x: int|
                    0 <= x < j ==> lower_char(s@[i + x]) == lower_char(#[trigger] q@[x])),
            decreases m - j,
        {
            if !(to_lower_char(s[i + j]) == to_lower_char(q[j])) {
                hit = false;
                j = m;
            } else {
                j = j + 1;
            }
        }
        if hit {
            proof {
                assert(match_at(s@, q@, i as int));
            }
            let line = count_newlines(&s, i);
            return Some(line);
        }
        proof {
            assert(!match_at(s@, q@, i as int));
        }
        i = i + 1;
    }
    proof {
        assert(first_match_from(s@, q@, i as int) is None);
    }
    None
}

/// The vertical scroll offset that brings a line into view: the line number
/// times the fixed row height.
pub fn scroll_offset(line: usize, row_height: usize) -> (y: usize)
    requires
        line * row_height <= usize::MAX,
    ensures
        y == line * row_height,
{
    line * row_height
}

} // verus!
