use vstd::prelude::*;

use crate::scanner::chars_of;

verus! {

/// The end of the line that ends just before index `e` (a newline), without a carriage
/// return right before the newline.
pub open spec fn strip_cr(s: Seq<char>, start: int, e: int) -> int {
    if e > start && s[e - 1] == '\r' {
        e - 1
    } else {
        e
    }
}

/// After the first `k` characters of `s`: where the current line starts, and the lines
/// ended so far by a newline.
pub open spec fn split_run(s: Seq<char>, k: nat) -> (nat, Seq<Seq<char>>)
    decreases k,
{
    if k == 0 {
        (0, Seq::empty())
    } else {
        let (start, ls) = split_run(s, (k - 1) as nat);
        if s[k - 1] == '\n' {
            (k, ls.push(s.subrange(start as int, strip_cr(s, start as int, k - 1))))
        } else {
            (start, ls)
        }
    }
}

/// The lines of `s`: split at each `\n` (a `\r` right before it is dropped too); a last
/// line with no newline after it counts, an empty one does not.
pub open spec fn lines_of(s: Seq<char>) -> Seq<Seq<char>> {
    let (start, ls) = split_run(s, s.len());
    if start < s.len() {
        ls.push(s.subrange(start as int, s.len() as int))
    } else {
        ls
    }
}

/// `p` occurs in `l` at index `i`.
pub open spec fn occurs_at(l: Seq<char>, p: Seq<char>, i: int) -> bool {
    0 <= i && i + p.len() <= l.len() && l.subrange(i, i + p.len()) == p
}

/// `p` occurs somewhere in `l`.
pub open spec fn contains_seq(l: Seq<char>, p: Seq<char>) -> bool {
    exists|i: int| occurs_at(l, p, i)
}

/// Whether `p` occurs in `l`.
fn seq_contains(l: &Vec<char>, p: &Vec<char>) -> (r: bool)
    ensures
        r == contains_seq(l@, p@),
{
    if p.len() > l.len() {
        assert forall|i: int| !occurs_at(l@, p@, i) by {}
        return false;
    }
    let last = l.len() - p.len();
    let mut i: usize = 0;
    while i <= last
        invariant
            last == l.len() - p.len(),
            p.len() <= l.len(),
            forall|k: int| 0 <= k < i ==> !occurs_at(l@, p@, k),
        decreases last + 1 - i,
    {
        let mut j: usize = 0;
        while j < p.len() && l[i + j] == p[j]
            invariant
                i <= last,
                last == l.len() - p.len(),
                j <= p.len(),
                forall|t: int| 0 <= t < j ==> l@[i + t] == p@[t],
            decreases p.len() - j,
        {
            j = j + 1;
        }
        if j == p.len() {
            assert(l@.subrange(i as int, i + p.len()) =~= p@);
            assert(occurs_at(l@, p@, i as int));
            return true;
        }
        assert(!occurs_at(l@, p@, i as int)) by {
            if occurs_at(l@, p@, i as int) {
                assert(l@.subrange(i as int, i + p.len())[j as int] == p@[j as int]);
            }
        }
        i = i + 1;
    }
    assert forall|k: int| !occurs_at(l@, p@, k) by {
        if 0 <= k && k + p.len() <= l.len() {
            assert(k < i);
        }
    }
    false
}

/// A loaded text with its lines and a cursor for reading them one after another.
pub struct FileContent {
    content: String,
    lines: Vec<String>,
    current_line_index: usize,
}

impl FileContent {
    pub closed spec fn spec_content(&self) -> Seq<char> {
        self.content@
    }

    pub closed spec fn spec_lines(&self) -> Seq<Seq<char>> {
        self.lines@.map_values(|l: String| l@)
    }

    pub closed spec fn spec_index(&self) -> nat {
        self.current_line_index as nat
    }

    /// The lines are those of the content.
    pub open spec fn wf(&self) -> bool {
        self.spec_lines() == lines_of(self.spec_content())
    }

    /// Holds `content` and its lines, with the cursor on the first line.
    pub fn from_content(content: String) -> (r: Self)
        ensures
            r.spec_content() == content@,
            r.spec_index() == 0,
            r.wf(),
    {
        let text = content.as_str();
        let chars = chars_of(text);
        let len = chars.len();
        let mut lines: Vec<String> = Vec::new();
        let mut start: usize = 0;
        let mut i: usize = 0;
        while i < len
            invariant
                len == text@.len(),
                chars@ == text@,
                text@ == content@,
                i <= len,
                (start as nat, lines@.map_values(|l: String| l@)) == split_run(text@, i as nat),
                start <= i,
            decreases len - i,
        {
            let ghost before = lines@;
            if chars[i] == '\n' {
                let end = if i > start && chars[i - 1] == '\r' {
                    i - 1
                } else {
                    i
                };
                lines.push(String::from_str(text.substring_char(start, end)));
                start = i + 1;
                proof {
                    assert(lines@.map_values(|l: String| l@) =~= before.map_values(
                        |l: String| l@,
                    ).push(text@.subrange(split_run(text@, i as nat).0 as int, end as int)));
                }
            }
            i = i + 1;
        }
        if start < len {
            let ghost before = lines@;
            lines.push(String::from_str(text.substring_char(start, len)));
            proof {
                assert(lines@.map_values(|l: String| l@) =~= before.map_values(|l: String| l@).push(
                    text@.subrange(start as int, len as int),
                ));
            }
        }
        FileContent { content, lines, current_line_index: 0 }
    }

    pub fn count_lines(&self) -> (r: usize)
        ensures
            r == self.spec_lines().len(),
    {
        self.lines.len()
    }

    /// The first line in which `pattern` occurs, if any.
    pub fn find_line_containing(&self, pattern: &str) -> (r: Option<&String>)
        ensures
            match r {
                Some(line) => exists|j: int|
                    0 <= j < self.spec_lines().len() && line@ == self.spec_lines()[j]
                        && contains_seq(#[trigger] self.spec_lines()[j], pattern@) && forall|k: int|
                        0 <= k < j ==> !contains_seq(self.spec_lines()[k], pattern@),
                None => forall|k: int|
                    0 <= k < self.spec_lines().len() ==> !contains_seq(
                        #[trigger] self.spec_lines()[k],
                        pattern@,
                    ),
            },
    {
        let p = chars_of(pattern);
        let mut i: usize = 0;
        while i < self.lines.len()
            invariant
                p@ == pattern@,
                i <= self.lines.len(),
                forall|k: int| 0 <= k < i ==> !contains_seq(#[trigger] self.spec_lines()[k], pattern@),
            decreases self.lines.len() - i,
        {
            let l = chars_of(self.lines[i].as_str());
            if seq_contains(&l, &p) {
                assert(self.spec_lines()[i as int] == self.lines@[i as int]@);
                assert(contains_seq(self.spec_lines()[i as int], pattern@));
                return Some(&self.lines[i]);
            }
            assert(self.spec_lines()[i as int] == self.lines@[i as int]@);
            i = i + 1;
        }
        None
    }

    /// The whole text.
    pub fn get_content(&self) -> (r: &str)
        ensures
            r@ == self.spec_content(),
    {
        self.content.as_str()
    }

    /// All the lines, in order.
    pub fn get_lines(&self) -> (r: &[String])
        ensures
            r@.map_values(|l: String| l@) == self.spec_lines(),
    {
        self.lines.as_slice()
    }

    /// The index of the line that the last call of `go_to_next_line` returned (0 when none
    /// was returned yet).
    pub fn get_current_line_index(&self) -> (r: usize)
        ensures
            r == if self.spec_index() > 0 {
                self.spec_index() - 1
            } else {
                0
            },
    {
        if self.current_line_index > 0 {
            self.current_line_index - 1
        } else {
            0
        }
    }

    /// The line at `index` (counting from 0), if there is one.
    pub fn get_line_by_index(&self, index: usize) -> (r: Option<&String>)
        ensures
            index < self.spec_lines().len() ==> r is Some && r->0@ == self.spec_lines()[index as int],
            index >= self.spec_lines().len() ==> r is None,
    {
        if index < self.lines.len() {
            Some(&self.lines[index])
        } else {
            None
        }
    }

    /// The line under the cursor, moving the cursor past it; at the end, `None`, and the
    /// cursor goes back to the first line.
    pub fn go_to_next_line(&mut self) -> (r: Option<&String>)
        ensures
            final(self).spec_content() == old(self).spec_content(),
            final(self).spec_lines() == old(self).spec_lines(),
            old(self).spec_index() < old(self).spec_lines().len() ==> r is Some && r->0@
                == old(self).spec_lines()[old(self).spec_index() as int] && final(self).spec_index()
                == old(self).spec_index() + 1,
            old(self).spec_index() >= old(self).spec_lines().len() ==> r is None
                && final(self).spec_index() == 0,
    {
        if self.current_line_index < self.lines.len() {
            self.current_line_index = self.current_line_index + 1;
            Some(&self.lines[self.current_line_index - 1])
        } else {
            self.current_line_index = 0;
            None
        }
    }

    /// Puts the cursor on line `index` (counting from 0), or on the first line when there is
    /// no such line.
    pub fn set_current_line_index(&mut self, index: usize)
        ensures
            final(self).spec_content() == old(self).spec_content(),
            final(self).spec_lines() == old(self).spec_lines(),
            final(self).spec_index() == if index < old(self).spec_lines().len() {
                index as nat
            } else {
                0
            },
    {
        if index < self.lines.len() {
            self.current_line_index = index;
        } else {
            self.current_line_index = 0;
        }
    }
}

} // verus!
