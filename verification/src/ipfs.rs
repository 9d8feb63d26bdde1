//! Helpers around an out-of-process content-addressing tool: the path
//! its state lives under, the keys content is published with, and the
//! parsing of its command output.
//!
//! Invoking the tool is I/O and stays outside this library; the
//! parsing of what it prints is verified here.

use vstd::prelude::*;
use vstd::string::{StrSliceExecFns, StringExecFns};

verus! {

/// The directory the content-addressing tool keeps its state under.
#[derive(Debug, PartialEq, Eq)]
pub struct IpfsPath(pub String);

impl IpfsPath {
    pub fn value(&self) -> (v: &String)
        ensures
            v@ == self.0@,
    {
        &self.0
    }

    pub fn to_string(&self) -> (s: String)
        ensures
            s@ == self.0@,
    {
        self.0.clone()
    }
}

impl Clone for IpfsPath {
    fn clone(&self) -> (r: Self)
        ensures
            r == *self,
    {
        IpfsPath(self.0.clone())
    }
}

/// A name under which content is published.
pub trait PubKey: Sized {
    /// The key's text.
    spec fn spec_key(&self) -> Seq<char>;

    fn key(&self) -> (s: String)
        ensures
            s@ == self.spec_key(),
    ;
}

/// The key a repository is published under.
#[derive(Debug, PartialEq, Eq)]
pub struct RepoPubKey(pub String);

impl RepoPubKey {
    pub fn value(&self) -> (v: &String)
        ensures
            v@ == self.0@,
    {
        &self.0
    }
}

impl Clone for RepoPubKey {
    fn clone(&self) -> (r: Self)
        ensures
            r == *self,
    {
        RepoPubKey(self.0.clone())
    }
}

impl PubKey for RepoPubKey {
    open spec fn spec_key(&self) -> Seq<char> {
        self.0@
    }

    fn key(&self) -> (s: String) {
        self.value().clone()
    }
}

/// The key a trust-anchor certificate is published under.
#[derive(Debug, PartialEq, Eq)]
pub struct TalPubKey(pub String);

impl TalPubKey {
    pub fn value(&self) -> (v: &String)
        ensures
            v@ == self.0@,
    {
        &self.0
    }
}

impl Clone for TalPubKey {
    fn clone(&self) -> (r: Self)
        ensures
            r == *self,
    {
        TalPubKey(self.0.clone())
    }
}

impl PubKey for TalPubKey {
    open spec fn spec_key(&self) -> Seq<char> {
        self.0@
    }

    fn key(&self) -> (s: String) {
        self.value().clone()
    }
}

/// The text with one trailing line break removed, as line enumeration
/// treats it.
pub open spec fn strip_trailing_newline(s: Seq<char>) -> Seq<char> {
    if s.len() > 0 && s.last() == '\n' {
        s.drop_last()
    } else {
        s
    }
}

/// The characters after the last line break.
pub open spec fn after_last_newline(s: Seq<char>) -> Seq<char>
    decreases s.len(),
{
    if s.len() == 0 {
        s
    } else if s.last() == '\n' {
        Seq::empty()
    } else {
        after_last_newline(s.drop_last()).push(s.last())
    }
}

/// The last line of the tool's output: what stands after the final
/// line break, a trailing one not counting.
pub open spec fn last_line(s: Seq<char>) -> Seq<char> {
    after_last_newline(strip_trailing_newline(s))
}

/// The index of the first occurrence of `c` in `s`; the length when
/// `c` does not occur.
pub open spec fn idx_of_first(s: Seq<char>, c: char) -> int
    decreases s.len(),
{
    if s.len() == 0 {
        0
    } else if s[0] == c {
        0
    } else {
        1 + idx_of_first(s.skip(1), c)
    }
}

/// The content identifier in the tool's output: the second
/// space-separated token of the last line (the tool prints
/// `added <cid> <name>`), absent when that line holds no space.
pub open spec fn spec_extract_cid(s: Seq<char>) -> Option<Seq<char>> {
    let line = last_line(s);
    let i = idx_of_first(line, ' ');
    if i >= line.len() {
        None
    } else {
        let rest = line.subrange(i + 1, line.len() as int);
        Some(rest.take(idx_of_first(rest, ' ')))
    }
}

/// A scan that saw no occurrence up to `i`, and one at `i` unless it
/// ran out, found the first occurrence.
proof fn lemma_idx_of_first(s: Seq<char>, c: char, i: int)
    requires
        0 <= i <= s.len(),
        forall|j: int| 0 <= j < i ==> s[j] != c,
        i < s.len() ==> s[i] == c,
    ensures
        idx_of_first(s, c) == i,
    decreases s.len(),
{
    if s.len() > 0 && s[0] != c {
        lemma_idx_of_first(s.skip(1), c, i - 1);
    }
}

/// The characters after the last line break are the suffix that starts
/// right after it.
proof fn lemma_after_last_newline(t: Seq<char>, start: int)
    requires
        0 <= start <= t.len(),
        forall|j: int| start <= j < t.len() ==> t[j] != '\n',
        start > 0 ==> t[start - 1] == '\n',
    ensures
        after_last_newline(t) == t.subrange(start, t.len() as int),
    decreases t.len(),
{
    if t.len() == 0 {
        assert(t.subrange(0, 0) =~= t);
    } else if t.last() == '\n' {
        assert(start == t.len());
        assert(t.subrange(start, t.len() as int) =~= Seq::<char>::empty());
    } else {
        assert(start < t.len());
        lemma_after_last_newline(t.drop_last(), start);
        assert(t.drop_last().subrange(start, t.drop_last().len() as int).push(t.last())
            =~= t.subrange(start, t.len() as int));
    }
}

/// Parses the content identifier out of the tool's output: the second
/// space-separated token of the last line, absent when that line
/// holds no space.
#[verifier::loop_isolation(false)]
pub fn extract_cid(output: &str) -> (r: Option<String>)
    ensures
        (match r {
            Some(cid) => spec_extract_cid(output@) == Some(cid@),
            None => spec_extract_cid(output@) is None,
        }),
{
    let n = output.unicode_len();
    let end: usize = if n > 0 && output.get_char(n - 1) == '\n' {
        n - 1
    } else {
        n
    };
    proof {
        assert(strip_trailing_newline(output@) =~= output@.take(end as int));
    }
    let ghost t = output@.take(end as int);

    // Where the last line starts: right after the last line break.
    let mut start: usize = 0;
    let mut i: usize = 0;
    while i < end
        invariant
            start <= i <= end,
            forall|j: int| start <= j < i ==> t[j] != '\n',
            start > 0 ==> t[start - 1] == '\n',
        decreases end - i,
    {
        if output.get_char(i) == '\n' {
            start = i + 1;
        }
        i = i + 1;
    }
    proof {
        lemma_after_last_newline(t, start as int);
    }
    let ghost line = output@.subrange(start as int, end as int);
    proof {
        assert(t.subrange(start as int, t.len() as int) =~= line);
        assert(last_line(output@) == line);
    }

    // The first space of the line.
    let mut p1: usize = start;
    while p1 < end
        invariant
            start <= p1 <= end,
            forall|j: int| start <= j < p1 ==> output@[j] != ' ',
        decreases end - p1,
    {
        if output.get_char(p1) == ' ' {
            break ;
        }
        p1 = p1 + 1;
    }
    proof {
        assert(forall|j: int| 0 <= j < p1 - start ==> line[j] != ' ');
        if p1 < end {
            lemma_idx_of_first(line, ' ', p1 - start);
        } else {
            lemma_idx_of_first(line, ' ', line.len() as int);
        }
    }
    if p1 == end {
        return None;
    }

    // The end of the second token: the next space, or the line's end.
    let mut p2: usize = p1 + 1;
    while p2 < end
        invariant
            p1 + 1 <= p2 <= end,
            forall|j: int| p1 + 1 <= j < p2 ==> output@[j] != ' ',
        decreases end - p2,
    {
        if output.get_char(p2) == ' ' {
            break ;
        }
        p2 = p2 + 1;
    }
    let ghost rest = line.subrange(p1 - start + 1, line.len() as int);
    proof {
        assert(rest =~= output@.subrange(p1 + 1 as int, end as int));
        if p2 < end {
            lemma_idx_of_first(rest, ' ', p2 - p1 - 1);
        } else {
            lemma_idx_of_first(rest, ' ', rest.len() as int);
        }
    }
    let token = output.substring_char(p1 + 1, p2);
    proof {
        assert(rest.take(idx_of_first(rest, ' ')) =~= output@.subrange(p1 + 1 as int, p2 as int));
    }
    Some(String::from_str(token))
}

} // verus!
