use vstd::prelude::*;
use vstd::std_specs::iter::IteratorSpec;

verus! {

broadcast use vstd::string::group_string_axioms;

/// Whether `c` is the marker's letter at position `pos`, in lower or upper case.
/// Only ASCII case is folded: no other character stands for a marker letter.
pub open spec fn is_letter(c: char, pos: int) -> bool {
    if pos == 0 {
        c == 'w' || c == 'W'
    } else if pos == 1 {
        c == 'a' || c == 'A'
    } else if pos == 2 {
        c == 'r' || c == 'R'
    } else if pos == 3 {
        c == 'n' || c == 'N'
    } else {
        false
    }
}

/// The four characters of `s` from index `i` on spell the marker, whatever their case.
pub open spec fn occurs_at(s: Seq<char>, i: int) -> bool {
    &&& 0 <= i
    &&& i + 4 <= s.len()
    &&& is_letter(s[i], 0)
    &&& is_letter(s[i + 1], 1)
    &&& is_letter(s[i + 2], 2)
    &&& is_letter(s[i + 3], 3)
}

/// The marker occurs somewhere in `s` as a contiguous run of characters.
pub open spec fn has_marker(s: Seq<char>) -> bool {
    exists|i: int| #[trigger] occurs_at(s, i)
}

/// From index `i` to the end of `s`, at most four characters, `s` agrees with the
/// start of the marker: an occurrence may be under way at `i`.
pub open spec fn begins_at(s: Seq<char>, i: int) -> bool {
    &&& 0 <= i <= s.len()
    &&& (i < s.len() ==> is_letter(s[i], 0))
    &&& (i + 1 < s.len() ==> is_letter(s[i + 1], 1))
    &&& (i + 2 < s.len() ==> is_letter(s[i + 2], 2))
    &&& (i + 3 < s.len() ==> is_letter(s[i + 3], 3))
}

/// `p` is the progress of a scan that has consumed `s`: the last `p` characters are the
/// first `p` letters of the marker, and no other unfinished occurrence reaches the end.
pub open spec fn tracks(s: Seq<char>, p: int) -> bool {
    let n = s.len() as int;
    &&& 0 <= p < 4
    &&& p <= n
    &&& begins_at(s, n - p)
    &&& (n - 1 != n - p ==> !begins_at(s, n - 1))
    &&& (n - 2 != n - p ==> !begins_at(s, n - 2))
    &&& (n - 3 != n - p ==> !begins_at(s, n - 3))
}

/// The progress after one more character `c`, where 4 stands for a completed occurrence.
/// A character that breaks a partial match is tried again as the marker's first letter.
pub open spec fn advance(p: int, c: char) -> int {
    if is_letter(c, p) {
        p + 1
    } else if is_letter(c, 0) {
        1
    } else {
        0
    }
}

/// The progress with which the scan goes on after `c`: a completed occurrence starts anew.
pub open spec fn next_progress(p: int, c: char) -> int {
    if advance(p, c) == 4 {
        0
    } else {
        advance(p, c)
    }
}

/// One step of the scan keeps `tracks`, and completes an occurrence exactly when the
/// four last characters spell the marker.
pub proof fn lemma_step(s: Seq<char>, p: int, c: char)
    requires
        tracks(s, p),
    ensures
        tracks(s.push(c), next_progress(p, c)),
        advance(p, c) == 4 <==> occurs_at(s.push(c), s.len() - 3),
{
    let t = s.push(c);
    let n = s.len() as int;
    assert(forall|k: int| 0 <= k < n ==> t[k] == s[k]);
    assert(t[n] == c);
}

/// A text has one progress only.
pub proof fn lemma_progress_unique(s: Seq<char>, p: int, q: int)
    requires
        tracks(s, p),
        tracks(s, q),
    ensures
        p == q,
{
}

/// An occurrence in a text is an occurrence in every longer text.
pub proof fn lemma_marker_stays(s: Seq<char>, more: Seq<char>)
    requires
        has_marker(s),
    ensures
        has_marker(s + more),
{
    let i = choose|i: int| occurs_at(s, i);
    assert(occurs_at(s + more, i));
}

/// While no occurrence is complete, one more character completes at most the one that
/// the progress follows.
pub proof fn lemma_no_new_occurrence(s: Seq<char>, p: int, c: char)
    requires
        tracks(s, p),
        !has_marker(s),
    ensures
        has_marker(s.push(c)) <==> advance(p, c) == 4,
{
    let t = s.push(c);
    let n = s.len() as int;
    lemma_step(s, p, c);
    assert(forall|k: int| 0 <= k < n ==> t[k] == s[k]);
    if has_marker(t) {
        let i = choose|i: int| occurs_at(t, i);
        if i + 4 <= n {
            assert(occurs_at(s, i));
        }
    }
}

/// Whether `c` is the marker's letter at position `pos`.
pub fn letter_matches(c: char, pos: usize) -> (r: bool)
    ensures
        r == is_letter(c, pos as int),
{
    match pos {
        0 => c == 'w' || c == 'W',
        1 => c == 'a' || c == 'A',
        2 => c == 'r' || c == 'R',
        3 => c == 'n' || c == 'N',
        _ => false,
    }
}

/// A resumable scan for the marker over a text that arrives in fragments.
pub struct Scanner {
    progress: usize,
    found: bool,
    seen: Ghost<Seq<char>>,
}

impl Scanner {
    /// The text consumed so far: the fragments written, in order.
    pub closed spec fn consumed(&self) -> Seq<char> {
        self.seen@
    }

    /// Whether the scan has found the marker.
    pub closed spec fn reports(&self) -> bool {
        self.found
    }

    /// The scan's state agrees with the text it has consumed.
    pub closed spec fn wf(&self) -> bool {
        &&& self.found == has_marker(self.seen@)
        &&& !self.found ==> tracks(self.seen@, self.progress as int)
    }

    /// Two scans of the same text report the same, however the text was cut into
    /// fragments: a scan keeps nothing from one text to the next.
    pub proof fn lemma_same_text_same_report(self, other: Self)
        requires
            self.wf(),
            other.wf(),
            self.consumed() == other.consumed(),
        ensures
            self.reports() == other.reports(),
            self.reports() == has_marker(self.consumed()),
    {
    }

    /// A scan that has consumed nothing.
    pub fn new() -> (s: Self)
        ensures
            s.wf(),
            s.consumed() == Seq::<char>::empty(),
    {
        Scanner { progress: 0, found: false, seen: Ghost(Seq::empty()) }
    }

    /// Consumes the characters of `text`, stopping early once the marker was found.
    pub fn write_fragment(&mut self, text: &str)
        requires
            old(self).wf(),
        ensures
            final(self).wf(),
            final(self).consumed() == old(self).consumed() + text@,
    {
        let ghost before = self.seen@;
        if !self.found {
            let mut it = text.chars();
            let ghost mut k: int = 0;
            loop
                invariant_except_break
                    !self.found,
                invariant
                    0 <= k <= text@.len(),
                    it.remaining() == text@.skip(k),
                    it.obeys_prophetic_iter_laws(),
                    self.seen@ == before + text@.take(k),
                    self.wf(),
                ensures
                    self.found || k == text@.len(),
                decreases text@.len() - k,
            {
                match it.next() {
                    None => {
                        assert(text@.skip(k).len() == 0);
                        break ;
                    },
                    Some(c) => {
                        proof {
                            lemma_step(self.seen@, self.progress as int, c);
                            lemma_no_new_occurrence(self.seen@, self.progress as int, c);
                            assert(text@.take(k + 1) =~= text@.take(k).push(c));
                            assert(before + text@.take(k + 1) =~= (before + text@.take(k)).push(c));
                            assert(text@.skip(k).drop_first() =~= text@.skip(k + 1));
                            k = k + 1;
                        }
                        self.seen = Ghost(self.seen@.push(c));
                        if letter_matches(c, self.progress) {
                            if self.progress == 3 {
                                self.found = true;
                                break ;
                            }
                            self.progress = self.progress + 1;
                        } else if letter_matches(c, 0) {
                            self.progress = 1;
                        } else {
                            self.progress = 0;
                        }
                    },
                }
            }
            proof {
                if !self.found {
                    assert(text@.take(k) =~= text@);
                }
            }
        }
        proof {
            if self.found {
                assert(before + text@ =~= self.seen@ + text@.skip(self.seen@.len() - before.len()));
                lemma_marker_stays(self.seen@, text@.skip(self.seen@.len() - before.len()));
            }
        }
        self.seen = Ghost(before + text@);
    }

    /// Whether the marker occurs in the text consumed so far.
    pub fn found(&self) -> (r: bool)
        requires
            self.wf(),
        ensures
            r == self.reports(),
            r == has_marker(self.consumed()),
    {
        self.found
    }
}

/// Whether `s` contains the marker, in any mix of cases.
pub fn contains_warn(s: &str) -> (r: bool)
    ensures
        r == has_marker(s@),
{
    let mut scan = Scanner::new();
    scan.write_fragment(s);
    assert(Seq::<char>::empty() + s@ =~= s@);
    scan.found()
}

} // verus!
